use kt_resolver::qualified::{
    is_java_declaring_file, kotlin_getter_name, member_tiers_with_getter_fallback,
    parse_qualifier, retain_java_declared, type_path_anchors, type_path_leaf,
    QualifiedCandidates, QualifierRoot, ReceiverAnchor,
};
use kt_resolver::types::{Location, Position, Range};

#[test]
fn qualifier_roots() {
    assert!(matches!(parse_qualifier("this"), QualifierRoot::This));
    assert!(matches!(parse_qualifier("this.field.member"), QualifierRoot::This));
    assert!(matches!(parse_qualifier("super"), QualifierRoot::Super));
    match parse_qualifier("Outer.Inner") {
        QualifierRoot::TypePath { root, nested } => {
            assert_eq!(root, "Outer");
            assert_eq!(nested, vec!["Inner"]);
        }
        _ => panic!("expected a type path"),
    }
    match parse_qualifier("viewModel.state") {
        QualifierRoot::ValuePath { root, rest } => {
            assert_eq!(root, "viewModel");
            assert_eq!(rest, vec!["state"]);
        }
        _ => panic!("expected a value path"),
    }
    match parse_qualifier("") {
        QualifierRoot::ValuePath { root, rest } => {
            assert_eq!(root, "");
            assert!(rest.is_empty());
        }
        _ => panic!("expected a value path"),
    }
}

#[test]
fn getter_names() {
    assert_eq!(kotlin_getter_name("fail"), "getFail");
    assert_eq!(kotlin_getter_name(""), "get");
    assert_eq!(kotlin_getter_name("ßeta"), "getSSeta");
}

#[test]
fn java_declaring_files() {
    assert!(is_java_declaring_file("file:///src/A.java"));
    assert!(is_java_declaring_file("jar:file:///x.jar!/com/A.class"));
    assert!(!is_java_declaring_file("file:///src/A.kt"));
    let p = Position { line: 0, character: 0 };
    let loc = |u: &str| Location { uri: u.to_owned(), range: Range { start: p, end: p } };
    let kept = retain_java_declared(vec![loc("a.kt"), loc("b.java"), loc("c.class")]);
    let uris: Vec<String> = kept.iter().map(|l| l.uri.clone()).collect();
    assert_eq!(uris, vec!["b.java", "c.class"]);
}

fn at(uri: &str, line: u32) -> Location {
    Location { uri: uri.into(), range: Range { start: Position { line, character: 0 }, end: Position { line, character: 1 } } }
}

fn uris(v: &[Location]) -> Vec<String> {
    v.iter().map(|l| l.uri.clone()).collect()
}

#[test]
fn members_precede_extensions() {
    let c = QualifiedCandidates {
        own_members: vec![at("file:///own", 1)],
        inherited_members: vec![at("file:///base", 2)],
        own_type_extension: Some(at("file:///ext", 3)),
        supertype_extension: Some(at("file:///superext", 4)),
    };
    assert!(!c.is_empty());
    assert_eq!(uris(&c.into_precedence_ordered()), vec!["file:///own", "file:///base", "file:///ext", "file:///superext"]);
    let empty = QualifiedCandidates { own_members: vec![], inherited_members: vec![], own_type_extension: None, supertype_extension: None };
    assert!(empty.is_empty());
    assert!(empty.into_precedence_ordered().is_empty());
}

#[test]
fn getter_fallback_only_without_real_members() {
    let (own, inh) = member_tiers_with_getter_fallback(
        vec![],
        vec![],
        vec![at("file:///Foo.kt", 1), at("file:///Foo.java", 2)],
        vec![at("jar:file:///a.jar!/Base.class", 3)],
    );
    assert_eq!(uris(&own), vec!["file:///Foo.java"]);
    assert_eq!(uris(&inh), vec!["jar:file:///a.jar!/Base.class"]);
    let (own, inh) = member_tiers_with_getter_fallback(vec![at("file:///Foo.kt", 1)], vec![], vec![at("file:///G.java", 2)], vec![]);
    assert_eq!(uris(&own), vec!["file:///Foo.kt"]);
    assert!(inh.is_empty());
}

#[test]
fn type_path_anchor_fallbacks() {
    let walked = vec![ReceiverAnchor { declaration: Some(at("file:///Outer.kt", 4)), class_name: "Inner".into() }];
    let out = type_path_anchors(walked, 1, true, "Outer");
    assert_eq!(out.len(), 1);
    assert_eq!(out[0].class_name, "Inner");
    assert!(type_path_anchors(vec![], 1, true, "Outer").is_empty());
    let builtin = type_path_anchors(vec![], 0, false, "String");
    assert_eq!(builtin.len(), 1);
    assert!(builtin[0].declaration.is_none());
    assert_eq!(builtin[0].class_name, "String");
    let unresolved = type_path_anchors(vec![], 0, true, "Foo");
    assert_eq!(unresolved[0].class_name, "Foo");
    assert_eq!(type_path_leaf("Outer", &vec!["Inner", "Leaf"]), "Leaf");
    assert_eq!(type_path_leaf("Outer", &vec![]), "Outer");
}
