use kt_resolver::qualified::{ValuePathAction, ValuePathWalk};
use kt_resolver::types::{Location, Position, Range};

fn loc(uri: &str, line: u32) -> Location {
    Location {
        uri: uri.to_owned(),
        range: Range { start: Position { line, character: 0 }, end: Position { line, character: 4 } },
    }
}

fn resolve_type(a: &ValuePathAction) -> Option<&str> {
    match a {
        ValuePathAction::ResolveType(t) => Some(t.as_str()),
        _ => None,
    }
}

#[test]
fn a_nested_type_then_a_field_is_walked_to_its_leaf() {
    let (mut w, a) = ValuePathWalk::begin("Scenes.Confirmation?", &vec!["viewModel"]);
    assert_eq!(resolve_type(&a), Some("Scenes"));
    assert_eq!(w.class_name, "Scenes");
    assert_eq!(w.segments, vec!["Confirmation".to_string(), "viewModel".to_string()]);

    match w.resolved(Some(loc("file:///Scenes.kt", 1))) {
        ValuePathAction::FindInFile(name, uri) => {
            assert_eq!(name, "Confirmation");
            assert_eq!(uri, "file:///Scenes.kt");
        }
        _ => panic!("a nested type is looked for in the outer type's file"),
    }
    match w.found_in_file(Some(loc("file:///Scenes.kt", 5))) {
        ValuePathAction::FieldType(name, uri) => {
            assert_eq!(name, "viewModel");
            assert_eq!(uri, "file:///Scenes.kt");
        }
        _ => panic!("a lowercase segment is a field"),
    }
    assert_eq!(w.class_name, "Confirmation");
    let a = w.field_typed(Some("ui.HomeViewModel?".to_string()));
    assert_eq!(resolve_type(&a), Some("ui.HomeViewModel?"));
    assert_eq!(w.class_name, "HomeViewModel");
    match w.resolved(None) {
        ValuePathAction::Done(anchor) => {
            assert!(anchor.declaration.is_none());
            assert_eq!(anchor.class_name, "HomeViewModel");
        }
        _ => panic!("every segment was walked"),
    }
}

#[test]
fn a_nested_type_missing_from_the_file_is_resolved_globally() {
    let (mut w, _) = ValuePathWalk::begin("Outer", &vec!["Inner"]);
    assert!(w.segments == vec!["Inner".to_string()]);
    let _ = w.resolved(Some(loc("file:///Outer.kt", 0)));
    let a = w.found_in_file(None);
    assert_eq!(resolve_type(&a), Some("Inner"));
    match w.resolved(Some(loc("file:///Inner.kt", 2))) {
        ValuePathAction::Done(anchor) => {
            assert_eq!(anchor.class_name, "Inner");
            assert_eq!(anchor.declaration.map(|l| l.uri), Some("file:///Inner.kt".to_string()));
        }
        _ => panic!("the walk is over"),
    }
}

#[test]
fn a_walk_without_declaration_or_field_type_fails() {
    let (mut w, _) = ValuePathWalk::begin("String", &vec!["length"]);
    assert!(matches!(w.resolved(None), ValuePathAction::Failed));
    let (mut w, _) = ValuePathWalk::begin("Repo", &vec!["items"]);
    let _ = w.resolved(Some(loc("file:///Repo.kt", 0)));
    assert!(matches!(w.field_typed(None), ValuePathAction::Failed));
    // A path with no further segment anchors on the root's own type.
    let (mut w, _) = ValuePathWalk::begin("String?", &Vec::new());
    match w.resolved(None) {
        ValuePathAction::Done(anchor) => assert_eq!(anchor.class_name, "String"),
        _ => panic!("nothing left to walk"),
    }
}
