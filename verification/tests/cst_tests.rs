use kt_resolver::cst::{
    enclosing_smart_cast_type, resolve_declared_type_from_cst, subject_segments, CstKind, CstNode,
};

fn leaf(kind: CstKind, text: &str) -> CstNode {
    CstNode { kind, text: Some(text.to_owned()), children: Vec::new() }
}

fn node(kind: CstKind, children: Vec<CstNode>) -> CstNode {
    CstNode { kind, text: None, children }
}

fn ident(name: &str) -> CstNode {
    leaf(CstKind::SimpleIdentifier, name)
}

/// `a.b.C` as a user type.
fn user_type(dotted: &str) -> CstNode {
    node(
        CstKind::UserType,
        dotted.split('.').map(|p| leaf(CstKind::TypeIdentifier, p)).collect(),
    )
}

fn nullable(dotted: &str) -> CstNode {
    node(CstKind::NullableType, vec![user_type(dotted), leaf(CstKind::Other, "?")])
}

/// `name: ty` as a parameter-shaped node of `kind`.
fn param(kind: CstKind, name: &str, ty: CstNode) -> CstNode {
    node(kind, vec![ident(name), leaf(CstKind::Other, ":"), ty])
}

/// `val name: ty = …` as a property declaration.
fn property(name: &str, ty: Option<CstNode>, boolean_init: bool) -> CstNode {
    let mut decl = vec![ident(name)];
    if let Some(t) = ty {
        decl.push(t);
    }
    let mut children = vec![leaf(CstKind::Other, "val"), node(CstKind::VariableDeclaration, decl)];
    if boolean_init {
        children.push(leaf(CstKind::BooleanLiteral, "false"));
    } else {
        children.push(leaf(CstKind::Other, "compute()"));
    }
    node(CstKind::PropertyDeclaration, children)
}

fn function(params: Vec<CstNode>, body: CstNode) -> CstNode {
    node(
        CstKind::FunctionDeclaration,
        vec![ident("f"), node(CstKind::FunctionValueParameters, params), body],
    )
}

#[test]
fn sibling_declaration_in_the_block_wins_over_the_parameter() {
    let block = node(
        CstKind::Statements,
        vec![
            property("other", Some(user_type("Int")), false),
            property("event", Some(user_type("ui.ClickEvent")), false),
        ],
    );
    let fun = function(vec![param(CstKind::Parameter, "event", user_type("Event"))], node(CstKind::Other, Vec::new()));
    let ancestors = vec![block, fun];
    assert_eq!(resolve_declared_type_from_cst(&ancestors, "event").as_deref(), Some("ui.ClickEvent"));
}

#[test]
fn function_parameter_types_are_found_including_nullable_ones() {
    let fun = function(
        vec![
            param(CstKind::Parameter, "state", nullable("State")),
            param(CstKind::Parameter, "count", user_type("Int")),
        ],
        node(CstKind::Statements, Vec::new()),
    );
    let ancestors = vec![node(CstKind::Statements, Vec::new()), fun];
    assert_eq!(resolve_declared_type_from_cst(&ancestors, "state").as_deref(), Some("State"));
    assert_eq!(resolve_declared_type_from_cst(&ancestors, "count").as_deref(), Some("Int"));
    assert_eq!(resolve_declared_type_from_cst(&ancestors, "missing"), None);
}

#[test]
fn primary_constructor_parameters_answer_for_the_class() {
    let class = node(
        CstKind::ClassDeclaration,
        vec![
            leaf(CstKind::TypeIdentifier, "Screen"),
            node(
                CstKind::PrimaryConstructor,
                vec![param(CstKind::ClassParameter, "repo", user_type("data.Repository"))],
            ),
        ],
    );
    let ancestors = vec![node(CstKind::Other, Vec::new()), class];
    assert_eq!(resolve_declared_type_from_cst(&ancestors, "repo").as_deref(), Some("data.Repository"));
}

#[test]
fn an_unannotated_boolean_initializer_is_a_boolean() {
    let block = node(CstKind::Statements, vec![property("visible", None, true), property("other", None, false)]);
    let ancestors = vec![block];
    assert_eq!(resolve_declared_type_from_cst(&ancestors, "visible").as_deref(), Some("Boolean"));
    assert_eq!(resolve_declared_type_from_cst(&ancestors, "other"), None);
}

#[test]
fn a_type_before_the_name_or_an_unreadable_type_is_not_taken() {
    // `Int x` shape: the type precedes the name, so nothing follows it.
    let odd = node(CstKind::Parameter, vec![user_type("Int"), ident("x")]);
    let fun = function(vec![odd], node(CstKind::Other, Vec::new()));
    assert_eq!(resolve_declared_type_from_cst(&vec![fun], "x"), None);
    // A type identifier whose text is not valid UTF-8 spoils the whole name.
    let broken = node(
        CstKind::UserType,
        vec![leaf(CstKind::TypeIdentifier, "a"), CstNode { kind: CstKind::TypeIdentifier, text: None, children: Vec::new() }],
    );
    let fun = function(vec![param(CstKind::Parameter, "y", broken)], node(CstKind::Other, Vec::new()));
    assert_eq!(resolve_declared_type_from_cst(&vec![fun], "y"), None);
}

fn token(text: &str) -> CstNode {
    leaf(CstKind::Other, text)
}

/// `a.b.c` as a navigation expression.
fn navigation(path: &str) -> CstNode {
    let mut parts = path.split('.');
    let mut expr = ident(parts.next().unwrap());
    for p in parts {
        expr = node(
            CstKind::NavigationExpression,
            vec![expr, node(CstKind::NavigationSuffix, vec![leaf(CstKind::Dot, "."), ident(p)])],
        );
    }
    expr
}

fn subject(path: &str) -> CstNode {
    node(CstKind::WhenSubject, vec![token("("), navigation(path), token(")")])
}

fn entry(tested: &str) -> CstNode {
    node(
        CstKind::WhenEntry,
        vec![
            node(CstKind::WhenCondition, vec![node(CstKind::TypeTest, vec![token("is"), user_type(tested)])]),
            token("->"),
            node(CstKind::Statements, Vec::new()),
        ],
    )
}

fn when(path: &str) -> CstNode {
    node(CstKind::WhenExpression, vec![token("when"), subject(path), token("{"), token("}")])
}

fn segs(v: &[&str]) -> Vec<String> {
    v.iter().map(|s| s.to_string()).collect()
}

#[test]
fn subject_segments_flatten_identifiers_and_navigations() {
    assert_eq!(subject_segments(&subject("state")), Some(segs(&["state"])));
    assert_eq!(subject_segments(&subject("event.events")), Some(segs(&["event", "events"])));
    assert_eq!(subject_segments(&navigation("a.b.c")), Some(segs(&["a", "b", "c"])));
    let call = node(CstKind::WhenSubject, vec![token("("), node(CstKind::Other, vec![ident("f")]), token(")")]);
    assert_eq!(subject_segments(&call), None);
}

#[test]
fn a_when_branch_narrows_its_subject() {
    let ancestors = vec![node(CstKind::Statements, Vec::new()), entry("Event.Click"), when("event")];
    assert_eq!(
        enclosing_smart_cast_type(&ancestors, &segs(&["event"])),
        Some(("Event.Click".to_string(), 1))
    );
    // A longer path through the narrowed subject reports how much it covers.
    assert_eq!(
        enclosing_smart_cast_type(&ancestors, &segs(&["event", "payload"])),
        Some(("Event.Click".to_string(), 1))
    );
    assert_eq!(enclosing_smart_cast_type(&ancestors, &segs(&["other"])), None);
}

#[test]
fn levels_with_another_subject_are_looked_past() {
    // when (event) { is Banner -> when (event.events) { is Shown -> <point> } }
    let ancestors = vec![
        node(CstKind::Statements, Vec::new()),
        entry("Shown"),
        when("event.events"),
        node(CstKind::Statements, Vec::new()),
        entry("Banner"),
        when("event"),
    ];
    assert_eq!(
        enclosing_smart_cast_type(&ancestors, &segs(&["event", "events"])),
        Some(("Shown".to_string(), 2))
    );
    assert_eq!(
        enclosing_smart_cast_type(&ancestors, &segs(&["event"])),
        Some(("Banner".to_string(), 1))
    );
}

#[test]
fn over_long_targets_and_missing_pieces_give_nothing() {
    let ancestors = vec![entry("A"), when("x")];
    let long: Vec<String> = (0..17).map(|i| format!("s{i}")).collect();
    assert_eq!(enclosing_smart_cast_type(&ancestors, &long), None);
    // An entry without an enclosing `when`.
    assert_eq!(enclosing_smart_cast_type(&vec![entry("A")], &segs(&["x"])), None);
    // A `when` without a subject.
    let bare_when = node(CstKind::WhenExpression, vec![token("when"), token("{")]);
    assert_eq!(enclosing_smart_cast_type(&vec![entry("A"), bare_when], &segs(&["x"])), None);
}
