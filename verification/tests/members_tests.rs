use kt_resolver::completion_items::{completion_item_for_nested_symbol, CompletionItemKind};
use kt_resolver::members::{
    is_preferred_type_symbol_kind, jar_member_indices, member_kind_allowed,
    nested_type_member_indices, type_symbol_index, workspace_member_indices, MembershipContext,
};
use kt_resolver::types::{ImportEntry, Position, Range, SymbolEntry, SymbolKind, Visibility};

fn span(l0: u32, l1: u32) -> Range {
    Range { start: Position { line: l0, character: 0 }, end: Position { line: l1, character: 1 } }
}

fn symbol(name: &str, kind: SymbolKind, range: Range, container: Option<&str>) -> SymbolEntry {
    SymbolEntry {
        name: name.to_owned(),
        kind,
        visibility: Visibility::Public,
        range,
        selection_range: range,
        detail: String::new(),
        params: String::new(),
        param_counts: (0, 0),
        container: container.map(|c| c.to_owned()),
        cold: None,
        trailing_lambda: false,
        deprecated: false,
    }
}

fn companion(name: &str, range: Range, container: &str) -> SymbolEntry {
    let mut s = symbol(name, SymbolKind::Object, range, Some(container));
    s.detail = "companion object".into();
    s
}

#[test]
fn kinds_allowed_by_context() {
    assert!(member_kind_allowed(MembershipContext::Direct, SymbolKind::Class));
    assert!(!member_kind_allowed(MembershipContext::Inherited, SymbolKind::Class));
    assert!(member_kind_allowed(MembershipContext::Inherited, SymbolKind::Function));
    assert!(is_preferred_type_symbol_kind(SymbolKind::EnumMember));
    assert!(is_preferred_type_symbol_kind(SymbolKind::Object));
    assert!(!is_preferred_type_symbol_kind(SymbolKind::Function));
}

#[test]
fn type_declaration_outranks_a_same_named_function() {
    let symbols = vec![
        symbol("MaterialTheme", SymbolKind::Function, span(0, 2), None),
        symbol("MaterialTheme", SymbolKind::Object, span(3, 9), None),
        symbol("MaterialTheme", SymbolKind::Function, span(10, 12), None),
    ];
    assert_eq!(type_symbol_index(&symbols, "MaterialTheme"), Some(1));
    let functions = vec![
        symbol("run", SymbolKind::Function, span(0, 2), None),
        symbol("run", SymbolKind::Function, span(3, 4), None),
    ];
    assert_eq!(type_symbol_index(&functions, "run"), Some(1));
    assert_eq!(type_symbol_index(&functions, "walk"), None);
}

/// ```text
/// class Foo {            // 0..9
///     val a              // 1
///     private val hidden // 2
///     class Nested       // 3
///     companion object { // 4..6
///         fun create()   // 5
///     }
/// }
/// class Bar { val a }    // 10..12
/// ```
fn source_file() -> Vec<SymbolEntry> {
    let mut hidden = symbol("hidden", SymbolKind::Property, span(2, 2), Some("Foo"));
    hidden.visibility = Visibility::Private;
    vec![
        symbol("Foo", SymbolKind::Class, span(0, 9), None),
        symbol("a", SymbolKind::Property, span(1, 1), Some("Foo")),
        hidden,
        symbol("Nested", SymbolKind::Class, span(3, 3), Some("Foo")),
        companion("Companion", span(4, 6), "Foo"),
        symbol("create", SymbolKind::Function, span(5, 5), Some("Companion")),
        symbol("Bar", SymbolKind::Class, span(10, 12), None),
        symbol("a", SymbolKind::Property, span(11, 11), Some("Bar")),
    ]
}

#[test]
fn workspace_members_include_the_companions_members() {
    let symbols = source_file();
    assert_eq!(workspace_member_indices(&symbols, 0, MembershipContext::Direct), vec![1, 3, 4, 5]);
    assert_eq!(workspace_member_indices(&symbols, 0, MembershipContext::Inherited), vec![1, 5]);
    assert_eq!(workspace_member_indices(&symbols, 6, MembershipContext::Direct), vec![7]);
}

#[test]
fn compiled_members_are_disambiguated_by_package() {
    // Two classes named `Config` in different packages of one archive.
    let symbols = vec![
        symbol("Config", SymbolKind::Class, span(0, 0), None),
        symbol("timeout", SymbolKind::Property, span(1, 1), Some("Config")),
        symbol("Config", SymbolKind::Class, span(2, 2), None),
        symbol("retries", SymbolKind::Property, span(3, 3), Some("Config")),
        companion("Companion", span(4, 4), "Config"),
        symbol("create", SymbolKind::Method, span(5, 5), Some("Companion")),
    ];
    let packages: Vec<String> = ["com.a", "com.a", "com.b", "com.b", "com.b", "com.b"].iter().map(|s| s.to_string()).collect();
    let import_b = vec![ImportEntry { full_path: "com.b.Config".into(), local_name: "Config".into(), is_star: false }];
    assert_eq!(
        jar_member_indices(&symbols, Some(&packages), Some(&import_b), "Config", 2, MembershipContext::Direct),
        vec![3, 4, 5]
    );
    // No import: the declaring class's own package decides.
    assert_eq!(
        jar_member_indices(&symbols, Some(&packages), None, "Config", 0, MembershipContext::Direct),
        vec![1]
    );
    // No recorded packages: every tagged member is kept.
    assert_eq!(
        jar_member_indices(&symbols, None, None, "Config", 0, MembershipContext::Inherited),
        vec![1, 3, 5]
    );
}

#[test]
fn deprecated_compiled_members_are_dropped() {
    let mut old = symbol("old", SymbolKind::Method, span(1, 1), Some("Api"));
    old.deprecated = true;
    let symbols = vec![symbol("Api", SymbolKind::Class, span(0, 0), None), old, symbol("new", SymbolKind::Method, span(2, 2), Some("Api"))];
    assert_eq!(jar_member_indices(&symbols, None, None, "Api", 0, MembershipContext::Direct), vec![2]);
}

#[test]
fn nested_type_members_pick_the_file_kind() {
    let symbols = source_file();
    assert_eq!(
        nested_type_member_indices(&symbols, false, None, None, "Foo", MembershipContext::Direct),
        vec![1, 3, 4, 5]
    );
    // Unknown type name: every visible symbol of an allowed kind.
    assert_eq!(
        nested_type_member_indices(&symbols, false, None, None, "Missing", MembershipContext::Inherited),
        vec![1, 5, 7]
    );
}

#[test]
fn nested_symbol_items() {
    let mut f = symbol("create", SymbolKind::Function, span(5, 5), Some("Companion"));
    f.detail = "fun create(): Foo<T>".into();
    let item = completion_item_for_nested_symbol(&f, Some("fun create(): Foo<String>".into()));
    assert_eq!(item.label, "create");
    assert_eq!(item.kind, CompletionItemKind::Function);
    assert_eq!(item.sort_text.as_deref(), Some("00:create"));
    assert_eq!(item.insert_text.as_deref(), Some("create($1)"));
    assert!(item.snippet_format && item.triggers_parameter_hints);
    assert_eq!(item.detail.as_deref(), Some("fun create(): Foo<String>"));
    let p = symbol("size", SymbolKind::Property, span(1, 1), Some("Foo"));
    let item = completion_item_for_nested_symbol(&p, Some("ignored".into()));
    assert_eq!(item.sort_text.as_deref(), Some("02:size"));
    assert_eq!(item.insert_text, None);
    assert_eq!(item.detail, None);
    let c = symbol("Nested", SymbolKind::Class, span(3, 3), Some("Foo"));
    let item = completion_item_for_nested_symbol(&c, None);
    assert_eq!(item.sort_text.as_deref(), Some("03:Nested"));
}
