use kt_resolver::completion_items::{
    build_completion_items, dedup_completion_labels, filter_inaccessible_completion_items,
    kind_sort_rank, make_completion_item, mark_deprecated, strip_completion_snippets,
    symbol_kind_to_completion, BareCompleter, CompletionEntry, CompletionItemKind,
};
use kt_resolver::types::{FileData, Position, Range, SymbolEntry, SymbolKind, Visibility, SourceSet};

fn labels(items: &[CompletionEntry]) -> Vec<String> {
    items.iter().map(|e| e.label.clone()).collect()
}

#[test]
fn completer_modes_follow_the_prefix() {
    let c = BareCompleter::new("myV", true, false);
    assert!(c.lowercase_mode && !c.uppercase_mode && !c.camel_mode);
    assert_eq!(c.local_max_score, 2);
    let c = BareCompleter::new("MyView", true, false);
    assert!(c.uppercase_mode && c.camel_mode);
    assert_eq!(c.local_max_score, 1);
    let c = BareCompleter::new("MAX", true, false);
    assert!(c.uppercase_mode && !c.camel_mode);
    let c = BareCompleter::new("", true, false);
    assert!(!c.lowercase_mode && !c.uppercase_mode);
}

#[test]
fn completer_adds_each_name_once_with_sort_key_and_snippet() {
    let mut c = BareCompleter::new("lo", true, false);
    c.add("loadUser", CompletionItemKind::Function, 0, "lo", "fun loadUser(id: Int)", None);
    c.add("loadUser", CompletionItemKind::Function, 1, "lo", "", None);
    c.add("Loader", CompletionItemKind::Class, 1, "lo", "", None);
    c.add("total", CompletionItemKind::Variable, 1, "lo", "", None);
    assert_eq!(labels(&c.items), vec!["loadUser"]);
    let e = &c.items[0];
    assert_eq!(e.sort_text.as_deref(), Some("00loaduser"));
    assert_eq!(e.insert_text.as_deref(), Some("loadUser($1)"));
    assert!(e.snippet_format && e.triggers_parameter_hints);
    assert_eq!(e.detail.as_deref(), Some("fun loadUser(id: Int)"));
    assert_eq!(e.filter_text.as_deref(), Some("loadUser"));
}

#[test]
fn completer_gates() {
    let mut c = BareCompleter::new("MyV", false, false);
    c.add("MY_VALUE", CompletionItemKind::Constant, 0, "MyV", "", None);
    c.add("myValue", CompletionItemKind::Variable, 0, "MyV", "", None);
    c.add("MyView", CompletionItemKind::Class, 1, "MyV", "", None);
    assert_eq!(labels(&c.items), vec!["MyView"]);
    assert_eq!(c.items[0].sort_text.as_deref(), Some("10myview"));
    assert_eq!(c.items[0].insert_text, None);

    let mut a = BareCompleter::new("Comp", true, true);
    a.add("compose", CompletionItemKind::Function, 0, "Comp", "", None);
    a.add("Composable", CompletionItemKind::Class, 0, "Comp", "", None);
    assert_eq!(labels(&a.items), vec!["Composable"]);
}

#[test]
fn completer_long_prefix_accepts_only_the_better_scores() {
    let mut c = BareCompleter::new("button", true, false);
    c.add("ColumnButton", CompletionItemKind::Class, 0, "button", "", None);
    assert!(c.items.is_empty());
    let mut d = BareCompleter::new("but", true, false);
    d.add("columnButton", CompletionItemKind::Property, 0, "but", "", None);
    assert_eq!(d.items[0].sort_text.as_deref(), Some("02columnbutton"));
}

fn entry(label: &str, sort: Option<&str>) -> CompletionEntry {
    CompletionEntry {
        label: label.to_owned(),
        kind: CompletionItemKind::Function,
        filter_text: None,
        sort_text: sort.map(|s| s.to_owned()),
        insert_text: Some(format!("{label}($1)")),
        snippet_format: true,
        detail: None,
        triggers_parameter_hints: true,
        deprecated: false,
        data: None,
        auto_import: None,
        label_description: None,
        resolve_fqn: None,
    }
}

#[test]
fn private_and_protected_items_are_filtered() {
    let mut items = vec![
        entry("a", Some("prv:a")),
        entry("b", Some("prt:b")),
        entry("c", Some("0c")),
        entry("d", None),
    ];
    filter_inaccessible_completion_items(&mut items);
    assert_eq!(labels(&items), vec!["c", "d"]);
}

#[test]
fn labels_are_deduplicated_keeping_the_first() {
    let mut items = vec![entry("a", Some("1")), entry("b", None), entry("a", Some("2"))];
    dedup_completion_labels(&mut items);
    assert_eq!(labels(&items), vec!["a", "b"]);
    assert_eq!(items[0].sort_text.as_deref(), Some("1"));
}

#[test]
fn snippets_are_stripped_without_snippet_support() {
    let mut items = vec![entry("a", None)];
    strip_completion_snippets(&mut items, true);
    assert!(items[0].snippet_format);
    strip_completion_snippets(&mut items, false);
    assert_eq!(items[0].insert_text, None);
    assert!(!items[0].snippet_format);
    assert!(items[0].triggers_parameter_hints);
}

#[test]
fn deprecated_items_sink_to_the_bottom() {
    let mut with_key = entry("a", Some("0a"));
    mark_deprecated(&mut with_key, true);
    assert!(with_key.deprecated);
    assert_eq!(with_key.sort_text.as_deref(), Some("99:0a"));
    let mut without_key = entry("b", None);
    mark_deprecated(&mut without_key, true);
    assert_eq!(without_key.sort_text.as_deref(), Some("99:b"));
    let mut live = entry("c", Some("0c"));
    mark_deprecated(&mut live, false);
    assert!(!live.deprecated);
    assert_eq!(live.sort_text.as_deref(), Some("0c"));
}

#[test]
fn kinds_and_ranks() {
    assert_eq!(symbol_kind_to_completion(SymbolKind::Method), CompletionItemKind::Function);
    assert_eq!(symbol_kind_to_completion(SymbolKind::Object), CompletionItemKind::Module);
    assert_eq!(symbol_kind_to_completion(SymbolKind::Property), CompletionItemKind::Value);
    assert_eq!(kind_sort_rank(Some(CompletionItemKind::Function)), 0);
    assert_eq!(kind_sort_rank(Some(CompletionItemKind::EnumMember)), 1);
    assert_eq!(kind_sort_rank(Some(CompletionItemKind::Value)), 2);
    assert_eq!(kind_sort_rank(None), 2);
    assert_eq!(kind_sort_rank(Some(CompletionItemKind::Module)), 3);
}

#[test]
fn plain_items() {
    let f = make_completion_item("run", CompletionItemKind::Function, "0run".into(), true);
    assert_eq!(f.insert_text.as_deref(), Some("run($1)"));
    assert!(f.snippet_format && f.triggers_parameter_hints);
    let g = make_completion_item("run", CompletionItemKind::Function, "0run".into(), false);
    assert_eq!(g.insert_text, None);
    let c = make_completion_item("Box", CompletionItemKind::Class, "3Box".into(), true);
    assert_eq!(c.insert_text, None);
    assert_eq!(c.sort_text.as_deref(), Some("3Box"));
}

fn sym(name: &str, kind: SymbolKind, visibility: Visibility) -> SymbolEntry {
    let p = Position { line: 0, character: 0 };
    let r = Range { start: p, end: p };
    SymbolEntry {
        name: name.to_owned(),
        kind,
        visibility,
        range: r,
        selection_range: r,
        detail: String::new(),
        params: String::new(),
        param_counts: (0, 0),
        container: None,
        cold: None,
        trailing_lambda: false,
        deprecated: false,
    }
}

#[test]
fn items_for_a_files_symbols_and_declared_names() {
    let file = FileData {
        symbols: vec![
            sym("load", SymbolKind::Function, Visibility::Public),
            sym("secret", SymbolKind::Variable, Visibility::Private),
            sym("Model", SymbolKind::Class, Visibility::Protected),
        ],
        imports: Vec::new(),
        package: None,
        lines: Vec::new(),
        declared_names: vec!["load".into(), "count".into(), "count".into(), "total".into()],
        source_set: SourceSet::Main,
        supers: Vec::new(),
    };
    let items = build_completion_items(&file);
    assert_eq!(labels(&items), vec!["load", "secret", "Model", "count", "total"]);
    let keys: Vec<Option<String>> = items.iter().map(|e| e.sort_text.clone()).collect();
    assert_eq!(
        keys,
        vec![
            Some("0load".to_string()),
            Some("prv:1secret".to_string()),
            Some("prt:3Model".to_string()),
            Some("1count".to_string()),
            Some("1total".to_string()),
        ]
    );
    assert_eq!(items[3].kind, CompletionItemKind::Field);
    assert_eq!(items[0].insert_text.as_deref(), Some("load($1)"));
}
