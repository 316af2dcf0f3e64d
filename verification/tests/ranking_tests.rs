use kt_resolver::completion_items::{CompletionEntry, CompletionItemKind};
use kt_resolver::ranking::{finish_dot_items, finish_super_items, sort_items, SortBy};

fn item(label: &str, kind: CompletionItemKind, sort: Option<&str>) -> CompletionEntry {
    CompletionEntry {
        label: label.into(),
        kind,
        filter_text: None,
        sort_text: sort.map(|s| s.into()),
        insert_text: Some(format!("{label}($1)")),
        snippet_format: true,
        detail: None,
        triggers_parameter_hints: false,
        deprecated: false,
        data: None,
        auto_import: None,
        label_description: None,
        resolve_fqn: None,
    }
}

fn labels(v: &[CompletionEntry]) -> Vec<String> {
    v.iter().map(|e| e.label.clone()).collect()
}

#[test]
fn dot_items_are_deduplicated_then_ordered_by_kind() {
    let items = vec![
        item("Nested", CompletionItemKind::Class, None),
        item("size", CompletionItemKind::Field, None),
        item("load", CompletionItemKind::Method, None),
        item("size", CompletionItemKind::Method, None),
        item("other", CompletionItemKind::Value, None),
        item("get", CompletionItemKind::Function, None),
    ];
    let out = finish_dot_items(items, false);
    assert_eq!(labels(&out), vec!["load", "get", "size", "other", "Nested"]);
    assert!(out.iter().all(|e| e.insert_text.is_none() && !e.snippet_format));
    let kept = finish_dot_items(vec![item("load", CompletionItemKind::Method, None)], true);
    assert_eq!(kept[0].insert_text.as_deref(), Some("load($1)"));
}

#[test]
fn super_items_are_accessible_sorted_by_kind_then_label_and_collapsed() {
    let items = vec![
        item("onStop", CompletionItemKind::Method, Some("00onStop")),
        item("secret", CompletionItemKind::Method, Some("prv:0secret")),
        item("guarded", CompletionItemKind::Method, Some("prt:0guarded")),
        item("onCreate", CompletionItemKind::Method, Some("00onCreate")),
        item("state", CompletionItemKind::Field, Some("10state")),
        item("onCreate", CompletionItemKind::Method, Some("00onCreate2")),
    ];
    let out = finish_super_items(items, true);
    assert_eq!(labels(&out), vec!["onCreate", "onStop", "state"]);
    assert_eq!(out[0].sort_text.as_deref(), Some("00onCreate"));
}

#[test]
fn sorting_by_sort_text_puts_missing_keys_first_and_is_stable() {
    let items = vec![
        item("b", CompletionItemKind::Text, Some("1")),
        item("a", CompletionItemKind::Text, Some("1")),
        item("n", CompletionItemKind::Text, None),
        item("z", CompletionItemKind::Text, Some("0z")),
    ];
    assert_eq!(labels(&sort_items(items, SortBy::SortText)), vec!["n", "z", "b", "a"]);
}
