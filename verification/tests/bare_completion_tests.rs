use kt_resolver::bare_completion::{
    local_file_offers, same_package_offers, star_import_offers, CompletionOffer, PackageFiles,
};
use kt_resolver::completion::CurrentFileCompletionContext;
use kt_resolver::completion_items::{BareCompleter, CompletionEntry, CompletionItemKind};
use kt_resolver::cross_package::{cross_package_score, CrossPackageCandidate};
use kt_resolver::package_scope::PackageFile;
use kt_resolver::ranking::{finish_items, COMPLETION_CAP};
use kt_resolver::types::{
    FileData, ImportEntry, Position, Range, SourceSet, SymbolEntry, SymbolKind, Visibility,
};

fn symbol(name: &str, kind: SymbolKind, line: u32) -> SymbolEntry {
    let r = Range { start: Position { line, character: 4 }, end: Position { line, character: 9 } };
    SymbolEntry {
        name: name.to_owned(),
        kind,
        visibility: Visibility::Public,
        range: r,
        selection_range: r,
        detail: format!("detail of {name}"),
        params: String::new(),
        param_counts: (0, 0),
        container: None,
        cold: None,
        trailing_lambda: false,
        deprecated: false,
    }
}

fn file(symbols: Vec<SymbolEntry>, set: SourceSet) -> FileData {
    FileData {
        symbols,
        imports: Vec::new(),
        package: Some("com.app".into()),
        lines: Vec::new(),
        declared_names: vec!["count".into(), "total".into()],
        source_set: set,
        supers: Vec::new(),
    }
}

fn names(v: &[CompletionOffer]) -> Vec<String> {
    v.iter().map(|o| o.name.clone()).collect()
}

#[test]
fn local_offers_include_declared_names_for_a_lowercase_prefix() {
    let fd = file(vec![symbol("load", SymbolKind::Function, 3), symbol("Model", SymbolKind::Class, 7)], SourceSet::Main);
    let out = local_file_offers(Some(&fd), "file:///A.kt", true);
    assert_eq!(names(&out), vec!["load", "Model", "count", "total"]);
    assert_eq!(out[0].kind, CompletionItemKind::Function);
    assert_eq!(out[0].tier, 0);
    assert_eq!(out[0].detail, "detail of load");
    assert_eq!(out[0].position, Some(("file:///A.kt".to_string(), 3, 4)));
    assert_eq!(out[2].kind, CompletionItemKind::Variable);
    assert_eq!(out[2].position, None);
    assert_eq!(names(&local_file_offers(Some(&fd), "file:///A.kt", false)), vec!["load", "Model"]);
    assert!(local_file_offers(None, "file:///A.kt", true).is_empty());
}

#[test]
fn same_package_offers_skip_the_caller_and_foreign_tests() {
    let own = file(vec![symbol("mine", SymbolKind::Function, 0)], SourceSet::Main);
    let peer = file(vec![symbol("shared", SymbolKind::Function, 1), symbol("Shape", SymbolKind::Class, 2)], SourceSet::Main);
    let test = file(vec![symbol("fixture", SymbolKind::Function, 0)], SourceSet::Test);
    let files = vec![
        PackageFile { uri: "file:///A.kt", data: Some(&own) },
        PackageFile { uri: "file:///B.kt", data: Some(&peer) },
        PackageFile { uri: "file:///T.kt", data: Some(&test) },
        PackageFile { uri: "file:///C.kt", data: None },
    ];
    let out = same_package_offers(Some("com.app"), "file:///A.kt", Some(&files), SourceSet::Main);
    assert_eq!(names(&out), vec!["shared", "Shape"]);
    assert_eq!(out[0].tier, 1);
    assert_eq!(out[0].position, Some(("file:///B.kt".to_string(), 1, 4)));
    let from_test = same_package_offers(Some("com.app"), "file:///A.kt", Some(&files), SourceSet::Test);
    assert_eq!(names(&from_test), vec!["shared", "Shape", "fixture"]);
    assert!(same_package_offers(Some(""), "file:///A.kt", Some(&files), SourceSet::Main).is_empty());
    assert!(same_package_offers(None, "file:///A.kt", Some(&files), SourceSet::Main).is_empty());
}

#[test]
fn star_import_offers_are_functions_and_properties_only() {
    let flow = file(vec![symbol("flowOf", SymbolKind::Function, 0), symbol("Flow", SymbolKind::Interface, 1)], SourceSet::Main);
    let launch = file(vec![symbol("launch", SymbolKind::Function, 0), symbol("scope", SymbolKind::Property, 1)], SourceSet::Main);
    let index = vec![
        PackageFiles { package: "kotlinx.coroutines.flow".into(), files: vec![PackageFile { uri: "file:///F.kt", data: Some(&flow) }] },
        PackageFiles { package: "kotlinx.coroutines".into(), files: vec![PackageFile { uri: "file:///L.kt", data: Some(&launch) }] },
    ];
    let imports = vec![
        ImportEntry { full_path: "kotlinx.coroutines".into(), local_name: "*".into(), is_star: true },
        ImportEntry { full_path: "kotlinx.coroutines.flow.Flow".into(), local_name: "Flow".into(), is_star: false },
        ImportEntry { full_path: "kotlinx.coroutines.flow".into(), local_name: "*".into(), is_star: true },
        ImportEntry { full_path: "com.unknown".into(), local_name: "*".into(), is_star: true },
    ];
    let out = star_import_offers(false, true, &imports, &index, "file:///Main.kt", SourceSet::Main);
    assert_eq!(names(&out), vec!["launch", "scope", "flowOf"]);
    assert!(star_import_offers(true, true, &imports, &index, "file:///Main.kt", SourceSet::Main).is_empty());
    assert!(star_import_offers(false, false, &imports, &index, "file:///Main.kt", SourceSet::Main).is_empty());
}

fn ctx() -> CurrentFileCompletionContext {
    CurrentFileCompletionContext {
        imports: vec![ImportEntry { full_path: "androidx.compose.ui.Modifier".into(), local_name: "Modifier".into(), is_star: false }],
        package_name: "com.app".into(),
        lines: Vec::new(),
        needs_semicolons: false,
    }
}

#[test]
fn cross_package_scores() {
    assert_eq!(cross_package_score("Modifier", "M"), Some(0));
    assert_eq!(cross_package_score("MutableState", "M"), Some(0));
    assert_eq!(cross_package_score("Modifier", "Mo"), Some(0));
    assert_eq!(cross_package_score("Column", "M"), None);
}

#[test]
fn cross_package_names_give_one_item_per_fully_qualified_name() {
    let mut c = BareCompleter::new("Mod", true, false);
    let cands = vec![
        CrossPackageCandidate { fqn: "androidx.compose.ui.Modifier".into(), symbol: None },
        CrossPackageCandidate { fqn: "com.lib.Modifier".into(), symbol: Some((Some("class Modifier".into()), None)) },
        CrossPackageCandidate { fqn: "com.lib.Modifier".into(), symbol: None },
    ];
    c.add_cross_package_name("Modifier", "Mod", cands, &ctx(), false);
    assert_eq!(c.items.len(), 2);
    assert_eq!(c.seen, vec!["Modifier:androidx.compose.ui.Modifier", "Modifier:com.lib.Modifier"]);
    let a = &c.items[0];
    assert_eq!(a.label, "Modifier");
    assert_eq!(a.kind, CompletionItemKind::Class);
    assert_eq!(a.sort_text.as_deref(), Some("20:modifier"));
    assert_eq!(a.auto_import, None);
    assert_eq!(a.detail, None);
    assert_eq!(a.resolve_fqn.as_deref(), Some("androidx.compose.ui.Modifier"));
    let b = &c.items[1];
    assert_eq!(b.auto_import.as_deref(), Some("com.lib.Modifier"));
    assert_eq!(b.detail.as_deref(), Some("package com.lib\nclass Modifier"));
    assert_eq!(b.resolve_fqn, None);
    assert_eq!(b.label_description, None);

    let mut d = BareCompleter::new("Mod", true, false);
    let cands = vec![CrossPackageCandidate { fqn: "com.lib.Modifier".into(), symbol: Some((Some("class Modifier".into()), None)) }];
    d.add_cross_package_name("Modifier", "Mod", cands, &ctx(), true);
    assert_eq!(d.items[0].detail.as_deref(), Some("class Modifier"));
    assert_eq!(d.items[0].label_description.as_deref(), Some("com.lib"));
}

#[test]
fn cross_package_names_are_gated() {
    let mut c = BareCompleter::new("Mo", true, false);
    c.add("Modifier", CompletionItemKind::Class, 0, "Mo", "", None);
    c.add_cross_package_name("Modifier", "Mo", vec![], &ctx(), false);
    c.add_cross_package_name("modify", "Mo", vec![], &ctx(), false);
    c.add_cross_package_name("MOTION", "Mo", vec![], &ctx(), false);
    c.add_cross_package_name("Motion", "Mo", vec![], &ctx(), false);
    let labels: Vec<String> = c.items.iter().map(|e| e.label.clone()).collect();
    assert_eq!(labels, vec!["Modifier", "Motion"]);
    assert_eq!(c.items[1].sort_text.as_deref(), Some("20:motion"));
    assert_eq!(c.items[1].filter_text.as_deref(), Some("Motion"));
}

fn sorted_entry(label: &str, sort: Option<&str>) -> CompletionEntry {
    CompletionEntry {
        label: label.into(),
        kind: CompletionItemKind::Text,
        filter_text: None,
        sort_text: sort.map(|s| s.into()),
        insert_text: None,
        snippet_format: false,
        detail: None,
        triggers_parameter_hints: false,
        deprecated: false,
        data: None,
        auto_import: None,
        label_description: None,
        resolve_fqn: None,
    }
}

#[test]
fn finished_lists_are_stably_sorted_and_capped() {
    let items = vec![
        sorted_entry("c", Some("10c")),
        sorted_entry("a", Some("00a")),
        sorted_entry("n", None),
        sorted_entry("b1", Some("10b")),
        sorted_entry("b2", Some("10b")),
        sorted_entry("a2", Some("00")),
    ];
    let (out, hit) = finish_items(items);
    assert!(!hit);
    let labels: Vec<String> = out.iter().map(|e| e.label.clone()).collect();
    assert_eq!(labels, vec!["n", "a2", "a", "b1", "b2", "c"]);

    let many: Vec<CompletionEntry> = (0..COMPLETION_CAP + 3).rev().map(|k| sorted_entry(&k.to_string(), Some(&format!("{k:04}")))).collect();
    let (out, hit) = finish_items(many);
    assert!(hit);
    assert_eq!(out.len(), COMPLETION_CAP);
    assert_eq!(out[0].label, "0");
    assert_eq!(out[COMPLETION_CAP - 1].label, (COMPLETION_CAP - 1).to_string());
}

#[test]
fn inherited_members_are_added_once_when_they_match() {
    let mut c = BareCompleter::new("req", false, false);
    c.add_inherited_member(sorted_entry("requireActivity", None), "req");
    c.add_inherited_member(sorted_entry("requireActivity", None), "req");
    c.add_inherited_member(sorted_entry("onCreate", None), "req");
    let labels: Vec<&str> = c.items.iter().map(|i| i.label.as_str()).collect();
    assert_eq!(labels, vec!["requireActivity"]);
    assert_eq!(c.seen, vec!["requireActivity".to_string()]);
    let mut annotations = BareCompleter::new("req", false, true);
    annotations.add_inherited_member(sorted_entry("requireActivity", None), "req");
    assert!(annotations.items.is_empty());
}

fn position_data(uri: &String, line: u32, col: u32) -> serde_json::Value {
    serde_json::Value::String(format!("{uri}@{line}:{col}"))
}

#[test]
fn offers_enter_the_completer_in_order_each_name_once_with_their_position_data() {
    let fd = file(
        vec![
            symbol("load", SymbolKind::Function, 3),
            symbol("Model", SymbolKind::Class, 7),
            symbol("lookup", SymbolKind::Variable, 9),
            symbol("load", SymbolKind::Function, 12),
        ],
        SourceSet::Main,
    );
    let mut offers = local_file_offers(Some(&fd), "file:///A.kt", true);
    offers.push(CompletionOffer {
        name: "loader".into(),
        kind: CompletionItemKind::Variable,
        tier: 1,
        detail: String::new(),
        position: None,
    });
    let mut completer = BareCompleter::new("lo", false, false);
    completer.add_offers(&offers, "lo", position_data);
    let labels: Vec<String> = completer.items.iter().map(|i| i.label.clone()).collect();
    assert_eq!(labels, vec!["load", "lookup", "loader"]);
    assert_eq!(completer.seen, vec!["load".to_string(), "lookup".to_string(), "loader".to_string()]);
    assert_eq!(completer.items[0].data, Some(serde_json::Value::String("file:///A.kt@3:4".into())));
    assert_eq!(completer.items[0].detail.as_deref(), Some("detail of load"));
    assert_eq!(completer.items[2].data, None);
    assert_eq!(completer.items[2].sort_text.as_deref(), Some("10loader"));

    // Annotation names only: members never enter.
    let mut annotations = BareCompleter::new("lo", false, true);
    annotations.add_offers(&offers, "lo", position_data);
    assert!(annotations.items.is_empty());
}
