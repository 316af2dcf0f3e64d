use kt_resolver::completion_items::BareCompleter;
use kt_resolver::extensions::{
    receiver_position, this_receivers, ExtensionContext, ExtensionEntry, ReceiverExtensions,
};
use kt_resolver::hierarchy::{SupertypeEdges, SupertypeGraph, TypeRef};
use kt_resolver::infer::{file_extension_property_type, file_receivers};
use kt_resolver::types::{FileData, Position, Range, SourceSet, SymbolEntry, SymbolKind, Visibility};

fn t(name: &str, uri: &str) -> TypeRef {
    TypeRef { name: name.to_owned(), uri: uri.to_owned() }
}

fn edges(class: (&str, &str), supers: &[(&str, &str)]) -> SupertypeEdges {
    SupertypeEdges { class: t(class.0, class.1), supers: supers.iter().map(|(n, u)| t(n, u)).collect() }
}

/// `HomeVm : BaseVm, Scoped`, `BaseVm : ViewModel` (one archive),
/// `Scoped : ViewModel` (another archive).
fn graph() -> SupertypeGraph {
    SupertypeGraph {
        nodes: vec![
            edges(("HomeVm", "file:///app/Home.kt"), &[("BaseVm", "file:///app/Base.kt"), ("Scoped", "file:///app/Scoped.kt")]),
            edges(("BaseVm", "file:///app/Base.kt"), &[("ViewModel", "jar:file:///a.jar!/VM.kt")]),
            edges(("Scoped", "file:///app/Scoped.kt"), &[("ViewModel", "jar:file:///b.jar!/VM.kt")]),
        ],
    }
}

fn ext(name: &str, kind: SymbolKind, uri: &str, detail: &str) -> ExtensionEntry {
    ExtensionEntry {
        file_uri: uri.into(),
        name: name.into(),
        kind,
        detail: detail.into(),
        visibility: Visibility::Public,
        package: Some("com.app".into()),
        container: None,
        trailing_lambda: false,
        deprecated: false,
    }
}

fn ctx() -> ExtensionContext {
    ExtensionContext { from_uri: "file:///app/Home.kt".into(), imports: Vec::new(), package_name: "com.app".into() }
}

fn symbol(name: &str, kind: SymbolKind) -> SymbolEntry {
    let r = Range { start: Position { line: 0, character: 0 }, end: Position { line: 0, character: 1 } };
    SymbolEntry {
        name: name.into(),
        kind,
        visibility: Visibility::Public,
        range: r,
        selection_range: r,
        detail: String::new(),
        params: String::new(),
        param_counts: (0, 0),
        container: None,
        cold: None,
        trailing_lambda: false,
        deprecated: false,
    }
}

fn file(symbols: Vec<SymbolEntry>) -> FileData {
    FileData {
        symbols,
        imports: Vec::new(),
        package: Some("com.app".into()),
        lines: Vec::new(),
        declared_names: Vec::new(),
        source_set: SourceSet::Main,
        supers: Vec::new(),
    }
}

#[test]
fn this_receivers_are_the_class_then_each_ancestor_name_once() {
    assert_eq!(this_receivers(&graph(), "HomeVm", "file:///app/Home.kt"), vec!["HomeVm", "BaseVm", "ViewModel", "Scoped"]);
    assert_eq!(this_receivers(&graph(), "Lonely", "file:///app/L.kt"), vec!["Lonely"]);
}

#[test]
fn receiver_position_finds_the_first_entry_of_a_receiver() {
    let index = vec![
        ReceiverExtensions { receiver: "ViewModel".into(), entries: Vec::new() },
        ReceiverExtensions { receiver: "BaseVm".into(), entries: Vec::new() },
        ReceiverExtensions { receiver: "ViewModel".into(), entries: Vec::new() },
    ];
    assert_eq!(receiver_position(&index, "ViewModel"), Some(0));
    assert_eq!(receiver_position(&index, "BaseVm"), Some(1));
    assert_eq!(receiver_position(&index, "Scoped"), None);
}

#[test]
fn this_extensions_come_receiver_after_receiver_each_name_once() {
    let index = vec![
        ReceiverExtensions {
            receiver: "ViewModel".into(),
            entries: vec![ext("viewModelScope", SymbolKind::Property, "file:///lib/VM.kt", "val ViewModel.viewModelScope: CoroutineScope")],
        },
        ReceiverExtensions {
            receiver: "BaseVm".into(),
            entries: vec![
                ext("viewState", SymbolKind::Property, "file:///app/State.kt", "val BaseVm.viewState: State"),
                ext("viewModelScope", SymbolKind::Property, "file:///app/Scope.kt", "val BaseVm.viewModelScope: AppScope"),
            ],
        },
    ];
    let mut completer = BareCompleter::new("view", false, false);
    completer.collect_this_extensions(&ctx(), &graph(), "HomeVm", "file:///app/Home.kt", &index, &Vec::new(), "view");
    let labels: Vec<String> = completer.items.iter().map(|i| i.label.clone()).collect();
    assert_eq!(labels, vec!["viewState", "viewModelScope"]);
    assert_eq!(completer.items[1].detail.as_deref(), Some("val BaseVm.viewModelScope: AppScope"));
    assert_eq!(completer.seen, vec!["viewState".to_string(), "viewModelScope".to_string()]);

    let mut annotations = BareCompleter::new("view", false, true);
    annotations.collect_this_extensions(&ctx(), &graph(), "HomeVm", "file:///app/Home.kt", &index, &Vec::new(), "view");
    assert!(annotations.items.is_empty());
}

#[test]
fn file_receivers_are_each_class_with_its_ancestors_each_name_once() {
    let f = file(vec![
        symbol("HomeVm", SymbolKind::Class),
        symbol("load", SymbolKind::Function),
        symbol("Scoped", SymbolKind::Interface),
    ]);
    assert_eq!(file_receivers(&graph(), &f, "file:///app/Home.kt"), vec!["HomeVm", "BaseVm", "ViewModel", "Scoped"]);
    assert!(file_receivers(&graph(), &file(Vec::new()), "file:///app/Home.kt").is_empty());
}

#[test]
fn file_extension_property_type_reads_the_first_receiver_that_registers_it() {
    let index = vec![
        ReceiverExtensions {
            receiver: "ViewModel".into(),
            entries: vec![ext("viewModelScope", SymbolKind::Property, "file:///lib/VM.kt", "val ViewModel.viewModelScope: CoroutineScope")],
        },
        ReceiverExtensions {
            receiver: "Scoped".into(),
            entries: vec![ext("viewModelScope", SymbolKind::Property, "file:///app/S.kt", "val Scoped.viewModelScope: Later")],
        },
    ];
    let f = file(vec![symbol("HomeVm", SymbolKind::Class)]);
    let uri = "file:///app/Home.kt";
    assert_eq!(file_extension_property_type(&graph(), &f, uri, &index, "viewModelScope").as_deref(), Some("CoroutineScope"));
    assert_eq!(file_extension_property_type(&graph(), &f, uri, &index, "missing"), None);
    assert_eq!(file_extension_property_type(&graph(), &file(Vec::new()), uri, &index, "viewModelScope"), None);
}
