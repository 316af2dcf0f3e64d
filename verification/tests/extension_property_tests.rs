use kt_resolver::extensions::ExtensionEntry;
use kt_resolver::infer::{class_starting_points, find_extension_property_type};
use kt_resolver::types::{FileData, Position, Range, SourceSet, SymbolEntry, SymbolKind, Visibility};

fn symbol(name: &str, kind: SymbolKind) -> SymbolEntry {
    let r = Range { start: Position { line: 0, character: 0 }, end: Position { line: 0, character: 1 } };
    SymbolEntry {
        name: name.into(),
        kind,
        visibility: Visibility::Public,
        range: r,
        selection_range: r,
        detail: String::new(),
        params: String::new(),
        param_counts: (0, 0),
        container: None,
        cold: None,
        trailing_lambda: false,
        deprecated: false,
    }
}

fn ext(name: &str, kind: SymbolKind, visibility: Visibility, detail: &str) -> ExtensionEntry {
    ExtensionEntry {
        file_uri: "file:///lib/Ext.kt".into(),
        name: name.into(),
        kind,
        detail: detail.into(),
        visibility,
        package: Some("androidx.lifecycle".into()),
        container: None,
        trailing_lambda: false,
        deprecated: false,
    }
}

#[test]
fn starting_points_are_the_files_type_declarations() {
    let file = FileData {
        symbols: vec![
            symbol("HomeViewModel", SymbolKind::Class),
            symbol("load", SymbolKind::Function),
            symbol("Companion", SymbolKind::Object),
            symbol("Listener", SymbolKind::Interface),
            symbol("Mode", SymbolKind::Enum),
            symbol("Point", SymbolKind::Struct),
        ],
        imports: Vec::new(),
        package: None,
        lines: Vec::new(),
        declared_names: Vec::new(),
        source_set: SourceSet::Main,
        supers: Vec::new(),
    };
    assert_eq!(class_starting_points(&file), vec!["HomeViewModel", "Companion", "Listener", "Point"]);
}

#[test]
fn extension_property_type_comes_from_the_first_visible_property() {
    let groups = vec![
        vec![
            ext("viewModelScope", SymbolKind::Function, Visibility::Public, "fun ViewModel.viewModelScope(): Job"),
            ext("viewModelScope", SymbolKind::Property, Visibility::Private, "val ViewModel.viewModelScope: Secret"),
        ],
        vec![ext(
            "viewModelScope",
            SymbolKind::Property,
            Visibility::Public,
            "val ViewModel.viewModelScope: CoroutineScope",
        )],
        vec![ext("viewModelScope", SymbolKind::Property, Visibility::Public, "val Other.viewModelScope: Later")],
    ];
    assert_eq!(find_extension_property_type(&groups, "viewModelScope").as_deref(), Some("CoroutineScope"));
    assert_eq!(find_extension_property_type(&groups, "missing"), None);
    assert_eq!(find_extension_property_type(&Vec::new(), "viewModelScope"), None);
}

#[test]
fn a_property_whose_detail_declares_no_type_is_passed_over() {
    let groups = vec![vec![
        ext("count", SymbolKind::Variable, Visibility::Internal, "count"),
        ext("count", SymbolKind::Variable, Visibility::Internal, "var Counter.count: Int"),
    ]];
    assert_eq!(find_extension_property_type(&groups, "count").as_deref(), Some("Int"));
}
