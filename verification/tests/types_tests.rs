use kt_resolver::interning::JarTable;
use kt_resolver::types::{
    is_declared_in, pack_cold_fields, range_encloses, FileData, ImportEntry, Language, Position,
    Range, SourceSet, SymbolEntry, SymbolKind, Visibility,
};

#[test]
fn covers_direct_import() {
    let import = ImportEntry {
        full_path: "com.example.Config".to_owned(),
        local_name: "Config".to_owned(),
        is_star: false,
    };

    assert!(import.covers("com.example", "Config"));
}

#[test]
fn covers_nested_import() {
    let import = ImportEntry {
        full_path: "com.example.Outer.Config".to_owned(),
        local_name: "Config".to_owned(),
        is_star: false,
    };

    assert!(import.covers("com.example", "Config"));
}

#[test]
fn covers_deeply_nested_import() {
    let import = ImportEntry {
        full_path: "com.example.Outer.Inner.Config".to_owned(),
        local_name: "Config".to_owned(),
        is_star: false,
    };

    assert!(import.covers("com.example", "Config"));
}

#[test]
fn covers_star_import_for_package_members() {
    let import = ImportEntry {
        full_path: "com.example".to_owned(),
        local_name: "*".to_owned(),
        is_star: true,
    };

    assert!(import.covers("com.example", "Config"));
}

#[test]
fn does_not_cover_other_package() {
    let import = ImportEntry {
        full_path: "com.other.Outer.Config".to_owned(),
        local_name: "Config".to_owned(),
        is_star: false,
    };

    assert!(!import.covers("com.example", "Config"));
}

#[test]
fn jar_table_intern_is_idempotent() {
    let mut table = JarTable::new();
    let id_a = table.intern("/gradle/caches/foo-1.0.jar");
    let id_b = table.intern("/gradle/caches/foo-1.0.jar");
    assert_eq!(
        id_a, id_b,
        "interning the same path twice must return the same JarId"
    );
    let id_c = table.intern("/gradle/caches/bar-2.0.jar");
    assert_ne!(id_a, id_c, "different paths must get different JarIds");
    assert_eq!(
        table.path(id_a).as_deref(),
        Some("/gradle/caches/foo-1.0.jar")
    );
}

// ─── further cases ──────────────────────────────────────────────────────────

#[test]
fn covers_rejects_alias_and_wrong_star_package() {
    let aliased = ImportEntry {
        full_path: "com.example.Config".to_owned(),
        local_name: "Cfg".to_owned(),
        is_star: false,
    };
    assert!(!aliased.covers("com.example", "Config"));
    let star = ImportEntry {
        full_path: "com.example.sub".to_owned(),
        local_name: "*".to_owned(),
        is_star: true,
    };
    assert!(!star.covers("com.example", "Config"));
    let glued = ImportEntry {
        full_path: "com.exampleX.Config".to_owned(),
        local_name: "Config".to_owned(),
        is_star: false,
    };
    assert!(!glued.covers("com.example", "Config"));
}

#[test]
fn jar_ids_are_dense_and_unknown_ids_have_no_path() {
    let mut table = JarTable::new();
    let a = table.intern("/a.jar");
    let b = table.intern("/b.jar");
    assert_eq!(a.0, 0);
    assert_eq!(b.0, 1);
    assert_eq!(table.path(b).as_deref(), Some("/b.jar"));
    assert_eq!(table.path(kt_resolver::interning::JarId(7)), None);
}

#[test]
fn language_from_path_and_ids() {
    assert_eq!(Language::from_path("/src/Main.java"), Language::Java);
    assert_eq!(Language::from_path("/src/View.swift"), Language::Swift);
    assert_eq!(Language::from_path("/src/App.kt"), Language::Kotlin);
    assert_eq!(Language::from_path("/build.gradle.kts"), Language::Kotlin);
    assert_eq!(Language::from_path("/README"), Language::Kotlin);
    assert_eq!(Language::Kotlin.language_id(), "kotlin");
    assert_eq!(Language::Java.code_fence(), "java");
    assert_eq!(Language::Swift.language_id(), "swift");
    assert!(Language::Java.needs_semicolons());
    assert!(!Language::Kotlin.needs_semicolons());
    assert_eq!(Language::Swift.val_keyword(), "let");
    assert_eq!(Language::Java.val_keyword(), "val");
}

#[test]
fn override_detection_per_language() {
    let kt = "    override fun onCreate(state: Bundle?) {";
    assert!(Language::Kotlin.is_override_declaration(kt, "onCreate"));
    assert!(!Language::Kotlin.is_override_declaration("    fun onCreate() {", "onCreate"));
    assert!(Language::Java.is_override_declaration("    fun onCreate() {", "onCreate"));
    assert!(!Language::Swift.is_override_declaration(kt, "onCreate"));
    assert!(Language::Kotlin.detail_is_override("override fun onCreate()"));
    assert!(!Language::Kotlin.detail_is_override("fun onCreate()"));
    assert!(Language::Java.detail_is_override("void onCreate()"));
    assert!(!Language::Swift.detail_is_override("override func x()"));
}

fn pos(line: u32, character: u32) -> Position {
    Position { line, character }
}

fn range(a: u32, b: u32) -> Range {
    Range { start: pos(a, 0), end: pos(b, 0) }
}

fn symbol(name: &str, kind: SymbolKind, r: Range) -> SymbolEntry {
    SymbolEntry {
        name: name.to_owned(),
        kind,
        visibility: Visibility::Public,
        range: r,
        selection_range: r,
        detail: String::new(),
        params: String::new(),
        param_counts: (0, 0),
        container: None,
        cold: None,
        trailing_lambda: false,
        deprecated: false,
    }
}

#[test]
fn pack_cold_fields_skips_the_box_when_all_empty() {
    assert!(pack_cold_fields(Vec::new(), String::new(), String::new(), String::new()).is_none());
    let packed = pack_cold_fields(vec!["T".into()], String::new(), String::new(), String::new())
        .expect("non-empty type params need the box");
    assert_eq!(packed.type_params, vec!["T".to_string()]);
    let mut s = symbol("Box", SymbolKind::Class, range(0, 1));
    assert!(s.type_params().is_empty());
    assert_eq!(s.doc(), "");
    s.cold = pack_cold_fields(Vec::new(), "List".into(), "List<T>".into(), "Docs".into());
    assert_eq!(s.extension_receiver(), "List");
    assert_eq!(s.extension_receiver_type(), "List<T>");
    assert_eq!(s.doc(), "Docs");
}

#[test]
fn arity_applies_to_callables_without_varargs() {
    let mut f = symbol("f", SymbolKind::Function, range(0, 0));
    f.param_counts = (1, 2);
    f.params = "a: Int, b: Int = 0".into();
    assert_eq!(f.arity_for_call_shape_check(), Some((1, 2)));
    f.params = "vararg xs: Int".into();
    assert_eq!(f.arity_for_call_shape_check(), None);
    let p = symbol("p", SymbolKind::Property, range(0, 0));
    assert_eq!(p.arity_for_call_shape_check(), None);
}

#[test]
fn companion_object_needs_adjacent_tokens() {
    let mut o = symbol("Companion", SymbolKind::Object, range(0, 0));
    o.detail = "private companion object Factory".into();
    assert!(o.is_companion_object());
    o.detail = "private /* companion */ object Registry".into();
    assert!(!o.is_companion_object());
    o.detail = "companion\tobject".into();
    assert!(o.is_companion_object());
    let mut c = symbol("Companion", SymbolKind::Class, range(0, 0));
    c.detail = "companion object".into();
    assert!(!c.is_companion_object());
}

#[test]
fn containing_class_is_the_innermost_enclosing_class() {
    let file = FileData {
        symbols: vec![
            symbol("Outer", SymbolKind::Class, range(0, 20)),
            symbol("helper", SymbolKind::Function, range(2, 3)),
            symbol("Inner", SymbolKind::Interface, range(5, 10)),
            symbol("Twin", SymbolKind::Object, range(5, 10)),
        ],
        imports: Vec::new(),
        package: None,
        lines: Vec::new(),
        declared_names: Vec::new(),
        source_set: SourceSet::Main,
        supers: Vec::new(),
    };
    assert_eq!(file.containing_class_at(7).as_deref(), Some("Inner"));
    assert_eq!(file.containing_class_at(2).as_deref(), Some("Outer"));
    assert_eq!(file.containing_class_at(30), None);
    assert_eq!(file.symbols[0].selection_start(), 0);
}

#[test]
fn range_encloses_compares_positions_lexicographically() {
    let outer = Range { start: pos(1, 4), end: pos(5, 2) };
    assert!(range_encloses(outer, Range { start: pos(1, 4), end: pos(5, 2) }));
    assert!(range_encloses(outer, Range { start: pos(2, 0), end: pos(3, 9) }));
    assert!(!range_encloses(outer, Range { start: pos(1, 3), end: pos(2, 0) }));
    assert!(!range_encloses(outer, Range { start: pos(2, 0), end: pos(5, 3) }));
}

#[test]
fn declared_in_needs_container_name_and_enclosing_range() {
    let parent = symbol("Config", SymbolKind::Class, range(10, 20));
    let mut member = symbol("timeout", SymbolKind::Property, range(12, 12));
    member.container = Some("Config".into());
    assert!(is_declared_in(&member, &parent));
    let other = symbol("Config", SymbolKind::Class, range(30, 40));
    assert!(!is_declared_in(&member, &other));
    member.container = None;
    assert!(!is_declared_in(&member, &parent));
}
