use kt_resolver::imports::{
    has_explicit_import, import_container_chain, import_package_gate, import_package_prefix, is_default_import_package,
    is_default_import_type, narrow_import_candidates, package_dir_in_source_roots,
    resolvable_via_default_import, resolve_via_imports, ImportCandidate, PackageDirCheck,
};
use kt_resolver::types::{FileData, ImportEntry, Location, Position, Range, SourceSet};
use kt_resolver::platform::{builtin_type_platform_target, is_stdlib};

#[test]
fn container_chain_of_nested_import() {
    assert_eq!(
        import_container_chain("com.app.Contract.State.Idle", "Idle"),
        vec!["Contract".to_string(), "State".to_string()]
    );
    assert!(import_container_chain("com.app.Widget", "Widget").is_empty());
    assert_eq!(import_container_chain("com.app.Outer", "Other"), vec!["Outer".to_string()]);
}

#[test]
fn package_prefix_of_import_paths() {
    assert_eq!(import_package_prefix("a.b.Name"), "a.b");
    assert_eq!(import_package_prefix("com.app.Contract.Event"), "com.app");
    assert_eq!(import_package_prefix("com.foo.bar"), "com.foo");
    assert_eq!(import_package_prefix("Single"), "");
}

#[test]
fn default_imports() {
    assert!(is_default_import_package("kotlin.collections"));
    assert!(is_default_import_package("java.lang"));
    assert!(!is_default_import_package("java.util"));
    assert!(is_default_import_type("ByteArray"));
    assert!(is_default_import_type("Sequence"));
    assert!(!is_default_import_type("Flow"));
}

#[test]
fn default_import_resolution() {
    assert!(resolvable_via_default_import("Result", &Vec::new()));
    assert!(resolvable_via_default_import(
        "apply",
        &vec![None, Some("kotlin".to_string())]
    ));
    assert!(!resolvable_via_default_import(
        "launch",
        &vec![Some("kotlinx.coroutines".to_string()), None]
    ));
}

#[test]
fn package_dir_probe_plans() {
    assert!(matches!(
        package_dir_in_source_roots("Single", Some("/ws"), &Vec::new()),
        PackageDirCheck::Allow
    ));
    assert!(matches!(
        package_dir_in_source_roots("android.os.Bundle", None, &Vec::new()),
        PackageDirCheck::Allow
    ));
    match package_dir_in_source_roots("android.os.Bundle", Some("/ws"), &Vec::new()) {
        PackageDirCheck::Probe { roots, pkg_dir } => {
            assert_eq!(roots, vec!["/ws".to_string()]);
            assert_eq!(pkg_dir, "android/os");
        }
        PackageDirCheck::Allow => panic!("expected a probe"),
    }
    let source_roots = vec!["/ws/app/src/main/kotlin".to_string(), "/ws/lib/src".to_string()];
    match package_dir_in_source_roots("com.app.Contract.Event", Some("/ws"), &source_roots) {
        PackageDirCheck::Probe { roots, pkg_dir } => {
            assert_eq!(roots, source_roots);
            assert_eq!(pkg_dir, "com/app");
        }
        PackageDirCheck::Allow => panic!("expected a probe"),
    }
}

#[test]
fn stdlib_packages() {
    assert!(is_stdlib("kotlin.collections"));
    assert!(is_stdlib("androidx.compose.ui"));
    assert!(is_stdlib("com.sun.net"));
    assert!(is_stdlib("UIKit"));
    assert!(!is_stdlib("com.example"));
    assert!(!is_stdlib("kotlinx.coroutines"));
}

#[test]
fn builtin_platform_targets() {
    let t = builtin_type_platform_target("MutableList").expect("mapped type");
    assert_eq!(t.fqn, "java.util.List");
    assert_eq!(t.simple_name, "List");
    assert_eq!(t.relative_path, "java/util/List.java");
    let c = builtin_type_platform_target("Char").expect("mapped type");
    assert_eq!(c.simple_name, "Character");
    assert!(builtin_type_platform_target("Flow").is_none());
}

fn import(full_path: &str, local_name: &str, is_star: bool) -> ImportEntry {
    ImportEntry { full_path: full_path.into(), local_name: local_name.into(), is_star }
}

fn with_imports(imports: Vec<ImportEntry>) -> FileData {
    FileData { symbols: Vec::new(), imports, package: None, lines: Vec::new(), declared_names: Vec::new(), source_set: SourceSet::Main, supers: Vec::new() }
}

#[test]
fn explicit_import_by_name_or_alias() {
    let fd = with_imports(vec![
        import("com.example.Foo", "Foo", false),
        import("com.example.Bar", "B", false),
        import("com.other", "*", true),
    ]);
    assert!(has_explicit_import(Some(&fd), "Foo"));
    assert!(has_explicit_import(Some(&fd), "B"));
    assert!(!has_explicit_import(Some(&fd), "Bar"));
    assert!(!has_explicit_import(Some(&fd), "*"));
    assert!(!has_explicit_import(None, "Foo"));
}

fn candidate(uri: &str, package: Option<&str>, chain: &[&str]) -> ImportCandidate {
    ImportCandidate {
        location: Location {
            uri: uri.into(),
            range: Range { start: Position { line: 0, character: 0 }, end: Position { line: 0, character: 1 } },
        },
        package: package.map(|p| p.to_string()),
        container_chain: chain.iter().map(|s| s.to_string()).collect(),
    }
}

fn uris(v: &[Location]) -> Vec<String> {
    v.iter().map(|l| l.uri.clone()).collect()
}

#[test]
fn import_candidates_are_narrowed_to_the_imported_package() {
    let cands = vec![
        candidate("file:///compose/remember.kt", Some("androidx.compose.runtime"), &[]),
        candidate("file:///kotlinc/remember.kt", Some("org.jetbrains.kotlin"), &[]),
        candidate("file:///sub/remember.kt", Some("androidx.compose.runtime.internal"), &[]),
        candidate("file:///unknown/remember.kt", None, &[]),
        candidate("file:///prefix/remember.kt", Some("androidx.compose.runtimex"), &[]),
    ];
    let out = narrow_import_candidates("androidx.compose.runtime.remember", &cands);
    assert_eq!(
        uris(&out),
        vec!["file:///compose/remember.kt", "file:///sub/remember.kt", "file:///unknown/remember.kt"]
    );
}

#[test]
fn nested_import_prefers_the_named_enclosing_chain() {
    let cands = vec![
        candidate("file:///event_idle", Some("com.app"), &["Contract", "Event"]),
        candidate("file:///state_idle", Some("com.app"), &["Contract", "State"]),
    ];
    let out = narrow_import_candidates("com.app.Contract.State.Idle", &cands);
    assert_eq!(uris(&out), vec!["file:///state_idle"]);
    // No candidate in the named chain: the package filter alone decides.
    let out = narrow_import_candidates("com.app.Other.State.Idle", &cands);
    assert_eq!(uris(&out), vec!["file:///event_idle", "file:///state_idle"]);
}

#[test]
fn project_search_gate_checks_the_explicit_imports_package_directory() {
    let fd = with_imports(vec![
        import("android.os", "*", true),
        import("android.os.Bundle", "Bundle", false),
    ]);
    let roots = vec!["/ws/app/src/main/kotlin".to_string()];
    match import_package_gate(Some(&fd), "Bundle", Some("/ws"), &roots) {
        Some(PackageDirCheck::Probe { roots, pkg_dir }) => {
            assert_eq!(roots, vec!["/ws/app/src/main/kotlin".to_string()]);
            assert_eq!(pkg_dir, "android/os");
        },
        _ => panic!("expected a probe of the import's package directory"),
    }
    assert!(import_package_gate(Some(&fd), "Intent", Some("/ws"), &roots).is_none());
    assert!(import_package_gate(None, "Bundle", Some("/ws"), &roots).is_none());
}

fn at(uri: &str) -> Location {
    Location {
        uri: uri.into(),
        range: Range { start: Position { line: 0, character: 0 }, end: Position { line: 0, character: 1 } },
    }
}

#[test]
fn explicit_imports_are_tried_in_order_through_the_index_then_the_tree() {
    let f = with_imports(vec![
        import("com.app.util.*", "*", true),
        import("com.app.ui.Screen", "Screen", false),
        import("com.app.other.Screen", "Screen", false),
    ]);
    // The qualified index knows the second import only.
    let found = resolve_via_imports(
        Some(&f),
        "Screen",
        false,
        |p: &String| if p == "com.app.other.Screen" { Some(at("file:///other/Screen.kt")) } else { None },
        |_p: &String| Vec::new(),
        |_p: &String| -> Vec<Location> { panic!("no search allowed") },
    );
    assert_eq!(found.len(), 1);
    assert_eq!(found[0].uri, "file:///other/Screen.kt");

    // Same-named definitions are narrowed to the imported package.
    let found = resolve_via_imports(
        Some(&f),
        "Screen",
        false,
        |_p: &String| None,
        |_p: &String| vec![candidate("file:///x/Screen.kt", Some("com.x"), &[]), candidate("file:///ui/Screen.kt", Some("com.app.ui"), &[])],
        |_p: &String| Vec::new(),
    );
    assert_eq!(found.len(), 1);
    assert_eq!(found[0].uri, "file:///ui/Screen.kt");

    // The tree is searched only when allowed.
    let search = |p: &String| if p == "com.app.ui.Screen" { vec![at("file:///ui/Screen.kt")] } else { Vec::new() };
    assert!(resolve_via_imports(Some(&f), "Screen", false, |_p: &String| None, |_p: &String| Vec::new(), search).is_empty());
    let found = resolve_via_imports(Some(&f), "Screen", true, |_p: &String| None, |_p: &String| Vec::new(), search);
    assert_eq!(found.len(), 1);
    assert!(resolve_via_imports(None, "Screen", true, |_p: &String| None, |_p: &String| Vec::new(), search).is_empty());
}
