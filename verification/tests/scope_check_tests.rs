use std::cell::Cell;

use kt_resolver::extensions::ExtensionEntry;
use kt_resolver::scope_check::{
    has_stdlib_star_import, receiver_provides_member, resolve_in_scope_strict, DefinitionSite,
    ScopeStep,
};
use kt_resolver::types::{
    FileData, ImportEntry, Position, Range, SourceSet, SymbolEntry, SymbolKind, Visibility,
};

fn range(start_line: u32, end_line: u32) -> Range {
    Range {
        start: Position { line: start_line, character: 0 },
        end: Position { line: end_line, character: 1 },
    }
}

fn symbol(name: &str, kind: SymbolKind, r: Range, container: Option<&str>) -> SymbolEntry {
    SymbolEntry {
        name: name.into(),
        kind,
        visibility: Visibility::Public,
        range: r,
        selection_range: Range { start: r.start, end: r.start },
        detail: String::new(),
        params: String::new(),
        param_counts: (0, 0),
        container: container.map(|c| c.to_owned()),
        cold: None,
        trailing_lambda: false,
        deprecated: false,
    }
}

fn import(full_path: &str, local_name: &str, is_star: bool) -> ImportEntry {
    ImportEntry { full_path: full_path.into(), local_name: local_name.into(), is_star }
}

fn file(symbols: Vec<SymbolEntry>, imports: Vec<ImportEntry>) -> FileData {
    FileData {
        symbols,
        imports,
        package: Some("com.example".into()),
        lines: Vec::new(),
        declared_names: Vec::new(),
        source_set: SourceSet::Main,
        supers: Vec::new(),
    }
}

fn extension(name: &str) -> ExtensionEntry {
    ExtensionEntry {
        file_uri: "file:///ext.kt".into(),
        name: name.into(),
        kind: SymbolKind::Function,
        detail: String::new(),
        visibility: Visibility::Public,
        package: Some("com.example".into()),
        container: None,
        trailing_lambda: false,
        deprecated: false,
    }
}

#[test]
fn stdlib_star_import_is_detected_only_for_platform_packages() {
    let java = file(Vec::new(), vec![import("java.util", "*", true)]);
    assert!(has_stdlib_star_import(Some(&java)));
    let own = file(Vec::new(), vec![import("com.example.util", "*", true)]);
    assert!(!has_stdlib_star_import(Some(&own)));
    let explicit = file(Vec::new(), vec![import("java.util.Date", "Date", false)]);
    assert!(!has_stdlib_star_import(Some(&explicit)));
    assert!(!has_stdlib_star_import(None));
}

#[test]
fn explicit_import_puts_a_name_in_scope_without_asking_the_index() {
    let f = file(Vec::new(), vec![import("android.widget.Button", "Button", false)]);
    let asked = Cell::new(0u32);
    let r = resolve_in_scope_strict("Button", Some(&f), |_s: ScopeStep| {
        asked.set(asked.get() + 1);
        false
    });
    assert!(r);
    // Only the local declaration check runs before the explicit import.
    assert_eq!(asked.get(), 1);
}

#[test]
fn platform_star_import_covers_any_name() {
    let f = file(Vec::new(), vec![import("java.util", "*", true)]);
    assert!(resolve_in_scope_strict("Date", Some(&f), |_s: ScopeStep| false));
}

#[test]
fn a_name_nothing_reaches_is_out_of_scope_after_every_check() {
    let f = file(Vec::new(), vec![import("com.example.util", "*", true)]);
    let seen = std::cell::RefCell::new(Vec::new());
    let r = resolve_in_scope_strict("Widget", Some(&f), |s: ScopeStep| {
        seen.borrow_mut().push(s);
        false
    });
    assert!(!r);
    // Upper-case names skip the line scan for parameters and locals.
    assert_eq!(
        *seen.borrow(),
        vec![
            ScopeStep::Local,
            ScopeStep::DefaultImport,
            ScopeStep::Imports,
            ScopeStep::ClassStarImport,
            ScopeStep::SamePackage,
            ScopeStep::StarImports,
            ScopeStep::Hierarchy,
        ]
    );
}

#[test]
fn lower_case_names_are_looked_for_among_locals_and_the_first_yes_wins() {
    let seen = std::cell::RefCell::new(Vec::new());
    let r = resolve_in_scope_strict("count", None, |s: ScopeStep| {
        seen.borrow_mut().push(s);
        s == ScopeStep::LocalDeclaration
    });
    assert!(r);
    assert_eq!(
        *seen.borrow(),
        vec![ScopeStep::Local, ScopeStep::DefaultImport, ScopeStep::LocalDeclaration]
    );
}

#[test]
fn receiver_extension_provides_the_name() {
    let exts = vec![extension("other"), extension("requireContext")];
    let r = receiver_provides_member(
        "Fragment",
        "requireContext",
        Some(&exts),
        &Vec::new(),
        &Vec::new(),
        || panic!("the hierarchy is only consulted last"),
    );
    assert!(r);
}

#[test]
fn workspace_member_inside_the_receiver_provides_the_name() {
    let f = file(
        vec![
            symbol("Screen", SymbolKind::Class, range(0, 20), None),
            symbol("render", SymbolKind::Function, range(3, 5), Some("Screen")),
        ],
        Vec::new(),
    );
    let site = DefinitionSite { file: Some(&f), range: range(3, 3) };
    let defs = vec![site];
    assert!(receiver_provides_member("Screen", "render", None, &defs, &Vec::new(), || false));
    // A different receiver does not enclose the definition.
    assert!(!receiver_provides_member("Dialog", "render", None, &defs, &Vec::new(), || false));
}

#[test]
fn library_member_recorded_in_the_receiver_provides_the_name() {
    let jar = file(
        vec![
            symbol("Fragment", SymbolKind::Class, range(0, 0), None),
            symbol("requireActivity", SymbolKind::Function, range(1, 1), Some("Fragment")),
        ],
        Vec::new(),
    );
    let defs = vec![DefinitionSite { file: Some(&jar), range: range(1, 1) }];
    assert!(receiver_provides_member("Fragment", "requireActivity", None, &Vec::new(), &defs, || false));
    let stray = vec![DefinitionSite { file: Some(&jar), range: range(7, 7) }];
    assert!(!receiver_provides_member("Fragment", "requireActivity", None, &Vec::new(), &stray, || false));
}

#[test]
fn inherited_member_is_the_last_resort() {
    assert!(receiver_provides_member("SomeFragment", "requireActivity", None, &Vec::new(), &Vec::new(), || true));
    assert!(!receiver_provides_member("SomeFragment", "requireActivity", None, &Vec::new(), &Vec::new(), || false));
}
