use kt_resolver::infer::{find_class_type_params, substitute_direct_supertype_args};
use kt_resolver::resolve::fqns_for_name;
use kt_resolver::types::{
    pack_cold_fields, FileData, Position, Range, SourceSet, SymbolEntry, SymbolKind, Visibility,
};

fn class(name: &str, line: u32, type_params: &[&str]) -> SymbolEntry {
    let r = Range { start: Position { line, character: 6 }, end: Position { line, character: 12 } };
    SymbolEntry {
        name: name.into(),
        kind: SymbolKind::Class,
        visibility: Visibility::Public,
        range: r,
        selection_range: r,
        detail: String::new(),
        params: String::new(),
        param_counts: (0, 0),
        container: None,
        cold: pack_cold_fields(
            type_params.iter().map(|p| p.to_string()).collect(),
            String::new(),
            String::new(),
            String::new(),
        ),
        trailing_lambda: false,
        deprecated: false,
    }
}

fn file(symbols: Vec<SymbolEntry>, supers: Vec<(u32, String, Vec<String>)>) -> FileData {
    FileData {
        symbols,
        imports: Vec::new(),
        package: Some("com.example".into()),
        lines: Vec::new(),
        declared_names: Vec::new(),
        source_set: SourceSet::Main,
        supers,
    }
}

fn strings(v: &[&str]) -> Vec<String> {
    v.iter().map(|s| s.to_string()).collect()
}

#[test]
fn class_type_params_come_from_the_first_generic_declaration() {
    let plain = file(vec![class("Base", 0, &[])], Vec::new());
    let generic = file(vec![class("Other", 0, &["X"]), class("Base", 3, &["E", "S"])], Vec::new());
    let later = file(vec![class("Base", 0, &["Z"])], Vec::new());
    let files = vec![&plain, &generic, &later];
    assert_eq!(find_class_type_params(&files, "Base"), strings(&["E", "S"]));
    assert!(find_class_type_params(&files, "Missing").is_empty());
    assert!(find_class_type_params(&Vec::new(), "Base").is_empty());
}

#[test]
fn direct_supertype_arguments_are_substituted() {
    let derived = file(
        vec![class("Derived", 2, &[])],
        vec![(2, "com.lib.Base".into(), strings(&["Input", "Effect", "Sheet"]))],
    );
    let base = file(vec![class("Base", 0, &["EventType", "EffectType", "StateType"])], Vec::new());
    let defs = vec![&base];
    let out = substitute_direct_supertype_args(
        Some(&derived),
        "Derived",
        "com.lib.Base",
        "Flow<ReducedResult<EffectType, StateType>>",
        &defs,
    );
    assert_eq!(out, "Flow<ReducedResult<Effect, Sheet>>");
}

#[test]
fn without_a_direct_supertype_entry_the_type_is_unchanged() {
    let raw = "List<T>";
    let base = file(vec![class("Base", 0, &["T"])], Vec::new());
    let defs = vec![&base];
    let derived = file(vec![class("Derived", 2, &[])], vec![(2, "Base".into(), Vec::new())]);
    // No type arguments on the entry.
    assert_eq!(substitute_direct_supertype_args(Some(&derived), "Derived", "Base", raw, &defs), raw);
    // No entry for that supertype on the class's line.
    let elsewhere = file(vec![class("Derived", 2, &[])], vec![(5, "Base".into(), strings(&["Int"]))]);
    assert_eq!(substitute_direct_supertype_args(Some(&elsewhere), "Derived", "Base", raw, &defs), raw);
    // No such class, no file, or a supertype without type parameters.
    let direct = file(vec![class("Derived", 2, &[])], vec![(2, "Base".into(), strings(&["Int"]))]);
    assert_eq!(substitute_direct_supertype_args(Some(&direct), "Other", "Base", raw, &defs), raw);
    assert_eq!(substitute_direct_supertype_args(None, "Derived", "Base", raw, &defs), raw);
    assert_eq!(substitute_direct_supertype_args(Some(&direct), "Derived", "Base", raw, &Vec::new()), raw);
    assert_eq!(substitute_direct_supertype_args(Some(&direct), "Derived", "Base", raw, &defs), "List<Int>");
}

#[test]
fn fqns_are_looked_up_by_simple_name() {
    let table = vec![
        ("Composable".to_string(), strings(&["androidx.compose.runtime.Composable"])),
        ("Flow".to_string(), strings(&["kotlinx.coroutines.flow.Flow", "com.example.Flow"])),
    ];
    assert_eq!(
        fqns_for_name(&table, "Flow"),
        strings(&["kotlinx.coroutines.flow.Flow", "com.example.Flow"])
    );
    assert!(fqns_for_name(&table, "Missing").is_empty());
}

/// `class Derived : app.Base<Int>()` in the same file as `open class Base<T>`:
/// the qualified spelling `app.Base` still finds `Base`'s own type params.
#[test]
fn substitute_direct_supertype_args_handles_qualified_super_name() {
    // package app
    // open class Base<T>
    // class Derived : app.Base<Int>()
    let types = file(
        vec![class("Base", 1, &["T"]), class("Derived", 2, &[])],
        vec![(2, "app.Base".into(), strings(&["Int"]))],
    );
    let defs = vec![&types];
    assert_eq!(
        substitute_direct_supertype_args(Some(&types), "Derived", "app.Base", "T", &defs),
        "Int",
        "a qualified supertype spelling (app.Base) must still resolve Base's \
         own type params for substitution"
    );
}
