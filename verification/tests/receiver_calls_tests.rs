use kt_resolver::receiver_calls::{implicit_receiver_member_match, TypeSite};
use kt_resolver::types::{FileData, Location, Position, Range, SourceSet, SymbolEntry, SymbolKind, Visibility};

fn range(line: u32) -> Range {
    Range { start: Position { line, character: 4 }, end: Position { line, character: 10 } }
}

fn method(name: &str, line: u32, params: &str, counts: (u8, u8)) -> SymbolEntry {
    SymbolEntry {
        name: name.into(),
        kind: SymbolKind::Method,
        visibility: Visibility::Public,
        range: range(line),
        selection_range: range(line),
        detail: String::new(),
        params: params.into(),
        param_counts: counts,
        container: Some("Receiver".into()),
        cold: None,
        trailing_lambda: false,
        deprecated: false,
    }
}

fn file(symbols: Vec<SymbolEntry>) -> FileData {
    FileData {
        symbols,
        imports: Vec::new(),
        package: Some("com.example".into()),
        lines: Vec::new(),
        declared_names: Vec::new(),
        source_set: SourceSet::Main,
        supers: Vec::new(),
    }
}

fn site<'a>(uri: &str, file: Option<&'a FileData>) -> TypeSite<'a> {
    TypeSite { location: Location { uri: uri.into(), range: range(0) }, file }
}

/// A call with exactly one argument.
fn one_arg(required: u8, total: u8) -> bool {
    required <= 1 && 1 <= total
}

#[test]
fn the_overload_matching_the_call_shape_is_chosen() {
    let f = file(vec![method("render", 3, "", (0, 0)), method("render", 7, "x: Int", (1, 1))]);
    let sites = vec![site("file:///Receiver.kt", Some(&f))];
    let found = implicit_receiver_member_match(&sites, "render", one_arg).expect("one-argument overload");
    assert_eq!(found.uri, "file:///Receiver.kt");
    assert_eq!(found.range, range(7));
}

#[test]
fn vararg_declarations_take_any_call() {
    let f = file(vec![method("log", 2, "vararg parts: String", (0, 0))]);
    let sites = vec![site("file:///Log.kt", Some(&f))];
    let found = implicit_receiver_member_match(&sites, "log", |_r: u8, _t: u8| false).expect("vararg");
    assert_eq!(found.range, range(2));
}

#[test]
fn later_declarations_are_tried_and_unindexed_ones_skipped() {
    let wrong = file(vec![method("render", 1, "", (0, 0))]);
    let right = file(vec![method("render", 9, "a: Int", (1, 1))]);
    let sites = vec![
        site("file:///Unindexed.kt", None),
        site("file:///Wrong.kt", Some(&wrong)),
        site("file:///Right.kt", Some(&right)),
    ];
    let found = implicit_receiver_member_match(&sites, "render", one_arg).expect("second declaration");
    assert_eq!(found.uri, "file:///Right.kt");
    assert!(implicit_receiver_member_match(&sites, "missing", one_arg).is_none());
    let first_two = vec![site("file:///Unindexed.kt", None), site("file:///Wrong.kt", Some(&wrong))];
    assert!(implicit_receiver_member_match(&first_two, "render", one_arg).is_none());
}
