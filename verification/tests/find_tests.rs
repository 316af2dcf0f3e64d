use kt_resolver::find::{
    enclosing_container_chain, find_all_names_scoped_to_container,
    find_all_names_with_container_in_uri, find_name_in_uri, find_name_in_uri_after_line,
    find_name_scoped_to_container, resolve_companion_member, Lookup,
};
use kt_resolver::types::{FileData, Location, Position, Range, SymbolEntry, SymbolKind, Visibility, SourceSet};

const URI: &str = "file:///Reducer.kt";

fn pos(line: u32, character: u32) -> Position {
    Position { line, character }
}

fn span(l0: u32, c0: u32, l1: u32, c1: u32) -> Range {
    Range { start: pos(l0, c0), end: pos(l1, c1) }
}

fn symbol(name: &str, kind: SymbolKind, range: Range, selection: Range, container: Option<&str>) -> SymbolEntry {
    SymbolEntry {
        name: name.to_owned(),
        kind,
        visibility: Visibility::Public,
        range,
        selection_range: selection,
        detail: String::new(),
        params: String::new(),
        param_counts: (0, 0),
        container: container.map(|c| c.to_owned()),
        cold: None,
        trailing_lambda: false,
        deprecated: false,
    }
}

fn file(symbols: Vec<SymbolEntry>) -> FileData {
    FileData { symbols, imports: Vec::new(), package: None, lines: Vec::new(), declared_names: Vec::new(), source_set: SourceSet::Main, supers: Vec::new() }
}

/// The symbol table of
/// ```text
/// sealed interface Event {
///     data class RegularInput(val event: RegularEvent) : Event
///     data class OverdraftInput(val event: OverdraftEvent) : Event
/// }
/// sealed interface RegularEvent
/// sealed interface OverdraftEvent
/// ```
fn sibling_fields() -> FileData {
    file(vec![
        symbol("Event", SymbolKind::Interface, span(0, 0, 3, 1), span(0, 17, 0, 22), None),
        symbol("RegularInput", SymbolKind::Class, span(1, 4, 1, 60), span(1, 15, 1, 27), Some("Event")),
        symbol("event", SymbolKind::Property, span(1, 28, 1, 51), span(1, 32, 1, 37), Some("RegularInput")),
        symbol("OverdraftInput", SymbolKind::Class, span(2, 4, 2, 64), span(2, 15, 2, 29), Some("Event")),
        symbol("event", SymbolKind::Property, span(2, 30, 2, 55), span(2, 34, 2, 39), Some("OverdraftInput")),
        symbol("RegularEvent", SymbolKind::Interface, span(4, 0, 4, 29), span(4, 17, 4, 29), None),
        symbol("OverdraftEvent", SymbolKind::Interface, span(5, 0, 5, 31), span(5, 17, 5, 31), None),
    ])
}

fn answer(l: Lookup) -> Vec<Location> {
    match l {
        Lookup::Answer(v) => v,
        Lookup::ScanLines => panic!("expected a symbol-table answer"),
    }
}

fn ranges(v: &[Location]) -> Vec<Range> {
    v.iter().map(|l| l.range).collect()
}

fn first_named(fd: &FileData, name: &str) -> Location {
    answer(find_name_in_uri(Some(fd), name, URI)).into_iter().next().expect("indexed")
}

#[test]
fn scoped_to_a_specific_variant_finds_that_variants_own_field_not_a_sibling() {
    let fd = sibling_fields();
    let overdraft_input = first_named(&fd, "OverdraftInput");
    let found = answer(find_name_scoped_to_container(Some(&fd), "event", &overdraft_input));
    assert_eq!(found.len(), 1);
    assert_eq!(found[0].range.start.line, 2);
}

#[test]
fn scoped_to_the_other_variant_finds_its_own_field_instead() {
    let fd = sibling_fields();
    let regular_input = first_named(&fd, "RegularInput");
    let found = answer(find_name_scoped_to_container(Some(&fd), "event", &regular_input));
    assert_eq!(found.len(), 1);
    assert_eq!(found[0].range.start.line, 1);
}

#[test]
fn falls_back_to_closest_after_line_when_container_symbol_is_not_found() {
    let fd = sibling_fields();
    let fake_container = Location { uri: URI.to_owned(), range: span(0, 0, 0, 0) };
    let found = answer(find_name_scoped_to_container(Some(&fd), "event", &fake_container));
    let fallback = answer(find_name_in_uri_after_line(Some(&fd), "event", URI, 0, None));
    assert_eq!(ranges(&found), ranges(&fallback[..1]));
    assert_eq!(found[0].uri, URI);
}

#[test]
fn scoping_to_an_outer_container_with_multiple_matches_picks_the_first() {
    let fd = sibling_fields();
    let event_interface = first_named(&fd, "Event");
    let found = answer(find_name_scoped_to_container(Some(&fd), "event", &event_interface));
    assert_eq!(found[0].range.start.line, 1);
}

#[test]
fn find_name_in_uri_asks_for_a_line_scan_when_no_symbol_has_the_name() {
    let fd = sibling_fields();
    assert!(matches!(find_name_in_uri(Some(&fd), "missing", URI), Lookup::ScanLines));
    assert!(answer(find_name_in_uri(None, "event", URI)).is_empty());
    let found = answer(find_name_in_uri(Some(&fd), "event", URI));
    assert_eq!(ranges(&found), vec![span(1, 32, 1, 37)]);
}

#[test]
fn after_line_prefers_the_closest_declaration_at_or_after_the_line() {
    let fd = sibling_fields();
    let found = answer(find_name_in_uri_after_line(Some(&fd), "event", URI, 2, None));
    assert_eq!(ranges(&found), vec![span(2, 34, 2, 39)]);
    // Nothing at or after line 3: the first same-named symbol anywhere.
    let found = answer(find_name_in_uri_after_line(Some(&fd), "event", URI, 3, None));
    assert_eq!(ranges(&found), vec![span(1, 32, 1, 37)]);
}

#[test]
fn after_line_with_a_known_container_never_guesses_by_position() {
    let fd = sibling_fields();
    let found = answer(find_name_in_uri_after_line(Some(&fd), "event", URI, 0, Some("OverdraftInput")));
    assert_eq!(ranges(&found), vec![span(2, 34, 2, 39)]);
    assert!(matches!(
        find_name_in_uri_after_line(Some(&fd), "event", URI, 0, Some("Event")),
        Lookup::ScanLines
    ));
}

#[test]
fn names_with_container_lists_every_tagged_member() {
    let fd = file(vec![
        symbol("Assert", SymbolKind::Class, span(0, 0, 0, 0), span(0, 0, 0, 0), None),
        symbol("fail", SymbolKind::Method, span(1, 0, 1, 0), span(1, 0, 1, 0), Some("Assert")),
        symbol("fail", SymbolKind::Method, span(2, 0, 2, 0), span(2, 0, 2, 0), Some("Other")),
        symbol("fail", SymbolKind::Method, span(3, 0, 3, 0), span(3, 0, 3, 0), Some("Assert")),
    ]);
    let found = find_all_names_with_container_in_uri(Some(&fd), "fail", "Assert", URI);
    assert_eq!(ranges(&found), vec![span(1, 0, 1, 0), span(3, 0, 3, 0)]);
    assert!(find_all_names_with_container_in_uri(None, "fail", "Assert", URI).is_empty());
}

#[test]
fn all_scoped_members_keep_every_overload() {
    // A compiled (flat) file: the class range encloses none of its members,
    // so the container tag decides.
    let fd = file(vec![
        symbol("Assert", SymbolKind::Class, span(0, 0, 0, 6), span(0, 0, 0, 6), None),
        symbol("fail", SymbolKind::Method, span(1, 0, 1, 4), span(1, 0, 1, 4), Some("Assert")),
        symbol("assertEquals", SymbolKind::Method, span(2, 0, 2, 12), span(2, 0, 2, 12), Some("Assert")),
        symbol("fail", SymbolKind::Method, span(3, 0, 3, 4), span(3, 0, 3, 4), Some("Assert")),
    ]);
    let container = Location { uri: URI.to_owned(), range: span(0, 0, 0, 6) };
    let found = answer(find_all_names_scoped_to_container(Some(&fd), "fail", &container));
    assert_eq!(ranges(&found), vec![span(1, 0, 1, 4), span(3, 0, 3, 4)]);
    // A source file: range containment decides.
    let fd = sibling_fields();
    let event_interface = first_named(&fd, "Event");
    let found = answer(find_all_names_scoped_to_container(Some(&fd), "event", &event_interface));
    assert_eq!(ranges(&found), vec![span(1, 32, 1, 37), span(2, 34, 2, 39)]);
}

#[test]
fn companion_member_in_a_source_file_is_found_by_nesting() {
    let mut companion = symbol("Companion", SymbolKind::Object, span(2, 4, 4, 5), span(2, 4, 2, 20), Some("Foo"));
    companion.detail = "companion object".to_owned();
    let fd = file(vec![
        symbol("Foo", SymbolKind::Class, span(0, 0, 5, 1), span(0, 6, 0, 9), None),
        symbol("create", SymbolKind::Function, span(1, 4, 1, 20), span(1, 8, 1, 14), Some("Foo")),
        companion,
        symbol("create", SymbolKind::Function, span(3, 8, 3, 24), span(3, 12, 3, 18), Some("Companion")),
    ]);
    let found = resolve_companion_member(Some(&fd), false, "create", "Foo", URI);
    assert_eq!(ranges(&found), vec![span(3, 12, 3, 18)]);
    assert!(resolve_companion_member(Some(&fd), false, "create", "Bar", URI).is_empty());
}

#[test]
fn companion_member_in_a_compiled_file_is_found_by_container_tag() {
    let mut companion = symbol("Companion", SymbolKind::Object, span(1, 0, 1, 0), span(1, 0, 1, 0), Some("Foo"));
    companion.detail = "public companion object".to_owned();
    let fd = file(vec![
        symbol("Foo", SymbolKind::Class, span(0, 0, 0, 0), span(0, 0, 0, 0), None),
        companion,
        symbol("create", SymbolKind::Method, span(2, 0, 2, 0), span(2, 0, 2, 0), Some("Companion")),
        symbol("create", SymbolKind::Method, span(3, 0, 3, 0), span(3, 0, 3, 0), Some("Foo")),
    ]);
    let found = resolve_companion_member(Some(&fd), true, "create", "Foo", URI);
    assert_eq!(ranges(&found), vec![span(2, 0, 2, 0)]);
    assert!(resolve_companion_member(None, true, "create", "Foo", URI).is_empty());
}

#[test]
fn enclosing_chain_lists_containers_outermost_first() {
    let fd = file(vec![
        symbol("State", SymbolKind::Interface, span(1, 4, 4, 5), span(1, 14, 1, 19), Some("Contract")),
        symbol("Contract", SymbolKind::Interface, span(0, 0, 6, 1), span(0, 10, 0, 18), None),
        symbol("Idle", SymbolKind::Object, span(2, 8, 2, 40), span(2, 15, 2, 19), Some("State")),
        symbol("helper", SymbolKind::Function, span(0, 0, 6, 1), span(5, 4, 5, 10), None),
    ]);
    let chain = enclosing_container_chain(Some(&fd), span(2, 15, 2, 19));
    assert_eq!(chain, vec!["Contract".to_string(), "State".to_string()]);
    let top = enclosing_container_chain(Some(&fd), span(0, 10, 0, 18));
    assert!(top.is_empty());
    assert!(enclosing_container_chain(None, span(2, 15, 2, 19)).is_empty());
}
