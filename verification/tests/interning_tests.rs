use kt_resolver::interning::{FileId, FileTable, InternTable, SymbolLoc};
use kt_resolver::types::{Position, Range};

fn range(line: u32, start: u32, end: u32) -> Range {
    Range {
        start: Position { line, character: start },
        end: Position { line, character: end },
    }
}

#[test]
fn intern_table_hands_out_ids_in_order_and_reuses_them() {
    let mut table = InternTable::new();
    assert_eq!(table.intern("file:///a.kt"), 0);
    assert_eq!(table.intern("file:///b.kt"), 1);
    assert_eq!(table.intern("file:///a.kt"), 0);
    assert_eq!(table.intern("file:///c.kt"), 2);
    assert_eq!(table.key(1).as_deref(), Some("file:///b.kt"));
    assert_eq!(table.key(3), None);
}

#[test]
fn file_table_round_trips_uris() {
    let mut files = FileTable::new();
    let a = files.intern("file:///src/A.kt");
    let b = files.intern("file:///src/B.kt");
    assert_ne!(a, b);
    assert_eq!(files.intern("file:///src/A.kt"), a);
    assert_eq!(files.url(a).as_deref(), Some("file:///src/A.kt"));
    assert_eq!(files.url(b).as_deref(), Some("file:///src/B.kt"));
    assert_eq!(files.url(FileId(9)), None);
}

#[test]
fn file_table_turns_symbol_locations_into_locations() {
    let mut files = FileTable::new();
    let id = files.intern("file:///src/Foo.kt");
    let loc = SymbolLoc::new(id, range(4, 6, 9));
    assert_eq!(loc.file, id);
    let resolved = files.location(loc).expect("interned file");
    assert_eq!(resolved.uri, "file:///src/Foo.kt");
    assert_eq!(resolved.range, range(4, 6, 9));
    let stray = SymbolLoc::new(FileId(5), range(0, 0, 1));
    assert!(files.location(stray).is_none());
}
