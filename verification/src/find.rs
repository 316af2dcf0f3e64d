//! Finding a name among the symbols of one indexed file: anywhere in the
//! file, after a line, inside a container's body, or inside a class's
//! companion object.
//!
//! Each lookup answers from the symbol table when it can; where the
//! complete search falls back to scanning the file's raw lines for a
//! declaration the symbol table never captured (such as a constructor
//! parameter), the lookup says so ([`Lookup::ScanLines`]) and the caller
//! runs that scan.

use vstd::prelude::*;

use crate::resolve::{locations_in, pick, selection_ranges};
use crate::text::{first_pos, lemma_first_pos, lemma_first_pos_unique};
use crate::types::{
    class_kind, companion_object_at, position_le, range_encloses, str_eq, FileData, Location,
    Range, SymbolEntry, SymbolKind,
};

verus! {

/// How a lookup in one file came out.
pub enum Lookup {
    /// These locations are the answer (possibly none).
    Answer(Vec<Location>),
    /// The symbol table has no answer: scan the file's lines for a
    /// declaration of the name.
    ScanLines,
}

/// `r` is `ans` as the locations in `uri` of the ranges it names, or a
/// request to scan lines where `ans` is `None`.
pub open spec fn lookup_is(r: Lookup, uri: Seq<char>, ans: Option<Seq<Range>>) -> bool {
    match (r, ans) {
        (Lookup::Answer(v), Some(rs)) => locations_in(v@, uri, rs),
        (Lookup::ScanLines, None) => true,
        _ => false,
    }
}

/// `r` answers with no location.
pub open spec fn answers_nothing(r: Lookup) -> bool {
    r matches Lookup::Answer(v) && v@.len() == 0
}

/// Symbol `j` is named `name`.
pub open spec fn named(symbols: Seq<SymbolEntry>, name: Seq<char>) -> spec_fn(int) -> bool {
    |j: int| symbols[j].name@ == name
}

/// Symbol `j` is named `name` and tagged as declared directly inside the
/// type named `container`.
pub open spec fn in_container(symbols: Seq<SymbolEntry>, name: Seq<char>, container: Seq<char>) -> spec_fn(
    int,
) -> bool {
    |j: int| symbols[j].name@ == name && (symbols[j].container matches Some(c) && c@ == container)
}

/// `outer` fully contains `inner`.
pub open spec fn encloses(outer: Range, inner: Range) -> bool {
    position_le(outer.start, inner.start) && position_le(inner.end, outer.end)
}

/// Symbol `j` is named `name`, has a range other than `body`, and lies
/// inside `body`.
pub open spec fn enclosed_by(symbols: Seq<SymbolEntry>, name: Seq<char>, body: Range) -> spec_fn(
    int,
) -> bool {
    |j: int| symbols[j].name@ == name && symbols[j].range != body && encloses(body, symbols[j].range)
}

/// Whether `o` holds a string equal to `s`.
pub fn opt_str_is(o: &Option<String>, s: &str) -> (r: bool)
    ensures
        r == (o matches Some(c) && c@ == s@),
{
    match o {
        Some(c) => str_eq(c.as_str(), s),
        None => false,
    }
}

/// The locations in `uri` of the symbols of `symbols` named `name` and
/// tagged with the container `container`, in file order.
fn members_in_container(symbols: &Vec<SymbolEntry>, name: &str, container: &str, uri: &str) -> (out: Vec<
    Location,
>)
    ensures
        locations_in(
            out@,
            uri@,
            selection_ranges(pick(symbols@, in_container(symbols@, name@, container@), symbols@.len() as int)),
        ),
{
    let ghost keep = in_container(symbols@, name@, container@);
    let mut out: Vec<Location> = Vec::new();
    let mut j: usize = 0;
    while j < symbols.len()
        invariant
            keep == in_container(symbols@, name@, container@),
            j <= symbols@.len(),
            locations_in(out@, uri@, selection_ranges(pick(symbols@, keep, j as int))),
        decreases symbols.len() - j,
    {
        let s = &symbols[j];
        let hit = str_eq(s.name.as_str(), name) && opt_str_is(&s.container, container);
        assert(hit == keep(j as int));
        if hit {
            out.push(Location { uri: uri.to_owned(), range: s.selection_range });
        }
        j = j + 1;
        proof {
            let p = pick(symbols@, keep, j as int);
            assert(selection_ranges(p) =~= if hit {
                selection_ranges(pick(symbols@, keep, j - 1)).push(symbols@[j - 1].selection_range)
            } else {
                selection_ranges(pick(symbols@, keep, j - 1))
            });
        }
    }
    out
}

/// The locations in `uri` of the symbols named `name` lying inside `body`
/// (other than one spanning `body` itself), in file order.
fn members_enclosed_by(symbols: &Vec<SymbolEntry>, name: &str, body: Range, uri: &str) -> (out: Vec<
    Location,
>)
    ensures
        locations_in(
            out@,
            uri@,
            selection_ranges(pick(symbols@, enclosed_by(symbols@, name@, body), symbols@.len() as int)),
        ),
{
    let ghost keep = enclosed_by(symbols@, name@, body);
    let mut out: Vec<Location> = Vec::new();
    let mut j: usize = 0;
    while j < symbols.len()
        invariant
            keep == enclosed_by(symbols@, name@, body),
            j <= symbols@.len(),
            locations_in(out@, uri@, selection_ranges(pick(symbols@, keep, j as int))),
        decreases symbols.len() - j,
    {
        let s = &symbols[j];
        let hit = str_eq(s.name.as_str(), name) && s.range != body && range_encloses(body, s.range);
        assert(hit == keep(j as int));
        if hit {
            out.push(Location { uri: uri.to_owned(), range: s.selection_range });
        }
        j = j + 1;
        proof {
            let p = pick(symbols@, keep, j as int);
            assert(selection_ranges(p) =~= if hit {
                selection_ranges(pick(symbols@, keep, j - 1)).push(symbols@[j - 1].selection_range)
            } else {
                selection_ranges(pick(symbols@, keep, j - 1))
            });
        }
    }
    out
}

/// Index of the first symbol named `name`, or `-1`.
pub open spec fn first_named(symbols: Seq<SymbolEntry>, name: Seq<char>) -> int {
    first_pos(0, symbols.len() as int, named(symbols, name))
}

/// The index of the first symbol of `symbols` named `name`.
pub(crate) fn first_named_index(symbols: &Vec<SymbolEntry>, name: &str) -> (r: Option<usize>)
    ensures
        match r {
            Some(k) => k < symbols@.len() && first_named(symbols@, name@) == k as int,
            None => first_named(symbols@, name@) == -1,
        },
{
    let ghost pred = named(symbols@, name@);
    let mut j: usize = 0;
    while j < symbols.len()
        invariant
            pred == named(symbols@, name@),
            j <= symbols@.len(),
            forall|k: int| 0 <= k < j ==> !#[trigger] pred(k),
        decreases symbols.len() - j,
    {
        if str_eq(symbols[j].name.as_str(), name) {
            proof {
                assert(pred(j as int));
                lemma_first_pos_unique(0, symbols@.len() as int, pred, j as int);
            }
            return Some(j);
        }
        assert(!pred(j as int));
        j = j + 1;
    }
    proof {
        lemma_first_pos_unique(0, symbols@.len() as int, pred, -1);
    }
    None
}

/// Every same-named symbol of `file` (at `uri`) tagged as declared directly
/// inside the class named `class_name`, in file order: for a hierarchy walk
/// that knows an ancestor's name but not where it is declared. Nothing when
/// the file is not available.
pub fn find_all_names_with_container_in_uri(
    file: Option<&FileData>,
    name: &str,
    class_name: &str,
    uri: &str,
) -> (out: Vec<Location>)
    ensures
        match file {
            None => out@.len() == 0,
            Some(fd) => locations_in(
                out@,
                uri@,
                selection_ranges(
                    pick(fd.symbols@, in_container(fd.symbols@, name@, class_name@), fd.symbols@.len() as int),
                ),
            ),
        },
{
    match file {
        None => Vec::new(),
        Some(fd) => members_in_container(&fd.symbols, name, class_name, uri),
    }
}

/// The symbol-table answer for `name` in a file: the first symbol so named,
/// as a one-element answer; none, when no symbol has the name.
pub open spec fn name_in_file_answer(symbols: Seq<SymbolEntry>, name: Seq<char>) -> Option<Seq<Range>> {
    let k = first_named(symbols, name);
    if k == -1 {
        None
    } else {
        Some(seq![symbols[k].selection_range])
    }
}

/// Looks `name` up in `file` (at `uri`): the first symbol so named; when no
/// symbol has it, the caller scans the file's lines. Nothing when the file
/// is not available.
pub fn find_name_in_uri(file: Option<&FileData>, name: &str, uri: &str) -> (r: Lookup)
    ensures
        match file {
            None => answers_nothing(r),
            Some(fd) => lookup_is(r, uri@, name_in_file_answer(fd.symbols@, name@)),
        },
{
    let fd = match file {
        None => return Lookup::Answer(Vec::new()),
        Some(fd) => fd,
    };
    match first_named_index(&fd.symbols, name) {
        Some(k) => {
            let mut v: Vec<Location> = Vec::new();
            v.push(Location { uri: uri.to_owned(), range: fd.symbols[k].selection_range });
            Lookup::Answer(v)
        },
        None => Lookup::ScanLines,
    }
}

/// Symbol `s` has its identifier at or after line `after`.
pub open spec fn starts_after(s: SymbolEntry, after: u32) -> bool {
    s.selection_range.start.line >= after
}

/// Symbol `k` is named `name`, its identifier is at or after line `after`,
/// no other such symbol starts earlier, and no earlier such symbol starts
/// as early (the first of the closest).
pub open spec fn closest_after(symbols: Seq<SymbolEntry>, name: Seq<char>, after: u32, k: int) -> bool {
    &&& 0 <= k < symbols.len()
    &&& symbols[k].name@ == name
    &&& starts_after(symbols[k], after)
    &&& forall|j: int|
        0 <= j < symbols.len() && symbols[j].name@ == name && starts_after(#[trigger] symbols[j], after)
            ==> symbols[k].selection_range.start.line <= symbols[j].selection_range.start.line
    &&& forall|j: int|
        0 <= j < k && symbols[j].name@ == name && starts_after(#[trigger] symbols[j], after)
            ==> symbols[k].selection_range.start.line < symbols[j].selection_range.start.line
}

proof fn lemma_closest_after_unique(symbols: Seq<SymbolEntry>, name: Seq<char>, after: u32, a: int, b: int)
    requires
        closest_after(symbols, name, after, a),
        closest_after(symbols, name, after, b),
    ensures
        a == b,
{
    assert(starts_after(symbols[a], after));
    assert(starts_after(symbols[b], after));
}

/// The symbol a position-only lookup after line `after` picks: the closest
/// same-named symbol at or after that line, else the first same-named symbol
/// anywhere, else `-1`.
pub open spec fn after_line_pick(symbols: Seq<SymbolEntry>, name: Seq<char>, after: u32) -> int {
    if exists|k: int| closest_after(symbols, name, after, k) {
        choose|k: int| closest_after(symbols, name, after, k)
    } else {
        first_named(symbols, name)
    }
}

/// The symbol-table answer for `name` after line `after`. With a known
/// container, every same-named symbol tagged with it, and no answer when
/// there is none (a known container with no such member is never guessed
/// by position). Without one, the symbol [`after_line_pick`] names.
pub open spec fn after_line_answer(
    symbols: Seq<SymbolEntry>,
    name: Seq<char>,
    after: u32,
    container: Option<Seq<char>>,
) -> Option<Seq<Range>> {
    match container {
        Some(c) => {
            let rs = selection_ranges(pick(symbols, in_container(symbols, name, c), symbols.len() as int));
            if rs.len() > 0 {
                Some(rs)
            } else {
                None
            }
        },
        None => {
            let k = after_line_pick(symbols, name, after);
            if k == -1 {
                None
            } else {
                Some(seq![symbols[k].selection_range])
            }
        },
    }
}

/// The view of an optional string.
pub open spec fn opt_view(o: Option<&str>) -> Option<Seq<char>> {
    match o {
        Some(s) => Some(s@),
        None => None,
    }
}

/// The closest symbol named `name` at or after line `after` (see
/// [`closest_after`]).
fn closest_after_index(symbols: &Vec<SymbolEntry>, name: &str, after: u32) -> (r: Option<usize>)
    ensures
        match r {
            Some(k) => closest_after(symbols@, name@, after, k as int),
            None => !exists|k: int| closest_after(symbols@, name@, after, k),
        },
{
    let mut best: Option<usize> = None;
    let mut j: usize = 0;
    while j < symbols.len()
        invariant
            j <= symbols@.len(),
            match best {
                None => forall|i: int|
                    0 <= i < j ==> !(symbols@[i].name@ == name@ && starts_after(#[trigger] symbols@[i], after)),
                Some(b) => {
                    &&& b < j
                    &&& symbols@[b as int].name@ == name@
                    &&& starts_after(symbols@[b as int], after)
                    &&& forall|i: int|
                        0 <= i < j && symbols@[i].name@ == name@ && starts_after(#[trigger] symbols@[i], after)
                            ==> symbols@[b as int].selection_range.start.line
                            <= symbols@[i].selection_range.start.line
                    &&& forall|i: int|
                        0 <= i < b && symbols@[i].name@ == name@ && starts_after(#[trigger] symbols@[i], after)
                            ==> symbols@[b as int].selection_range.start.line
                            < symbols@[i].selection_range.start.line
                },
            },
        decreases symbols.len() - j,
    {
        let s = &symbols[j];
        if str_eq(s.name.as_str(), name) && s.selection_range.start.line >= after {
            match best {
                None => {
                    best = Some(j);
                },
                Some(b) => {
                    if s.selection_range.start.line < symbols[b].selection_range.start.line {
                        best = Some(j);
                    }
                },
            }
        }
        j = j + 1;
    }
    match best {
        Some(b) => {
            assert(closest_after(symbols@, name@, after, b as int));
        },
        None => {
            assert forall|k: int| !closest_after(symbols@, name@, after, k) by {
                if closest_after(symbols@, name@, after, k) {
                    assert(starts_after(symbols@[k], after));
                }
            }
        },
    }
    best
}

/// The symbol-table answer for `name` after line `after` in `symbols` (see
/// [`after_line_answer`]).
fn after_line_lookup(
    symbols: &Vec<SymbolEntry>,
    name: &str,
    uri: &str,
    after: u32,
    container: Option<&str>,
) -> (r: Lookup)
    ensures
        lookup_is(r, uri@, after_line_answer(symbols@, name@, after, opt_view(container))),
{
    match container {
        Some(c) => {
            let same = members_in_container(symbols, name, c, uri);
            if same.len() > 0 {
                Lookup::Answer(same)
            } else {
                Lookup::ScanLines
            }
        },
        None => {
            let pick_index = match closest_after_index(symbols, name, after) {
                Some(k) => {
                    proof {
                        let c = choose|q: int| closest_after(symbols@, name@, after, q);
                        lemma_closest_after_unique(symbols@, name@, after, c, k as int);
                    }
                    Some(k)
                },
                None => first_named_index(symbols, name),
            };
            match pick_index {
                Some(k) => {
                    let mut v: Vec<Location> = Vec::new();
                    v.push(Location { uri: uri.to_owned(), range: symbols[k].selection_range });
                    Lookup::Answer(v)
                },
                None => Lookup::ScanLines,
            }
        },
    }
}

/// Looks `name` up in `file` (at `uri`) preferring declarations at or after
/// line `after_line`, for a qualifier class known to live there (see
/// [`after_line_answer`]); when the symbol table has no answer the caller
/// scans the file's lines from `after_line`, then the whole file. Nothing
/// when the file is not available.
pub fn find_name_in_uri_after_line(
    file: Option<&FileData>,
    name: &str,
    uri: &str,
    after_line: u32,
    container_name: Option<&str>,
) -> (r: Lookup)
    ensures
        match file {
            None => answers_nothing(r),
            Some(fd) => lookup_is(
                r,
                uri@,
                after_line_answer(fd.symbols@, name@, after_line, opt_view(container_name)),
            ),
        },
{
    match file {
        None => Lookup::Answer(Vec::new()),
        Some(fd) => after_line_lookup(&fd.symbols, name, uri, after_line, container_name),
    }
}

/// A test one symbol of a file may pass.
pub enum SymbolTest<'a> {
    /// Its identifier spans exactly this range.
    SelectionIs(Range),
    /// It is named so and lies inside this body (other than spanning it).
    NamedWithin(&'a str, Range),
    /// It is a companion object tagged as declared inside the named class.
    CompanionOf(&'a str),
    /// It is a class-like declaration with this name.
    ClassNamed(&'a str),
    /// It is a companion object whose range lies inside this one.
    CompanionWithin(Range),
}

/// `s` is a `companion object` declaration.
pub open spec fn companion_object(s: SymbolEntry) -> bool {
    s.kind == SymbolKind::Object && exists|i: int|
        #[trigger] companion_object_at(s.detail@, i)
}

/// Symbol `j` of `symbols` passes `t`.
pub open spec fn passes(symbols: Seq<SymbolEntry>, t: SymbolTest) -> spec_fn(int) -> bool {
    |j: int| match t {
        SymbolTest::SelectionIs(r) => symbols[j].selection_range == r,
        SymbolTest::NamedWithin(n, body) => enclosed_by(symbols, n@, body)(j),
        SymbolTest::CompanionOf(c) => companion_object(symbols[j]) && (symbols[j].container matches Some(
            x,
        ) && x@ == c@),
        SymbolTest::ClassNamed(n) => symbols[j].name@ == n@ && class_kind(symbols[j].kind),
        SymbolTest::CompanionWithin(body) => companion_object(symbols[j]) && encloses(body, symbols[j].range),
    }
}

/// Index of the first symbol passing `t`, or `-1`.
pub open spec fn first_passing(symbols: Seq<SymbolEntry>, t: SymbolTest) -> int {
    first_pos(0, symbols.len() as int, passes(symbols, t))
}

fn is_class_kind(k: SymbolKind) -> (r: bool)
    ensures
        r == class_kind(k),
{
    k == SymbolKind::Class || k == SymbolKind::Interface || k == SymbolKind::Struct || k
        == SymbolKind::Enum || k == SymbolKind::Object
}

fn test_symbol(s: &SymbolEntry, t: &SymbolTest) -> (r: bool)
    ensures
        r == passes(seq![*s], *t)(0),
{
    match t {
        SymbolTest::SelectionIs(r) => s.selection_range == *r,
        SymbolTest::NamedWithin(n, body) => str_eq(s.name.as_str(), n) && s.range != *body
            && range_encloses(*body, s.range),
        SymbolTest::CompanionOf(c) => s.is_companion_object() && opt_str_is(&s.container, c),
        SymbolTest::ClassNamed(n) => str_eq(s.name.as_str(), n) && is_class_kind(s.kind),
        SymbolTest::CompanionWithin(body) => s.is_companion_object() && range_encloses(*body, s.range),
    }
}

/// The index of the first symbol of `symbols` passing `t`.
fn first_passing_index(symbols: &Vec<SymbolEntry>, t: &SymbolTest) -> (r: Option<usize>)
    ensures
        match r {
            Some(k) => k < symbols@.len() && first_passing(symbols@, *t) == k as int,
            None => first_passing(symbols@, *t) == -1,
        },
{
    let ghost pred = passes(symbols@, *t);
    let mut j: usize = 0;
    while j < symbols.len()
        invariant
            pred == passes(symbols@, *t),
            j <= symbols@.len(),
            forall|k: int| 0 <= k < j ==> !#[trigger] pred(k),
        decreases symbols.len() - j,
    {
        let hit = test_symbol(&symbols[j], t);
        assert(hit == pred(j as int));
        if hit {
            proof {
                lemma_first_pos_unique(0, symbols@.len() as int, pred, j as int);
            }
            return Some(j);
        }
        j = j + 1;
    }
    proof {
        lemma_first_pos_unique(0, symbols@.len() as int, pred, -1);
    }
    None
}

/// The first element of an answer only.
pub open spec fn first_only(ans: Option<Seq<Range>>) -> Option<Seq<Range>> {
    match ans {
        Some(rs) => Some(rs.take(1)),
        None => None,
    }
}

/// The symbol-table answer for `name` declared inside the container whose
/// identifier is at `container` in the same file: the first same-named
/// symbol inside the container's declaration range; else the after-line
/// answer from the container's line, tagged with the container's name
/// (degenerate ranges, such as compiled stubs, enclose nothing); and when
/// the container's own symbol is not found, the position-only after-line
/// answer.
pub open spec fn scoped_answer(symbols: Seq<SymbolEntry>, name: Seq<char>, container: Range) -> Option<
    Seq<Range>,
> {
    let cs = first_passing(symbols, SymbolTest::SelectionIs(container));
    if cs == -1 {
        after_line_answer(symbols, name, container.start.line, None)
    } else {
        let k = first_pos(0, symbols.len() as int, enclosed_by(symbols, name, symbols[cs].range));
        if k != -1 {
            Some(seq![symbols[k].selection_range])
        } else {
            after_line_answer(symbols, name, container.start.line, Some(symbols[cs].name@))
        }
    }
}

/// Finds `name` declared within the body of the container whose location
/// is `container`, in the container's file `file` (see [`scoped_answer`]);
/// one location at most. When the symbol table has no answer the caller
/// scans the file's lines from the container's line. Nothing when the file
/// is not available.
pub fn find_name_scoped_to_container(file: Option<&FileData>, name: &str, container: &Location) -> (r:
    Lookup)
    ensures
        match file {
            None => answers_nothing(r),
            Some(fd) => lookup_is(r, container.uri@, first_only(scoped_answer(fd.symbols@, name@, container.range))),
        },
{
    let fd = match file {
        None => return Lookup::Answer(Vec::new()),
        Some(fd) => fd,
    };
    let uri = container.uri.as_str();
    let line = container.range.start.line;
    let found = match first_passing_index(&fd.symbols, &SymbolTest::SelectionIs(container.range)) {
        None => after_line_lookup(&fd.symbols, name, uri, line, None),
        Some(cs) => {
            let body = fd.symbols[cs].range;
            let t = SymbolTest::NamedWithin(name, body);
            match first_passing_index(&fd.symbols, &t) {
                Some(k) => {
                    proof {
                        assert(passes(fd.symbols@, t) =~= enclosed_by(fd.symbols@, name@, body));
                    }
                    let mut v: Vec<Location> = Vec::new();
                    v.push(Location { uri: uri.to_owned(), range: fd.symbols[k].selection_range });
                    Lookup::Answer(v)
                },
                None => {
                    proof {
                        assert(passes(fd.symbols@, t) =~= enclosed_by(fd.symbols@, name@, body));
                    }
                    after_line_lookup(&fd.symbols, name, uri, line, Some(fd.symbols[cs].name.as_str()))
                },
            }
        },
    };
    match found {
        Lookup::Answer(v) => {
            let mut w: Vec<Location> = Vec::new();
            if v.len() > 0 {
                w.push(v[0].duplicate());
            }
            Lookup::Answer(w)
        },
        Lookup::ScanLines => Lookup::ScanLines,
    }
}

/// The symbol-table answer for every same-named member of the container
/// whose identifier is at `container`: all same-named symbols inside its
/// declaration range; else all tagged with its name (compiled stubs, whose
/// ranges nest nothing); else the after-line answer tagged with its name.
/// When the container's own symbol is not found, the position-only
/// after-line answer.
pub open spec fn all_scoped_answer(symbols: Seq<SymbolEntry>, name: Seq<char>, container: Range) -> Option<
    Seq<Range>,
> {
    let cs = first_passing(symbols, SymbolTest::SelectionIs(container));
    if cs == -1 {
        after_line_answer(symbols, name, container.start.line, None)
    } else {
        let inside = selection_ranges(
            pick(symbols, enclosed_by(symbols, name, symbols[cs].range), symbols.len() as int),
        );
        let tagged = selection_ranges(
            pick(symbols, in_container(symbols, name, symbols[cs].name@), symbols.len() as int),
        );
        if inside.len() > 0 {
            Some(inside)
        } else if tagged.len() > 0 {
            Some(tagged)
        } else {
            after_line_answer(symbols, name, container.start.line, Some(symbols[cs].name@))
        }
    }
}

/// Every same-named symbol declared directly inside the container whose
/// location is `container` (see [`all_scoped_answer`]), so that an
/// overloaded name keeps its whole candidate set for arity filtering. When
/// the symbol table has no answer the caller scans the file's lines from
/// the container's line. Nothing when the file is not available.
pub fn find_all_names_scoped_to_container(file: Option<&FileData>, name: &str, container: &Location) -> (r:
    Lookup)
    ensures
        match file {
            None => answers_nothing(r),
            Some(fd) => lookup_is(r, container.uri@, all_scoped_answer(fd.symbols@, name@, container.range)),
        },
{
    let fd = match file {
        None => return Lookup::Answer(Vec::new()),
        Some(fd) => fd,
    };
    let uri = container.uri.as_str();
    let line = container.range.start.line;
    match first_passing_index(&fd.symbols, &SymbolTest::SelectionIs(container.range)) {
        None => after_line_lookup(&fd.symbols, name, uri, line, None),
        Some(cs) => {
            let inside = members_enclosed_by(&fd.symbols, name, fd.symbols[cs].range, uri);
            if inside.len() > 0 {
                return Lookup::Answer(inside);
            }
            let cname = fd.symbols[cs].name.as_str();
            let tagged = members_in_container(&fd.symbols, name, cname, uri);
            if tagged.len() > 0 {
                return Lookup::Answer(tagged);
            }
            after_line_lookup(&fd.symbols, name, uri, line, Some(cname))
        },
    }
}

/// The members named `name` of the companion object of the class named
/// `class_name`, in a file. In a compiled file (`compiled`), whose symbols
/// nest by container tag only: the companion is the first companion object
/// tagged with the class, and its members are the symbols tagged with the
/// companion's name. In a source file: the companion is the first companion
/// object inside the first class-like declaration named `class_name`, and
/// its members are the same-named symbols inside it. Nothing when there is
/// no such class or companion.
pub open spec fn companion_members(
    symbols: Seq<SymbolEntry>,
    compiled: bool,
    name: Seq<char>,
    class_name: &str,
) -> Seq<Range> {
    if compiled {
        let c = first_passing(symbols, SymbolTest::CompanionOf(class_name));
        if c == -1 {
            Seq::empty()
        } else {
            selection_ranges(pick(symbols, in_container(symbols, name, symbols[c].name@), symbols.len() as int))
        }
    } else {
        let k = first_passing(symbols, SymbolTest::ClassNamed(class_name));
        if k == -1 {
            Seq::empty()
        } else {
            let c = first_passing(symbols, SymbolTest::CompanionWithin(symbols[k].range));
            if c == -1 {
                Seq::empty()
            } else {
                selection_ranges(pick(symbols, enclosed_by(symbols, name, symbols[c].range), symbols.len() as int))
            }
        }
    }
}

/// `Foo.member` with `Foo` a class name reaches only a member of `Foo`'s
/// companion object, never an instance member of the same name: the
/// locations (in `uri`) of [`companion_members`]. `compiled` says whether
/// the file is a compiled archive's synthetic file. Nothing when the file
/// is not available.
pub fn resolve_companion_member(
    file: Option<&FileData>,
    compiled: bool,
    name: &str,
    class_name: &str,
    uri: &str,
) -> (out: Vec<Location>)
    ensures
        match file {
            None => out@.len() == 0,
            Some(fd) => locations_in(out@, uri@, companion_members(fd.symbols@, compiled, name@, class_name)),
        },
{
    let fd = match file {
        None => return Vec::new(),
        Some(fd) => fd,
    };
    if compiled {
        match first_passing_index(&fd.symbols, &SymbolTest::CompanionOf(class_name)) {
            None => Vec::new(),
            Some(c) => members_in_container(&fd.symbols, name, fd.symbols[c].name.as_str(), uri),
        }
    } else {
        match first_passing_index(&fd.symbols, &SymbolTest::ClassNamed(class_name)) {
            None => Vec::new(),
            Some(k) => {
                let t = SymbolTest::CompanionWithin(fd.symbols[k].range);
                match first_passing_index(&fd.symbols, &t) {
                    None => Vec::new(),
                    Some(c) => members_enclosed_by(&fd.symbols, name, fd.symbols[c].range, uri),
                }
            },
        }
    }
}

// ─── Enclosing containers ─────────────────────────────────────────────────────

/// Symbol `j` is a class-like declaration, other than the one whose
/// identifier is `target` itself, whose range encloses `target`.
pub open spec fn encloses_target(symbols: Seq<SymbolEntry>, target: Range) -> spec_fn(int) -> bool {
    |j: int| class_kind(symbols[j].kind) && symbols[j].selection_range != target && encloses(
        symbols[j].range,
        target,
    )
}

/// `a` comes strictly before `b`.
pub open spec fn pos_lt(a: crate::types::Position, b: crate::types::Position) -> bool {
    a.line < b.line || (a.line == b.line && a.character < b.character)
}

/// A range starting earlier, or starting together and ending later, is
/// further out.
pub open spec fn further_out(a: Range, b: Range) -> bool {
    pos_lt(a.start, b.start) || (a.start == b.start && pos_lt(b.end, a.end))
}

/// In the outermost-first order, `cs[i]` comes before `cs[j]`: it is further
/// out, or spans the same range and comes first in the file.
pub open spec fn comes_before(cs: Seq<SymbolEntry>, i: int, j: int) -> bool {
    further_out(cs[i].range, cs[j].range) || (cs[i].range == cs[j].range && i < j)
}

/// `order` lists every position of `cs` once, outermost first.
pub open spec fn outermost_first(cs: Seq<SymbolEntry>, order: Seq<int>) -> bool {
    &&& order.len() == cs.len()
    &&& forall|i: int| 0 <= i < order.len() ==> 0 <= #[trigger] order[i] < cs.len()
    &&& forall|i: int, j: int| 0 <= i < j < order.len() ==> comes_before(cs, #[trigger] order[i], #[trigger] order[j])
}

/// Whether `a` is further out than `b` (see [`further_out`]).
fn is_further_out(a: Range, b: Range) -> (r: bool)
    ensures
        r == further_out(a, b),
{
    (a.start.line < b.start.line || (a.start.line == b.start.line && a.start.character
        < b.start.character)) || (a.start == b.start && (b.end.line < a.end.line || (b.end.line
        == a.end.line && b.end.character < a.end.character)))
}

proof fn lemma_comes_before_order(cs: Seq<SymbolEntry>, a: int, b: int, c: int)
    ensures
        comes_before(cs, a, b) && comes_before(cs, b, c) ==> comes_before(cs, a, c),
        a != b ==> comes_before(cs, a, b) || comes_before(cs, b, a),
        !comes_before(cs, a, a),
{
}

/// The chain of class-like declarations of `file` enclosing the declaration
/// at `target`, outermost first (earliest start, then latest end; equal
/// spans in file order): the names of the symbols [`encloses_target`]
/// picks, in an [`outermost_first`] order. Empty for a top-level
/// declaration or when the file is not available.
pub fn enclosing_container_chain(file: Option<&FileData>, target: Range) -> (out: Vec<String>)
    ensures
        match file {
            None => out@.len() == 0,
            Some(fd) => {
                let cs = pick(fd.symbols@, encloses_target(fd.symbols@, target), fd.symbols@.len() as int);
                exists|order: Seq<int>|
                    #[trigger] outermost_first(cs, order) && out.deep_view() == order.map_values(
                        |k: int| cs[k].name@,
                    )
            },
        },
{
    let fd = match file {
        None => return Vec::new(),
        Some(fd) => fd,
    };
    let ghost symbols = fd.symbols@;
    let ghost keep = encloses_target(symbols, target);
    let mut cands: Vec<usize> = Vec::new();
    let mut j: usize = 0;
    while j < fd.symbols.len()
        invariant
            symbols == fd.symbols@,
            keep == encloses_target(symbols, target),
            j <= symbols.len(),
            cands@.map_values(|k: usize| symbols[k as int]) == pick(symbols, keep, j as int),
            forall|i: int| 0 <= i < cands@.len() ==> (#[trigger] cands@[i]) < symbols.len(),
        decreases fd.symbols.len() - j,
    {
        let s = &fd.symbols[j];
        let hit = is_class_kind(s.kind) && s.selection_range != target && range_encloses(s.range, target);
        assert(hit == keep(j as int));
        let ghost before = cands@;
        if hit {
            cands.push(j);
            assert(cands@.map_values(|k: usize| symbols[k as int]) =~= before.map_values(
                |k: usize| symbols[k as int],
            ).push(symbols[j as int]));
        }
        j = j + 1;
    }
    let ghost cs = pick(symbols, keep, symbols.len() as int);
    assert(cs.len() == cands@.len());
    let mut order: Vec<usize> = Vec::new();
    let mut m: usize = 0;
    while m < cands.len()
        invariant
            symbols == fd.symbols@,
            cs == cands@.map_values(|k: usize| symbols[k as int]),
            forall|i: int| 0 <= i < cands@.len() ==> (#[trigger] cands@[i]) < symbols.len(),
            m <= cands@.len(),
            order@.len() == m,
            forall|i: int| 0 <= i < order@.len() ==> (#[trigger] order@[i]) < m,
            forall|i: int, q: int|
                0 <= i < q < order@.len() ==> comes_before(cs, #[trigger] order@[i] as int, #[trigger] order@[q] as int),
        decreases cands.len() - m,
    {
        let r = fd.symbols[cands[m]].range;
        assert(cs[m as int].range == r);
        let mut p: usize = 0;
        while p < order.len() && !is_further_out(r, fd.symbols[cands[order[p]]].range)
            invariant
                symbols == fd.symbols@,
                cs == cands@.map_values(|k: usize| symbols[k as int]),
                forall|i: int| 0 <= i < cands@.len() ==> (#[trigger] cands@[i]) < symbols.len(),
                m < cands@.len(),
                cs[m as int].range == r,
                order@.len() == m,
                forall|i: int| 0 <= i < order@.len() ==> (#[trigger] order@[i]) < m,
                p <= order@.len(),
                forall|i: int| 0 <= i < p ==> !further_out(r, #[trigger] cs[order@[i] as int].range),
            decreases order.len() - p,
        {
            assert(cs[order@[p as int] as int] == symbols[cands@[order@[p as int] as int] as int]);
            p = p + 1;
        }
        proof {
            if p < order@.len() {
                assert(cs[order@[p as int] as int] == symbols[cands@[order@[p as int] as int] as int]);
                assert(further_out(r, cs[order@[p as int] as int].range));
            }
        }
        let ghost old_order = order@;
        order.insert(p, m);
        proof {
            old_order.insert_ensures(p as int, m);
            assert forall|i: int, q: int|
                0 <= i < q < order@.len() implies comes_before(cs, #[trigger] order@[i] as int, #[trigger] order@[q] as int) by {
                let a = order@[i] as int;
                let b = order@[q] as int;
                if q < p {
                    assert(a == old_order[i] && b == old_order[q]);
                } else if q == p {
                    assert(a == old_order[i]);
                    assert(!further_out(r, cs[a].range));
                    assert(a < m);
                } else if i == p {
                    assert(b == old_order[q - 1]);
                    assert(further_out(r, cs[old_order[p as int] as int].range));
                    if q - 1 > p {
                        assert(comes_before(cs, old_order[p as int] as int, b));
                        lemma_comes_before_order(cs, m as int, old_order[p as int] as int, b);
                    }
                } else if i < p {
                    assert(a == old_order[i] && b == old_order[q - 1]);
                } else {
                    assert(a == old_order[i - 1] && b == old_order[q - 1]);
                }
            }
        }
        m = m + 1;
    }
    let ghost ord = order@.map_values(|k: usize| k as int);
    let mut out: Vec<String> = Vec::new();
    let mut q: usize = 0;
    while q < order.len()
        invariant
            symbols == fd.symbols@,
            cs == cands@.map_values(|k: usize| symbols[k as int]),
            forall|i: int| 0 <= i < cands@.len() ==> (#[trigger] cands@[i]) < symbols.len(),
            order@.len() == cands@.len(),
            forall|i: int| 0 <= i < order@.len() ==> (#[trigger] order@[i]) < cands@.len(),
            ord == order@.map_values(|k: usize| k as int),
            q <= order@.len(),
            out.deep_view() == ord.take(q as int).map_values(|k: int| cs[k].name@),
        decreases order.len() - q,
    {
        let k = order[q];
        let name = fd.symbols[cands[k]].name.clone();
        let ghost before = out.deep_view();
        out.push(name);
        proof {
            assert(cs[k as int] == symbols[cands@[k as int] as int]);
            assert(ord.take(q + 1int).map_values(|k: int| cs[k].name@) =~= ord.take(q as int).map_values(
                |k: int| cs[k].name@,
            ).push(cs[k as int].name@));
            assert(out.deep_view() =~= before.push(cs[k as int].name@));
        }
        q = q + 1;
    }
    proof {
        assert(ord.take(ord.len() as int) =~= ord);
        assert(outermost_first(cs, ord));
    }
    out
}

} // verus!
