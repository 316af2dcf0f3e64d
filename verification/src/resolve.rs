//! The prioritised resolution chain.
//!
//! Resolving a bare name tries, in one fixed order: the current file's own
//! symbols, local declarations, explicit imports, the Swift definitions
//! index, the same package, star imports, the class hierarchy, a
//! project-wide text search, and finally a global-definitions tail and the
//! platform equivalent of a Kotlin built-in type. Which of these steps run
//! is decided by the pass's IO policy ([`ResolveIo`]); the first step that
//! finds anything ends the chain. The lookups themselves work on the index;
//! this module decides, from one step's outcome, what runs next.

use vstd::prelude::*;

use crate::infer::copy_strings;
use crate::segments::{split_char, split_str, starts_uppercase, str_starts_uppercase};
use crate::text::{
    find_char, first_pos, first_where, is_char, lemma_first_pos, lemma_first_pos_unique, lemma_first_where,
    str_chars,
};
use crate::types::{
    language_of_path, position_le, range_encloses, str_eq, FileData, Language, Location, Range,
    SymbolEntry,
};

verus! {

/// Which outside work and fallbacks one resolution pass may use.
#[derive(Clone, Copy, PartialEq, Eq, Structural, Debug)]
pub enum ResolveIo {
    /// Navigation: may search files and the project, walk the class
    /// hierarchy and index a cold file; its tail is ambiguity-safe.
    Full,
    /// The in-memory index only (imports may still search for a file);
    /// tail: the first global definition.
    NoRg,
    /// Strictly in memory; tail: ambiguity-safe.
    IndexOnly,
    /// Like `NoRg`, with no tail at all.
    ScopedOnly,
    /// Like `NoRg`, with an ambiguity-safe tail anchored at the hierarchy
    /// walk's starting file.
    HierarchyAmbiguitySafe,
}

/// One step of the resolution chain, in the chain's own order.
#[derive(Clone, Copy, PartialEq, Eq, Structural, Debug)]
pub enum ChainStep {
    /// Index the current file on demand when it is not indexed yet.
    IndexCurrentFile,
    /// Symbols declared in the current file.
    Local,
    /// A local variable or parameter declaration found by scanning lines.
    LocalDeclaration,
    /// Explicit (non-star) imports.
    Imports,
    /// The definitions index, for a Swift file (no package system).
    SwiftDefinitions,
    /// Files of the same package.
    SamePackage,
    /// Star imports: indexed packages, then a search of the package directory.
    StarImportsSearch,
    /// Star imports: indexed packages only.
    StarImportsIndexed,
    /// Supertypes of the enclosing class.
    Hierarchy,
    /// Stop when an explicit import names a package absent from every source root.
    ImportPackageGate,
    /// Project-wide text search.
    ProjectSearch,
    /// The first global definition.
    FirstDefinition,
    /// The global definitions, with the ambiguity-safe tie-break.
    AmbiguitySafeTail,
    /// The platform equivalent of a Kotlin built-in type.
    PlatformEquivalent,
}

/// Position of `s` in the chain's fixed order.
pub open spec fn step_rank(s: ChainStep) -> int {
    match s {
        ChainStep::IndexCurrentFile => 0,
        ChainStep::Local => 1,
        ChainStep::LocalDeclaration => 2,
        ChainStep::Imports => 3,
        ChainStep::SwiftDefinitions => 4,
        ChainStep::SamePackage => 5,
        ChainStep::StarImportsSearch => 6,
        ChainStep::StarImportsIndexed => 7,
        ChainStep::Hierarchy => 8,
        ChainStep::ImportPackageGate => 9,
        ChainStep::ProjectSearch => 10,
        ChainStep::FirstDefinition => 11,
        ChainStep::AmbiguitySafeTail => 12,
        ChainStep::PlatformEquivalent => 13,
    }
}

/// Number of steps in the chain.
pub open spec fn step_count() -> int {
    14
}

/// The step at position `r` of the fixed order (`0 <= r < 14`).
pub open spec fn step_at(r: int) -> ChainStep {
    if r <= 0 {
        ChainStep::IndexCurrentFile
    } else if r == 1 {
        ChainStep::Local
    } else if r == 2 {
        ChainStep::LocalDeclaration
    } else if r == 3 {
        ChainStep::Imports
    } else if r == 4 {
        ChainStep::SwiftDefinitions
    } else if r == 5 {
        ChainStep::SamePackage
    } else if r == 6 {
        ChainStep::StarImportsSearch
    } else if r == 7 {
        ChainStep::StarImportsIndexed
    } else if r == 8 {
        ChainStep::Hierarchy
    } else if r == 9 {
        ChainStep::ImportPackageGate
    } else if r == 10 {
        ChainStep::ProjectSearch
    } else if r == 11 {
        ChainStep::FirstDefinition
    } else if r == 12 {
        ChainStep::AmbiguitySafeTail
    } else {
        ChainStep::PlatformEquivalent
    }
}

/// What one resolution pass knows before it starts.
#[derive(Clone, Copy, PartialEq, Eq, Structural, Debug)]
pub struct ChainConfig {
    pub io: ResolveIo,
    /// Whether the class-hierarchy step may run at all.
    pub with_hierarchy: bool,
    /// Whether the name starts with an uppercase letter (a type name).
    pub name_starts_uppercase: bool,
    /// Whether the file resolved from is a Swift file.
    pub from_swift_file: bool,
    /// Whether the file resolved from is already indexed.
    pub from_file_indexed: bool,
}

/// Whether the pass configured by `cfg` runs step `s`.
pub open spec fn step_enabled(cfg: ChainConfig, s: ChainStep) -> bool {
    let full = cfg.io == ResolveIo::Full;
    match s {
        ChainStep::IndexCurrentFile => full && !cfg.from_file_indexed,
        ChainStep::Local => true,
        ChainStep::LocalDeclaration => full && !cfg.name_starts_uppercase,
        ChainStep::Imports => true,
        ChainStep::SwiftDefinitions => full && cfg.from_swift_file && cfg.name_starts_uppercase,
        ChainStep::SamePackage => true,
        ChainStep::StarImportsSearch => full,
        ChainStep::StarImportsIndexed => !full,
        ChainStep::Hierarchy => full && cfg.with_hierarchy,
        ChainStep::ImportPackageGate => full,
        ChainStep::ProjectSearch => full,
        ChainStep::FirstDefinition => cfg.io == ResolveIo::NoRg,
        ChainStep::AmbiguitySafeTail => full || cfg.io == ResolveIo::IndexOnly || cfg.io
            == ResolveIo::HierarchyAmbiguitySafe,
        ChainStep::PlatformEquivalent => cfg.io != ResolveIo::ScopedOnly,
    }
}

/// The first step at position `r` or later that `cfg` runs.
pub open spec fn next_enabled(cfg: ChainConfig, r: int) -> Option<ChainStep>
    decreases step_count() - r,
{
    if r >= step_count() {
        None
    } else if step_enabled(cfg, step_at(r)) {
        Some(step_at(r))
    } else {
        next_enabled(cfg, r + 1)
    }
}

/// How a step came out, as its driver reports it.
#[derive(Clone, Copy, PartialEq, Eq, Structural, Debug)]
pub enum StepOutcome {
    /// The step found at least one location.
    Found,
    /// The step found nothing (the on-demand indexing step always reports this).
    NotFound,
    /// The step decided that nothing can be found (the import-package gate).
    Stop,
}

/// What the driver does next.
#[derive(Clone, Copy, PartialEq, Eq, Structural, Debug)]
pub enum ChainAction {
    /// Run this step.
    Run(ChainStep),
    /// Return what the step just run found.
    ReturnFound,
    /// Return no location.
    ReturnNothing,
}

/// Run `n` when there is one, else finish with nothing.
pub open spec fn run_or_finish(n: Option<ChainStep>) -> ChainAction {
    match n {
        Some(s) => ChainAction::Run(s),
        None => ChainAction::ReturnNothing,
    }
}

/// The first action of a pass.
pub open spec fn start_action(cfg: ChainConfig) -> ChainAction {
    run_or_finish(next_enabled(cfg, 0))
}

/// The action after step `s` came out as `o`.
pub open spec fn after_action(cfg: ChainConfig, s: ChainStep, o: StepOutcome) -> ChainAction {
    match o {
        StepOutcome::Found => ChainAction::ReturnFound,
        StepOutcome::Stop => ChainAction::ReturnNothing,
        StepOutcome::NotFound => run_or_finish(next_enabled(cfg, step_rank(s) + 1)),
    }
}

proof fn lemma_rank_at(r: int)
    requires
        0 <= r < step_count(),
    ensures
        step_rank(step_at(r)) == r,
{
}

proof fn lemma_at_rank(s: ChainStep)
    ensures
        0 <= step_rank(s) < step_count(),
        step_at(step_rank(s)) == s,
{
}

/// What [`next_enabled`] gives: the earliest enabled step from `r` on.
proof fn lemma_next_enabled(cfg: ChainConfig, r: int)
    requires
        0 <= r,
    ensures
        match next_enabled(cfg, r) {
            Some(t) => r <= step_rank(t) < step_count() && step_enabled(cfg, t) && forall|q: int|
                r <= q < step_rank(t) ==> !#[trigger] step_enabled(cfg, step_at(q)),
            None => forall|q: int| r <= q < step_count() ==> !#[trigger] step_enabled(cfg, step_at(q)),
        },
    decreases step_count() - r,
{
    if r < step_count() {
        lemma_rank_at(r);
        if !step_enabled(cfg, step_at(r)) {
            lemma_next_enabled(cfg, r + 1);
        }
    }
}

fn rank_of(s: ChainStep) -> (r: u8)
    ensures
        r == step_rank(s),
{
    match s {
        ChainStep::IndexCurrentFile => 0,
        ChainStep::Local => 1,
        ChainStep::LocalDeclaration => 2,
        ChainStep::Imports => 3,
        ChainStep::SwiftDefinitions => 4,
        ChainStep::SamePackage => 5,
        ChainStep::StarImportsSearch => 6,
        ChainStep::StarImportsIndexed => 7,
        ChainStep::Hierarchy => 8,
        ChainStep::ImportPackageGate => 9,
        ChainStep::ProjectSearch => 10,
        ChainStep::FirstDefinition => 11,
        ChainStep::AmbiguitySafeTail => 12,
        ChainStep::PlatformEquivalent => 13,
    }
}

fn step_of_rank(r: u8) -> (s: ChainStep)
    ensures
        s == step_at(r as int),
{
    if r == 0 {
        ChainStep::IndexCurrentFile
    } else if r == 1 {
        ChainStep::Local
    } else if r == 2 {
        ChainStep::LocalDeclaration
    } else if r == 3 {
        ChainStep::Imports
    } else if r == 4 {
        ChainStep::SwiftDefinitions
    } else if r == 5 {
        ChainStep::SamePackage
    } else if r == 6 {
        ChainStep::StarImportsSearch
    } else if r == 7 {
        ChainStep::StarImportsIndexed
    } else if r == 8 {
        ChainStep::Hierarchy
    } else if r == 9 {
        ChainStep::ImportPackageGate
    } else if r == 10 {
        ChainStep::ProjectSearch
    } else if r == 11 {
        ChainStep::FirstDefinition
    } else if r == 12 {
        ChainStep::AmbiguitySafeTail
    } else {
        ChainStep::PlatformEquivalent
    }
}

/// Whether the pass configured by `cfg` runs step `s` (see [`step_enabled`]).
pub fn is_step_enabled(cfg: &ChainConfig, s: ChainStep) -> (r: bool)
    ensures
        r == step_enabled(*cfg, s),
{
    let full = cfg.io == ResolveIo::Full;
    match s {
        ChainStep::IndexCurrentFile => full && !cfg.from_file_indexed,
        ChainStep::Local => true,
        ChainStep::LocalDeclaration => full && !cfg.name_starts_uppercase,
        ChainStep::Imports => true,
        ChainStep::SwiftDefinitions => full && cfg.from_swift_file && cfg.name_starts_uppercase,
        ChainStep::SamePackage => true,
        ChainStep::StarImportsSearch => full,
        ChainStep::StarImportsIndexed => !full,
        ChainStep::Hierarchy => full && cfg.with_hierarchy,
        ChainStep::ImportPackageGate => full,
        ChainStep::ProjectSearch => full,
        ChainStep::FirstDefinition => cfg.io == ResolveIo::NoRg,
        ChainStep::AmbiguitySafeTail => full || cfg.io == ResolveIo::IndexOnly || cfg.io
            == ResolveIo::HierarchyAmbiguitySafe,
        ChainStep::PlatformEquivalent => cfg.io != ResolveIo::ScopedOnly,
    }
}

fn next_enabled_from(cfg: &ChainConfig, from: u8) -> (r: Option<ChainStep>)
    requires
        from <= 14,
    ensures
        r == next_enabled(*cfg, from as int),
{
    let mut k: u8 = from;
    while k < 14
        invariant
            from <= k <= 14,
            next_enabled(*cfg, from as int) == next_enabled(*cfg, k as int),
        decreases 14 - k,
    {
        let s = step_of_rank(k);
        if is_step_enabled(cfg, s) {
            return Some(s);
        }
        k = k + 1;
    }
    None
}

/// The first action of a resolution pass configured by `cfg`.
pub fn chain_start(cfg: &ChainConfig) -> (a: ChainAction)
    ensures
        a == start_action(*cfg),
{
    match next_enabled_from(cfg, 0) {
        Some(s) => ChainAction::Run(s),
        None => ChainAction::ReturnNothing,
    }
}

/// The action after step `step` came out as `outcome`: a find ends the
/// chain with what was found, a stop ends it with nothing, and otherwise the
/// next step the policy allows runs (nothing when none is left).
pub fn chain_after(cfg: &ChainConfig, step: ChainStep, outcome: StepOutcome) -> (a: ChainAction)
    ensures
        a == after_action(*cfg, step, outcome),
{
    match outcome {
        StepOutcome::Found => ChainAction::ReturnFound,
        StepOutcome::Stop => ChainAction::ReturnNothing,
        StepOutcome::NotFound => {
            let r = rank_of(step);
            match next_enabled_from(cfg, r + 1) {
                Some(s) => ChainAction::Run(s),
                None => ChainAction::ReturnNothing,
            }
        },
    }
}

/// Whether explicit-import resolution may search the file system for the
/// imported file: under every policy but the strictly in-memory one.
pub fn imports_may_search_files(io: ResolveIo) -> (r: bool)
    ensures
        r == (io != ResolveIo::IndexOnly),
{
    io != ResolveIo::IndexOnly
}

/// The file the ambiguity-safe tail breaks ties for: the hierarchy walk's
/// own starting file when the pass is the hierarchy walk's and one is
/// given, else the file resolved from.
pub fn tail_origin<'a>(io: ResolveIo, from_uri: &'a str, walk_origin: Option<&'a str>) -> (r: &'a str)
    ensures
        r@ == (match (io, walk_origin) {
            (ResolveIo::HierarchyAmbiguitySafe, Some(o)) => o@,
            _ => from_uri@,
        }),
{
    match (io, walk_origin) {
        (ResolveIo::HierarchyAmbiguitySafe, Some(o)) => o,
        _ => from_uri,
    }
}

// ─── Qualified and dotted names ───────────────────────────────────────────────

/// What resolution does after looking a name up through its qualifier.
#[derive(Clone, Copy, PartialEq, Eq, Structural, Debug)]
pub enum QualifiedOutcome {
    /// Return what the qualified lookup found.
    UseQualified,
    /// Return no location: the qualifier alone decides.
    NothingFound,
    /// Fall through to the unqualified chain (the qualifier may be a package).
    TryUnqualified,
}

/// After a qualified lookup through `qualifier` that found something (or
/// not): a find is used; `super` and `this` never fall through (`super.m`
/// must only look in the parent hierarchy), nor does a type-name qualifier
/// (uppercase); any other qualifier falls through to the unqualified chain.
pub open spec fn qualified_outcome(qualifier: Seq<char>, found: bool) -> QualifiedOutcome {
    if found {
        QualifiedOutcome::UseQualified
    } else if qualifier == "super"@ || qualifier == "this"@ {
        QualifiedOutcome::NothingFound
    } else if starts_uppercase(qualifier) {
        QualifiedOutcome::NothingFound
    } else {
        QualifiedOutcome::TryUnqualified
    }
}

/// What resolution does after the lookup through `qualifier` (see
/// [`qualified_outcome`]).
pub fn after_qualified_lookup(qualifier: &str, qualified_found: bool) -> (r: QualifiedOutcome)
    ensures
        r == qualified_outcome(qualifier@, qualified_found),
{
    if qualified_found {
        QualifiedOutcome::UseQualified
    } else if str_eq(qualifier, "super") || str_eq(qualifier, "this") {
        QualifiedOutcome::NothingFound
    } else if str_starts_uppercase(qualifier) {
        QualifiedOutcome::NothingFound
    } else {
        QualifiedOutcome::TryUnqualified
    }
}

/// Index of the first segment of `segs` that starts uppercase (a type
/// name), or `-1` when none does.
pub open spec fn first_type_segment(segs: Seq<Seq<char>>) -> int {
    first_pos(0, segs.len() as int, type_segment_at(segs))
}

/// Segment `i` of `segs` starts uppercase.
pub open spec fn type_segment_at(segs: Seq<Seq<char>>) -> spec_fn(int) -> bool {
    |i: int| starts_uppercase(segs[i])
}

/// A dotted type name split at its dots, with the index of its first type
/// segment: `demo.Outer.Inner` gives `["demo", "Outer", "Inner"]` and `1`.
pub struct DottedType {
    pub segments: Vec<String>,
    pub start: usize,
}

/// The dotted type path that `name` spells (`Outer.Factory`, `demo.Foo`,
/// `Bar.Baz.Foo`): `None` when `name` has no dot or no segment of it starts
/// uppercase. Resolution then resolves `segments[start]` and walks the
/// remaining segments through each nested type.
pub fn dotted_type_path(name: &str) -> (r: Option<DottedType>)
    ensures
        match r {
            Some(d) => {
                &&& name@.contains('.')
                &&& d.segments.deep_view() == split_char(name@, '.')
                &&& d.start as int == first_type_segment(split_char(name@, '.'))
                &&& d.start < d.segments.len()
            },
            None => !name@.contains('.') || first_type_segment(split_char(name@, '.')) == -1,
        },
{
    let chars = str_chars(name);
    let dot = find_char(&chars, '.');
    proof {
        lemma_first_where(name@, is_char('.'));
    }
    if dot == chars.len() {
        proof {
            if name@.contains('.') {
                let k = choose|k: int| 0 <= k < name@.len() && name@[k] == '.';
                assert(!is_char('.')(name@[k]));
            }
        }
        return None;
    }
    assert(is_char('.')(name@[dot as int]));
    assert(name@.contains('.'));
    let segments = split_str(name, '.');
    let ghost segs = split_char(name@, '.');
    let ghost pred = type_segment_at(segs);
    let mut i: usize = 0;
    while i < segments.len()
        invariant
            segs == split_char(name@, '.'),
            pred == type_segment_at(segs),
            name@.contains('.'),
            segments.deep_view() == segs,
            i <= segs.len(),
            forall|k: int| 0 <= k < i ==> !#[trigger] pred(k),
        decreases segments.len() - i,
    {
        let upper = str_starts_uppercase(segments[i].as_str());
        proof {
            assert(segments.deep_view()[i as int] == segments@[i as int]@);
            assert(upper == pred(i as int));
        }
        if upper {
            proof {
                lemma_first_pos_unique(0, segs.len() as int, pred, i as int);
            }
            return Some(DottedType { segments, start: i });
        }
        i = i + 1;
    }
    proof {
        lemma_first_pos_unique(0, segs.len() as int, pred, -1);
    }
    None
}

/// `name` split at its first dot into the outer type and the rest, as the
/// index-only type resolver splits `Outer.Inner` before resolving `Outer`
/// and looking `Inner` up in its file; `None` when `name` has no dot.
pub fn split_outer_type(name: &str) -> (r: Option<(String, String)>)
    ensures
        match r {
            Some((outer, inner)) => {
                let k = first_where(name@, is_char('.')) as int;
                &&& k < name@.len()
                &&& outer@ == name@.take(k)
                &&& inner@ == name@.skip(k + 1)
            },
            None => first_where(name@, is_char('.')) == name@.len(),
        },
{
    let chars = str_chars(name);
    let dot = find_char(&chars, '.');
    proof {
        lemma_first_where(name@, is_char('.'));
    }
    if dot == chars.len() {
        return None;
    }
    let n = chars.len();
    let outer = name.substring_char(0, dot).to_owned();
    let inner = name.substring_char(dot + 1, n).to_owned();
    assert(name@.subrange(0, dot as int) =~= name@.take(dot as int));
    assert(name@.subrange(dot + 1int, n as int) =~= name@.skip(dot + 1int));
    Some((outer, inner))
}

// ─── Step helpers ─────────────────────────────────────────────────────────────

/// The elements `s[j]`, `j < n`, with `keep(j)`, in order.
pub open spec fn pick<T>(s: Seq<T>, keep: spec_fn(int) -> bool, n: int) -> Seq<T>
    decreases n,
{
    if n <= 0 {
        Seq::empty()
    } else if keep(n - 1) {
        pick(s, keep, n - 1).push(s[n - 1])
    } else {
        pick(s, keep, n - 1)
    }
}

/// Every location of `out` is in `uri`, and their ranges are `ranges`.
pub open spec fn locations_in(out: Seq<Location>, uri: Seq<char>, ranges: Seq<Range>) -> bool {
    &&& out.len() == ranges.len()
    &&& forall|i: int| 0 <= i < out.len() ==> (#[trigger] out[i]).uri@ == uri && out[i].range == ranges[i]
}

/// `verdicts[j]` is a verdict the call-shape check `shape` can give for
/// `symbols[j]`, for each symbol named `name`; with no shape every verdict
/// is acceptance.
pub open spec fn shape_verdicts<F: Fn(&SymbolEntry) -> bool>(
    shape: Option<F>,
    symbols: Seq<SymbolEntry>,
    name: Seq<char>,
    verdicts: Seq<bool>,
) -> bool {
    &&& verdicts.len() == symbols.len()
    &&& forall|j: int|
        0 <= j < symbols.len() && symbols[j].name@ == name ==> match shape {
            None => #[trigger] verdicts[j],
            Some(f) => f.ensures((&symbols[j],), verdicts[j]),
        }
}

/// Symbol `j` is named `name` and its shape verdict accepts it.
pub open spec fn local_keep(symbols: Seq<SymbolEntry>, name: Seq<char>, verdicts: Seq<bool>) -> spec_fn(
    int,
) -> bool {
    |j: int| symbols[j].name@ == name && verdicts[j]
}

/// The selection ranges of `symbols`.
pub open spec fn selection_ranges(symbols: Seq<SymbolEntry>) -> Seq<Range> {
    symbols.map_values(|s: SymbolEntry| s.selection_range)
}

/// Step one of the chain: the symbols of the current file `file` (at `uri`)
/// named `name`, in file order, as locations of their identifiers; when a
/// call shape is given, only those whose declared arity it accepts (a
/// same-named enclosing declaration of the wrong arity must not shadow the
/// real target). Nothing when the file is not indexed.
pub fn resolve_local<F: Fn(&SymbolEntry) -> bool>(
    file: Option<&FileData>,
    name: &str,
    uri: &str,
    shape: Option<F>,
) -> (out: Vec<Location>)
    requires
        shape matches Some(f) ==> forall|s: &SymbolEntry| f.requires((s,)),
    ensures
        match file {
            None => out@.len() == 0,
            Some(fd) => exists|verdicts: Seq<bool>|
                #[trigger] shape_verdicts(shape, fd.symbols@, name@, verdicts) && locations_in(
                    out@,
                    uri@,
                    selection_ranges(
                        pick(fd.symbols@, local_keep(fd.symbols@, name@, verdicts), fd.symbols@.len() as int),
                    ),
                ),
        },
{
    let fd = match file {
        None => return Vec::new(),
        Some(fd) => fd,
    };
    let ghost symbols = fd.symbols@;
    let mut out: Vec<Location> = Vec::new();
    let ghost mut verdicts: Seq<bool> = Seq::empty();
    let mut j: usize = 0;
    while j < fd.symbols.len()
        invariant
            symbols == fd.symbols@,
            shape matches Some(f) ==> forall|s: &SymbolEntry| f.requires((s,)),
            j <= symbols.len(),
            verdicts.len() == j,
            forall|k: int|
                0 <= k < j && symbols[k].name@ == name@ ==> match shape {
                    None => #[trigger] verdicts[k],
                    Some(f) => f.ensures((&symbols[k],), verdicts[k]),
                },
            locations_in(
                out@,
                uri@,
                selection_ranges(pick(symbols, local_keep(symbols, name@, verdicts), j as int)),
            ),
        decreases symbols.len() - j,
    {
        let sym = &fd.symbols[j];
        let named = str_eq(sym.name.as_str(), name);
        let accepted = if named {
            match &shape {
                None => true,
                Some(f) => f(sym),
            }
        } else {
            true
        };
        let ghost before = verdicts;
        proof {
            verdicts = verdicts.push(accepted);
            assert forall|k: int| 0 <= k < j implies #[trigger] local_keep(symbols, name@, verdicts)(k)
                == local_keep(symbols, name@, before)(k) by {
                assert(verdicts[k] == before[k]);
            }
            lemma_pick_agree(symbols, local_keep(symbols, name@, verdicts), local_keep(symbols, name@, before), j as int);
        }
        if named && accepted {
            out.push(Location { uri: uri.to_owned(), range: sym.selection_range });
        }
        j = j + 1;
        proof {
            let p = pick(symbols, local_keep(symbols, name@, verdicts), j as int);
            assert(selection_ranges(p) =~= if named && accepted {
                selection_ranges(pick(symbols, local_keep(symbols, name@, before), j - 1)).push(
                    symbols[j - 1].selection_range,
                )
            } else {
                selection_ranges(pick(symbols, local_keep(symbols, name@, before), j - 1))
            });
        }
    }
    proof {
        assert(shape_verdicts(shape, symbols, name@, verdicts));
    }
    out
}

/// Picking with two predicates that agree below `n` picks the same.
proof fn lemma_pick_agree<T>(s: Seq<T>, a: spec_fn(int) -> bool, b: spec_fn(int) -> bool, n: int)
    requires
        forall|k: int| 0 <= k < n ==> #[trigger] a(k) == b(k),
    ensures
        pick(s, a, n) == pick(s, b, n),
    decreases n,
{
    if n > 0 {
        lemma_pick_agree(s, a, b, n - 1);
    }
}

/// Symbol `j` of `symbols` is named `name` and its range encloses `inner`.
pub open spec fn encloses_named(symbols: Seq<SymbolEntry>, name: Seq<char>, inner: Range) -> spec_fn(
    int,
) -> bool {
    |j: int| symbols[j].name@ == name && position_le(symbols[j].range.start, inner.start)
        && position_le(inner.end, symbols[j].range.end)
}

/// Whether a location that a text search found for `name` can be the
/// target of a call of the shape `accepts` checks: the first symbol of its
/// indexed file `file` named `name` whose range encloses the location must
/// be accepted. When the file is not indexed or holds no such symbol the
/// location is kept: the arity check only fires when it can be answered.
pub fn rg_location_satisfies_call_shape<F: Fn(&SymbolEntry) -> bool>(
    file: Option<&FileData>,
    location: &Location,
    name: &str,
    accepts: F,
) -> (r: bool)
    requires
        forall|s: &SymbolEntry| accepts.requires((s,)),
    ensures
        match file {
            None => r,
            Some(fd) => {
                let k = first_pos(0, fd.symbols@.len() as int, encloses_named(fd.symbols@, name@, location.range));
                if k == -1 {
                    r
                } else {
                    accepts.ensures((&fd.symbols@[k],), r)
                }
            },
        },
{
    let fd = match file {
        None => return true,
        Some(fd) => fd,
    };
    let ghost pred = encloses_named(fd.symbols@, name@, location.range);
    let mut j: usize = 0;
    while j < fd.symbols.len()
        invariant
            forall|s: &SymbolEntry| accepts.requires((s,)),
            file == Some(fd),
            pred == encloses_named(fd.symbols@, name@, location.range),
            j <= fd.symbols@.len(),
            forall|k: int| 0 <= k < j ==> !#[trigger] pred(k),
        decreases fd.symbols.len() - j,
    {
        let sym = &fd.symbols[j];
        if str_eq(sym.name.as_str(), name) && range_encloses(sym.range, location.range) {
            proof {
                assert(pred(j as int));
                lemma_first_pos_unique(0, fd.symbols@.len() as int, pred, j as int);
            }
            return accepts(sym);
        }
        proof {
            assert(!pred(j as int));
        }
        j = j + 1;
    }
    proof {
        lemma_first_pos_unique(0, fd.symbols@.len() as int, pred, -1);
    }
    true
}

/// Location `j` is in a Swift file (by its path in `paths`).
pub open spec fn swift_at(paths: Seq<String>) -> spec_fn(int) -> bool {
    |j: int| language_of_path(paths[j]@) == Language::Swift
}

/// The Swift step's preference: the locations whose file is a Swift file
/// (`paths[j]` is the file path of `locs[j]`) when there is any, else all
/// of them.
pub fn prefer_swift_locations(locs: Vec<Location>, paths: &Vec<String>) -> (out: Vec<Location>)
    requires
        paths@.len() == locs@.len(),
    ensures
        ({
            let swift = pick(locs@, swift_at(paths@), locs@.len() as int);
            out@ == if swift.len() > 0 {
                swift
            } else {
                locs@
            }
        }),
{
    let ghost keep = swift_at(paths@);
    let mut swift: Vec<Location> = Vec::new();
    let mut j: usize = 0;
    while j < locs.len()
        invariant
            keep == swift_at(paths@),
            paths@.len() == locs@.len(),
            j <= locs@.len(),
            swift@ == pick(locs@, keep, j as int),
        decreases locs.len() - j,
    {
        if Language::from_path(paths[j].as_str()) == Language::Swift {
            swift.push(locs[j].duplicate());
        }
        j = j + 1;
    }
    if swift.len() > 0 {
        swift
    } else {
        locs
    }
}

// ─── Laws of the chain ───────────────────────────────────────────────────────

/// Every policy walks the same steps in one fixed order: the step run after
/// `step` comes later in that order and is one the policy allows, and every
/// step between the two is one it forbids; a pass starts at the earliest
/// step it allows.
pub proof fn law_chain_walks_one_fixed_order(cfg: ChainConfig, step: ChainStep, next: ChainStep)
    requires
        after_action(cfg, step, StepOutcome::NotFound) == ChainAction::Run(next),
    ensures
        step_rank(step) < step_rank(next),
        step_enabled(cfg, next),
        forall|u: ChainStep|
            step_rank(step) < step_rank(u) < step_rank(next) ==> !#[trigger] step_enabled(cfg, u),
{
    lemma_at_rank(step);
    lemma_next_enabled(cfg, step_rank(step) + 1);
    assert forall|u: ChainStep| step_rank(step) < step_rank(u) < step_rank(next) implies !#[trigger] step_enabled(
        cfg,
        u,
    ) by {
        lemma_at_rank(u);
        assert(!step_enabled(cfg, step_at(step_rank(u))));
    }
}

/// A pass starts with the earliest step it allows, and every pass looks at
/// the current file's own symbols before anything else is searched.
pub proof fn law_chain_starts_local(cfg: ChainConfig)
    ensures
        start_action(cfg) == (if step_enabled(cfg, ChainStep::IndexCurrentFile) {
            ChainAction::Run(ChainStep::IndexCurrentFile)
        } else {
            ChainAction::Run(ChainStep::Local)
        }),
        after_action(cfg, ChainStep::IndexCurrentFile, StepOutcome::NotFound) == ChainAction::Run(
            ChainStep::Local,
        ),
{
    reveal_with_fuel(next_enabled, 3);
}

/// A find always ends the chain with what was found, and a stop always ends
/// it with nothing, whatever the step and policy.
pub proof fn law_first_find_wins(cfg: ChainConfig, step: ChainStep)
    ensures
        after_action(cfg, step, StepOutcome::Found) == ChainAction::ReturnFound,
        after_action(cfg, step, StepOutcome::Stop) == ChainAction::ReturnNothing,
{
}

/// The steps that leave the in-memory index (reading or indexing a file,
/// searching the project or a package directory, walking the hierarchy,
/// checking source roots on disk).
pub open spec fn leaves_index(s: ChainStep) -> bool {
    s == ChainStep::IndexCurrentFile || s == ChainStep::StarImportsSearch || s
        == ChainStep::Hierarchy || s == ChainStep::ImportPackageGate || s
        == ChainStep::ProjectSearch
}

/// Only the navigation policy ever leaves the in-memory index.
pub proof fn law_only_full_leaves_the_index(cfg: ChainConfig, s: ChainStep)
    ensures
        step_enabled(cfg, s) && leaves_index(s) ==> cfg.io == ResolveIo::Full,
{
}

/// The tail of the chain by policy: the first global definition under
/// `NoRg` alone, the ambiguity-safe tail under `Full`, `IndexOnly` and
/// `HierarchyAmbiguitySafe`, and no tail at all under `ScopedOnly`.
pub proof fn law_tail_by_policy(cfg: ChainConfig)
    ensures
        step_enabled(cfg, ChainStep::FirstDefinition) <==> cfg.io == ResolveIo::NoRg,
        step_enabled(cfg, ChainStep::AmbiguitySafeTail) <==> (cfg.io == ResolveIo::Full || cfg.io
            == ResolveIo::IndexOnly || cfg.io == ResolveIo::HierarchyAmbiguitySafe),
        cfg.io == ResolveIo::ScopedOnly ==> !step_enabled(cfg, ChainStep::FirstDefinition)
            && !step_enabled(cfg, ChainStep::AmbiguitySafeTail) && !step_enabled(
            cfg,
            ChainStep::PlatformEquivalent,
        ),
{
}

// ─── Auto-import candidates ────────────────────────────────────────────────

/// Entry `i` of `importable` is the one for `name`.
pub open spec fn entry_for(importable: Seq<(String, Vec<String>)>, name: Seq<char>) -> spec_fn(int) -> bool {
    |i: int| importable[i].0@ == name
}

/// The fully-qualified names recorded for the simple name `name` in
/// `importable` (simple name → importable FQNs, each name once): those of
/// its entry, none when it has no entry.
pub open spec fn fqns_recorded(importable: Seq<(String, Vec<String>)>, name: Seq<char>) -> Seq<Seq<char>> {
    let k = first_pos(0, importable.len() as int, entry_for(importable, name));
    if k == -1 {
        Seq::empty()
    } else {
        importable[k].1@.map_values(|s: String| s@)
    }
}

/// All importable FQNs for a simple symbol name (`"Composable"`), read from
/// the index's simple-name → FQNs table `importable` (see
/// [`fqns_recorded`]).
pub fn fqns_for_name(importable: &Vec<(String, Vec<String>)>, name: &str) -> (r: Vec<String>)
    ensures
        r.deep_view() == fqns_recorded(importable@, name@),
{
    let ghost pred = entry_for(importable@, name@);
    proof {
        lemma_first_pos(0, importable@.len() as int, pred);
    }
    let mut i: usize = 0;
    while i < importable.len()
        invariant
            pred == entry_for(importable@, name@),
            i <= importable@.len(),
            forall|j: int| 0 <= j < i ==> !#[trigger] pred(j),
            first_pos(0, importable@.len() as int, pred) == -1 || (0 <= first_pos(
                0,
                importable@.len() as int,
                pred,
            ) < importable@.len() && pred(first_pos(0, importable@.len() as int, pred))),
            forall|m: int|
                0 <= m < importable@.len() && (first_pos(0, importable@.len() as int, pred) == -1 || m
                    < first_pos(0, importable@.len() as int, pred)) ==> !#[trigger] pred(m),
        decreases importable.len() - i,
    {
        if str_eq(importable[i].0.as_str(), name) {
            assert(pred(i as int));
            let r = copy_strings(importable[i].1.as_slice());
            assert(r.deep_view() =~= importable@[i as int].1@.map_values(|s: String| s@));
            return r;
        }
        i = i + 1;
    }
    let r: Vec<String> = Vec::new();
    assert(r.deep_view() =~= Seq::<Seq<char>>::empty());
    r
}

} // verus!
