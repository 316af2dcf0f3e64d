//! The candidates bare-word completion offers from the index, tier by tier:
//! the file itself (tier 0), then the other files of its package and the
//! packages it star-imports (tier 1). Each candidate goes through
//! [`BareCompleter::add`](crate::completion_items::BareCompleter::add), which
//! applies the prefix gates and keeps each name once.

use vstd::prelude::*;

use crate::completion::{match_score, match_score_spec};
use crate::completion_items::{
    accepted_score, completion_kind_of, entry_for, symbol_kind_to_completion, BareCompleter, CompletionEntry,
    CompletionItemKind,
};
use crate::extensions::lemma_push_fresh_no_duplicates;
use crate::tie_break::string_in;
use crate::package_scope::PackageFile;
use crate::types::{class_kind, str_eq, FileData, ImportEntry, SourceSet, SymbolEntry, SymbolKind};

verus! {

/// One candidate for bare-word completion.
pub struct CompletionOffer {
    pub name: String,
    pub kind: CompletionItemKind,
    /// 0 for the file itself, 1 for its package and star-imported packages.
    pub tier: u8,
    pub detail: String,
    /// Where the symbol is declared (URI, line, column), for the data the
    /// client hands back when it resolves the item.
    pub position: Option<(String, u32, u32)>,
}

/// `o` offers symbol `s`, declared in the file at `uri`, at tier `tier`.
pub open spec fn symbol_offer(o: CompletionOffer, s: SymbolEntry, uri: Seq<char>, tier: u8) -> bool {
    &&& o.name@ == s.name@
    &&& o.kind == completion_kind_of(s.kind)
    &&& o.tier == tier
    &&& o.detail@ == s.detail@
    &&& o.position matches Some((u, l, c)) && u@ == uri && l == s.selection_range.start.line && c
        == s.selection_range.start.character
}

/// `o` offers a declared name (a parameter or local) of the file itself.
pub open spec fn declared_name_offer(o: CompletionOffer, name: Seq<char>) -> bool {
    &&& o.name@ == name
    &&& o.kind == CompletionItemKind::Variable
    &&& o.tier == 0
    &&& o.detail@.len() == 0
    &&& o.position is None
}

fn offer_symbol(s: &SymbolEntry, uri: &str, tier: u8) -> (o: CompletionOffer)
    ensures
        symbol_offer(o, *s, uri@, tier),
{
    CompletionOffer {
        name: s.name.clone(),
        kind: symbol_kind_to_completion(s.kind),
        tier,
        detail: s.detail.clone(),
        position: Some((uri.to_owned(), s.selection_range.start.line, s.selection_range.start.character)),
    }
}

/// Tier 0: every symbol of the file at `uri` in file order, then, when the
/// prefix starts lowercase (`lowercase_mode`), its declared names
/// (parameters and locals the symbol table does not hold). Nothing when the
/// file is not indexed.
pub fn local_file_offers(file: Option<&FileData>, uri: &str, lowercase_mode: bool) -> (out: Vec<CompletionOffer>)
    ensures
        match file {
            None => out@.len() == 0,
            Some(fd) => {
                let n = fd.symbols@.len();
                &&& out@.len() == n + (if lowercase_mode { fd.declared_names@.len() } else { 0 })
                &&& forall|i: int| 0 <= i < n ==> symbol_offer(#[trigger] out@[i], fd.symbols@[i], uri@, 0)
                &&& lowercase_mode ==> forall|j: int|
                    0 <= j < fd.declared_names@.len() ==> declared_name_offer(
                        #[trigger] out@[n + j],
                        fd.declared_names@[j]@,
                    )
            },
        },
{
    let fd = match file {
        None => return Vec::new(),
        Some(fd) => fd,
    };
    let mut out: Vec<CompletionOffer> = Vec::new();
    let mut i: usize = 0;
    while i < fd.symbols.len()
        invariant
            i <= fd.symbols@.len(),
            out@.len() == i,
            forall|k: int| 0 <= k < i ==> symbol_offer(#[trigger] out@[k], fd.symbols@[k], uri@, 0),
        decreases fd.symbols.len() - i,
    {
        out.push(offer_symbol(&fd.symbols[i], uri, 0));
        i = i + 1;
    }
    if lowercase_mode {
        let n = fd.symbols.len();
        let mut j: usize = 0;
        while j < fd.declared_names.len()
            invariant
                n == fd.symbols@.len(),
                j <= fd.declared_names@.len(),
                out@.len() == n + j,
                forall|k: int| 0 <= k < n ==> symbol_offer(#[trigger] out@[k], fd.symbols@[k], uri@, 0),
                forall|k: int| 0 <= k < j ==> declared_name_offer(#[trigger] out@[n + k], fd.declared_names@[k]@),
            decreases fd.declared_names.len() - j,
        {
            out.push(CompletionOffer {
                name: fd.declared_names[j].clone(),
                kind: CompletionItemKind::Variable,
                tier: 0,
                detail: String::new(),
                position: None,
            });
            j = j + 1;
        }
    }
    out
}

/// A test-source file's symbols are offered only to a test-source caller.
pub open spec fn visible_to(file_set: SourceSet, caller: SourceSet) -> bool {
    !(file_set == SourceSet::Test && caller != SourceSet::Test)
}

/// The symbols offered from the package file `f`: none when it is the
/// caller's own file, not indexed, or a test file seen from outside the
/// tests; else its symbols, without the type declarations when
/// `skip_types`.
pub open spec fn file_offered_symbols(
    f: PackageFile,
    from_uri: Seq<char>,
    caller: SourceSet,
    skip_types: bool,
) -> Seq<SymbolEntry> {
    match f.data {
        Some(d) => if f.uri@ != from_uri && visible_to(d.source_set, caller) {
            d.symbols@.filter(|s: SymbolEntry| !(skip_types && class_kind(s.kind)))
        } else {
            Seq::empty()
        },
        None => Seq::empty(),
    }
}

/// The (URI, symbol) pairs offered from the first `n` of `files`, in order.
pub open spec fn offered_pairs(
    files: Seq<PackageFile>,
    from_uri: Seq<char>,
    caller: SourceSet,
    skip_types: bool,
    n: int,
) -> Seq<(Seq<char>, SymbolEntry)>
    decreases n,
{
    if n <= 0 {
        Seq::empty()
    } else {
        offered_pairs(files, from_uri, caller, skip_types, n - 1) + file_offered_symbols(
            files[n - 1],
            from_uri,
            caller,
            skip_types,
        ).map_values(|s: SymbolEntry| (files[n - 1].uri@, s))
    }
}

/// `out` offers exactly `pairs`, in order, at tier 1.
pub open spec fn offers_pairs(out: Seq<CompletionOffer>, pairs: Seq<(Seq<char>, SymbolEntry)>) -> bool {
    &&& out.len() == pairs.len()
    &&& forall|i: int| 0 <= i < out.len() ==> symbol_offer(#[trigger] out[i], pairs[i].1, pairs[i].0, 1)
}

/// Append the offers of the symbols of package file `f` to `out`.
fn push_file_offers(
    out: &mut Vec<CompletionOffer>,
    f: &PackageFile,
    from_uri: &str,
    caller: SourceSet,
    skip_types: bool,
)
    ensures
        final(out)@.len() == old(out)@.len() + file_offered_symbols(*f, from_uri@, caller, skip_types).len(),
        forall|i: int| 0 <= i < old(out)@.len() ==> #[trigger] final(out)@[i] == old(out)@[i],
        forall|i: int|
            0 <= i < file_offered_symbols(*f, from_uri@, caller, skip_types).len() ==> symbol_offer(
                #[trigger] final(out)@[old(out)@.len() + i],
                file_offered_symbols(*f, from_uri@, caller, skip_types)[i],
                f.uri@,
                1,
            ),
{
    let d = match f.data {
        None => return,
        Some(d) => d,
    };
    if str_eq(f.uri, from_uri) {
        return;
    }
    if d.source_set == SourceSet::Test && caller != SourceSet::Test {
        return;
    }
    let ghost base = old(out)@.len();
    let ghost keep = |s: SymbolEntry| !(skip_types && class_kind(s.kind));
    let mut j: usize = 0;
    while j < d.symbols.len()
        invariant
            base == old(out)@.len(),
            keep == (|s: SymbolEntry| !(skip_types && class_kind(s.kind))),
            j <= d.symbols@.len(),
            out@.len() == base + d.symbols@.take(j as int).filter(keep).len(),
            forall|i: int| 0 <= i < base ==> #[trigger] out@[i] == old(out)@[i],
            forall|i: int|
                0 <= i < d.symbols@.take(j as int).filter(keep).len() ==> symbol_offer(
                    #[trigger] out@[base + i],
                    d.symbols@.take(j as int).filter(keep)[i],
                    f.uri@,
                    1,
                ),
        decreases d.symbols.len() - j,
    {
        let s = &d.symbols[j];
        proof {
            assert(d.symbols@.take(j + 1int) =~= d.symbols@.take(j as int).push(*s));
            d.symbols@.take(j as int).lemma_filter_push(*s, keep);
        }
        let is_type = match s.kind {
            SymbolKind::Class | SymbolKind::Interface | SymbolKind::Struct | SymbolKind::Enum
            | SymbolKind::Object => true,
            _ => false,
        };
        if !(skip_types && is_type) {
            out.push(offer_symbol(s, f.uri, 1));
        }
        j = j + 1;
    }
    proof {
        assert(d.symbols@.take(d.symbols@.len() as int) =~= d.symbols@);
    }
}

/// Tier 1, same package: the symbols of the other files the index lists for
/// the caller's package (`files`), file by file; a test file's symbols only
/// for a test caller (`caller`). Nothing when the caller has no package or
/// the index lists no file for it.
pub fn same_package_offers(
    own_package: Option<&str>,
    from_uri: &str,
    files: Option<&Vec<PackageFile>>,
    caller: SourceSet,
) -> (out: Vec<CompletionOffer>)
    ensures
        match (own_package, files) {
            (Some(p), Some(fs)) => if p@.len() > 0 {
                offers_pairs(out@, offered_pairs(fs@, from_uri@, caller, false, fs@.len() as int))
            } else {
                out@.len() == 0
            },
            _ => out@.len() == 0,
        },
{
    match own_package {
        None => return Vec::new(),
        Some(p) => if p.unicode_len() == 0 {
            return Vec::new();
        },
    }
    let fs = match files {
        None => return Vec::new(),
        Some(fs) => fs,
    };
    let mut out: Vec<CompletionOffer> = Vec::new();
    collect_file_offers(&mut out, fs, from_uri, caller, false);
    assert(out@.skip(0) =~= out@);
    out
}

/// Append the offers of every file of `fs` to `out`.
fn collect_file_offers(
    out: &mut Vec<CompletionOffer>,
    fs: &Vec<PackageFile>,
    from_uri: &str,
    caller: SourceSet,
    skip_types: bool,
)
    ensures
        final(out)@.len() >= old(out)@.len(),
        final(out)@.take(old(out)@.len() as int) == old(out)@,
        offers_pairs(
            final(out)@.skip(old(out)@.len() as int),
            offered_pairs(fs@, from_uri@, caller, skip_types, fs@.len() as int),
        ),
{
    let ghost base = old(out)@;
    let mut k: usize = 0;
    while k < fs.len()
        invariant
            base == old(out)@,
            k <= fs@.len(),
            out@.len() >= base.len(),
            out@.take(base.len() as int) == base,
            offers_pairs(out@.skip(base.len() as int), offered_pairs(fs@, from_uri@, caller, skip_types, k as int)),
        decreases fs.len() - k,
    {
        let ghost before = out@;
        push_file_offers(out, &fs[k], from_uri, caller, skip_types);
        proof {
            let prev = offered_pairs(fs@, from_uri@, caller, skip_types, k as int);
            let syms = file_offered_symbols(fs@[k as int], from_uri@, caller, skip_types);
            let next = offered_pairs(fs@, from_uri@, caller, skip_types, k + 1int);
            assert(next == prev + syms.map_values(|s: SymbolEntry| (fs@[k as int].uri@, s)));
            let tail = out@.skip(base.len() as int);
            assert(out@.take(base.len() as int) =~= base) by {
                assert forall|i: int| 0 <= i < base.len() implies out@[i] == base[i] by {
                    assert(out@[i] == before[i]);
                    assert(before.take(base.len() as int)[i] == base[i]);
                }
            }
            assert forall|i: int| 0 <= i < tail.len() implies symbol_offer(#[trigger] tail[i], next[i].1, next[i].0, 1) by {
                if i < prev.len() {
                    assert(tail[i] == out@[base.len() + i]);
                    assert(out@[base.len() + i] == before[base.len() + i]);
                    assert(before.skip(base.len() as int)[i] == before[base.len() + i]);
                } else {
                    assert(tail[i] == out@[before.len() + (i - prev.len())]);
                }
            }
        }
        k = k + 1;
    }
}

/// One package of the package index with its files.
pub struct PackageFiles<'a> {
    pub package: String,
    pub files: Vec<PackageFile<'a>>,
}

/// The files the index lists for package `pkg`: those of its first entry
/// named `pkg`, none when it has no such entry.
pub open spec fn lookup_package<'a>(index: Seq<PackageFiles<'a>>, pkg: Seq<char>) -> Seq<PackageFile<'a>>
    decreases index.len(),
{
    if index.len() == 0 {
        Seq::empty()
    } else if index[0].package@ == pkg {
        index[0].files@
    } else {
        lookup_package(index.drop_first(), pkg)
    }
}

/// The files visited for the first `n` imports: for each star import in
/// order, the files the index lists for its package.
pub open spec fn star_files<'a>(imports: Seq<ImportEntry>, index: Seq<PackageFiles<'a>>, n: int) -> Seq<PackageFile<'a>>
    decreases n,
{
    if n <= 0 {
        Seq::empty()
    } else {
        star_files(imports, index, n - 1) + if imports[n - 1].is_star {
            lookup_package(index, imports[n - 1].full_path@)
        } else {
            Seq::empty()
        }
    }
}

fn find_package<'x, 'a>(index: &'x Vec<PackageFiles<'a>>, pkg: &str) -> (r: Option<&'x PackageFiles<'a>>)
    ensures
        match r {
            Some(e) => e.files@ == lookup_package(index@, pkg@),
            None => lookup_package(index@, pkg@).len() == 0,
        },
{
    let mut i: usize = 0;
    assert(index@.skip(0) =~= index@);
    while i < index.len()
        invariant
            i <= index@.len(),
            lookup_package(index@, pkg@) == lookup_package(index@.skip(i as int), pkg@),
        decreases index.len() - i,
    {
        proof {
            assert(index@.skip(i as int).drop_first() =~= index@.skip(i + 1int));
        }
        if str_eq(index[i].package.as_str(), pkg) {
            return Some(&index[i]);
        }
        i = i + 1;
    }
    None
}

/// Tier 1, star imports (`import pkg.*`), for a lowercase prefix outside an
/// annotation: the functions and properties (not the type declarations,
/// offered by the cross-package tier) of the files the index lists for each
/// star-imported package, in import order; the caller's own file and, for a
/// caller outside the tests, test files are skipped.
pub fn star_import_offers(
    annotation_only: bool,
    lowercase_mode: bool,
    imports: &Vec<ImportEntry>,
    index: &Vec<PackageFiles>,
    from_uri: &str,
    caller: SourceSet,
) -> (out: Vec<CompletionOffer>)
    ensures
        if annotation_only || !lowercase_mode {
            out@.len() == 0
        } else {
            let files = star_files(imports@, index@, imports@.len() as int);
            offers_pairs(out@, offered_pairs(files, from_uri@, caller, true, files.len() as int))
        },
{
    let mut out: Vec<CompletionOffer> = Vec::new();
    if annotation_only || !lowercase_mode {
        return out;
    }
    let mut k: usize = 0;
    while k < imports.len()
        invariant
            k <= imports@.len(),
            offers_pairs(
                out@,
                offered_pairs(
                    star_files(imports@, index@, k as int),
                    from_uri@,
                    caller,
                    true,
                    star_files(imports@, index@, k as int).len() as int,
                ),
            ),
        decreases imports.len() - k,
    {
        let ghost visited = star_files(imports@, index@, k as int);
        let ghost next = star_files(imports@, index@, k + 1int);
        if imports[k].is_star {
            match find_package(index, imports[k].full_path.as_str()) {
                Some(entry) => {
                    let ghost before = out@;
                    collect_file_offers(&mut out, &entry.files, from_uri, caller, true);
                    proof {
                        assert(next =~= visited + entry.files@);
                        lemma_offered_pairs_append(visited, entry.files@, from_uri@, caller, true);
                        assert forall|q: int| 0 <= q < before.len() implies out@[q] == before[q] by {
                            assert(out@.take(before.len() as int)[q] == out@[q]);
                        }
                        assert(out@ =~= before + out@.skip(before.len() as int));
                        let all = offered_pairs(next, from_uri@, caller, true, next.len() as int);
                        let a = offered_pairs(visited, from_uri@, caller, true, visited.len() as int);
                        let b = offered_pairs(entry.files@, from_uri@, caller, true, entry.files@.len() as int);
                        assert forall|i: int| 0 <= i < out@.len() implies symbol_offer(#[trigger] out@[i], all[i].1, all[i].0, 1) by {
                            if i < before.len() {
                                assert(out@[i] == out@.take(before.len() as int)[i]);
                            } else {
                                assert(out@[i] == out@.skip(before.len() as int)[i - before.len()]);
                            }
                        }
                    }
                },
                None => {
                    proof {
                        assert(next =~= visited);
                    }
                },
            }
        } else {
            proof {
                assert(next =~= visited);
            }
        }
        k = k + 1;
    }
    out
}

/// The pairs offered from two lists of files one after the other are those
/// of the first, then those of the second.
proof fn lemma_offered_pairs_append(
    a: Seq<PackageFile>,
    b: Seq<PackageFile>,
    from_uri: Seq<char>,
    caller: SourceSet,
    skip_types: bool,
)
    ensures
        offered_pairs(a + b, from_uri, caller, skip_types, (a + b).len() as int) == offered_pairs(
            a,
            from_uri,
            caller,
            skip_types,
            a.len() as int,
        ) + offered_pairs(b, from_uri, caller, skip_types, b.len() as int),
    decreases b.len(),
{
    if b.len() == 0 {
        assert(a + b =~= a);
        lemma_offered_pairs_prefix(a + b, a, from_uri, caller, skip_types, a.len() as int);
        assert(offered_pairs(b, from_uri, caller, skip_types, 0) =~= Seq::empty());
    } else {
        let b1 = b.drop_last();
        lemma_offered_pairs_append(a, b1, from_uri, caller, skip_types);
        assert((a + b).drop_last() =~= a + b1);
        lemma_offered_pairs_prefix(a + b, a + b1, from_uri, caller, skip_types, (a + b1).len() as int);
        lemma_offered_pairs_prefix(b, b1, from_uri, caller, skip_types, b1.len() as int);
        assert((a + b)[(a + b).len() - 1] == b[b.len() - 1]);
    }
}

/// Pairs offered from a prefix depend only on the prefix.
proof fn lemma_offered_pairs_prefix(
    s: Seq<PackageFile>,
    t: Seq<PackageFile>,
    from_uri: Seq<char>,
    caller: SourceSet,
    skip_types: bool,
    n: int,
)
    requires
        0 <= n <= t.len(),
        n <= s.len(),
        forall|i: int| 0 <= i < n ==> s[i] == t[i],
    ensures
        offered_pairs(s, from_uri, caller, skip_types, n) == offered_pairs(t, from_uri, caller, skip_types, n),
    decreases n,
{
    if n > 0 {
        lemma_offered_pairs_prefix(s, t, from_uri, caller, skip_types, n - 1);
    }
}

// ─── Inherited members ──────────────────────────────────────────────────────

impl BareCompleter {
    /// Offer `item`, a member the class enclosing the cursor inherits from an
    /// ancestor (private members already left out; protected ones are
    /// visible from the subclass): it is added, once, unless only annotation
    /// names are wanted, when its label matches `prefix` and is new;
    /// otherwise nothing changes.
    pub fn add_inherited_member(&mut self, item: CompletionEntry, prefix: &str)
        requires
            old(self).wf(),
        ensures
            final(self).wf(),
            final(self).lowercase_mode == old(self).lowercase_mode,
            final(self).uppercase_mode == old(self).uppercase_mode,
            final(self).camel_mode == old(self).camel_mode,
            final(self).local_max_score == old(self).local_max_score,
            final(self).snippets == old(self).snippets,
            final(self).annotation_only == old(self).annotation_only,
            ({
                let accepted = !old(self).annotation_only && match_score_spec(item.label@, prefix@) is Some
                    && !old(self).seen.deep_view().contains(item.label@);
                if accepted {
                    &&& final(self).items@ == old(self).items@.push(item)
                    &&& final(self).seen.deep_view() == old(self).seen.deep_view().push(item.label@)
                } else {
                    &&& final(self).items@ == old(self).items@
                    &&& final(self).seen.deep_view() == old(self).seen.deep_view()
                }
            }),
    {
        if self.annotation_only {
            return;
        }
        if match_score(item.label.as_str(), prefix).is_none() {
            return;
        }
        if string_in(item.label.as_str(), &self.seen) {
            return;
        }
        let label = item.label.clone();
        let ghost seen0 = self.seen.deep_view();
        self.items.push(item);
        self.seen.push(label);
        proof {
            assert(self.seen.deep_view() =~= seen0.push(item.label@));
            lemma_push_fresh_no_duplicates(seen0, item.label@);
        }
    }
}


// ─── Offers into the completer ──────────────────────────────────────────────

/// The offers among `offers[i..]` that enter, in order, a completer with the
/// gates of `c` (see [`accepted_score`]) that has used the names `seen`,
/// each with the score it enters under; each entering offer adds its name.
pub open spec fn offers_taken(
    c: BareCompleter,
    seen: Seq<Seq<char>>,
    offers: Seq<CompletionOffer>,
    i: int,
    prefix: Seq<char>,
) -> Seq<(CompletionOffer, u8)>
    decreases offers.len() - i,
{
    if i < 0 || i >= offers.len() {
        Seq::empty()
    } else {
        match accepted_score(c, offers[i].name@, offers[i].kind, prefix) {
            Some(s) => if !seen.contains(offers[i].name@) {
                seq![(offers[i], s)] + offers_taken(c, seen.push(offers[i].name@), offers, i + 1, prefix)
            } else {
                offers_taken(c, seen, offers, i + 1, prefix)
            },
            None => offers_taken(c, seen, offers, i + 1, prefix),
        }
    }
}

/// `v` is the item data for offer `o`: none without a position; else what
/// `data_of` gave for the position's URI, line and column.
pub open spec fn offer_data<D: Fn(&String, u32, u32) -> serde_json::Value>(
    data_of: D,
    o: CompletionOffer,
    v: Option<serde_json::Value>,
) -> bool {
    match o.position {
        None => v is None,
        Some((u, l, col)) => v matches Some(x) && call_ensures(data_of, (&u, l, col), x),
    }
}

impl BareCompleter {
    /// Offer each of `offers` in turn (see [`BareCompleter::add`]), with the
    /// item data `data_of` gives for its declaring position (none without
    /// one). The offers that enter are exactly those of [`offers_taken`], in
    /// order: each adds its name and its item.
    pub fn add_offers<D: Fn(&String, u32, u32) -> serde_json::Value>(
        &mut self,
        offers: &Vec<CompletionOffer>,
        prefix: &str,
        data_of: D,
    )
        requires
            old(self).wf(),
            forall|u: &String, l: u32, col: u32| data_of.requires((u, l, col)),
        ensures
            final(self).wf(),
            final(self).lowercase_mode == old(self).lowercase_mode,
            final(self).uppercase_mode == old(self).uppercase_mode,
            final(self).camel_mode == old(self).camel_mode,
            final(self).local_max_score == old(self).local_max_score,
            final(self).snippets == old(self).snippets,
            final(self).annotation_only == old(self).annotation_only,
            ({
                let acc = offers_taken(*old(self), old(self).seen.deep_view(), offers@, 0, prefix@);
                let n = old(self).items@.len();
                &&& final(self).items@.len() == n + acc.len()
                &&& final(self).items@.take(n as int) == old(self).items@
                &&& forall|k: int|
                    0 <= k < acc.len() ==> {
                        let e = #[trigger] final(self).items@[n + k];
                        &&& offer_data(data_of, acc[k].0, e.data)
                        &&& entry_for(
                            *old(self),
                            e,
                            acc[k].0.name@,
                            acc[k].0.kind,
                            acc[k].0.tier,
                            acc[k].1,
                            acc[k].0.detail@,
                            e.data,
                        )
                    }
                &&& final(self).seen.deep_view() == old(self).seen.deep_view() + acc.map_values(
                    |x: (CompletionOffer, u8)| x.0.name@,
                )
            }),
    {
        let ghost c0 = *self;
        let ghost n0 = self.items@.len();
        let ghost seen0 = self.seen.deep_view();
        let ghost mut done: Seq<(CompletionOffer, u8)> = Seq::empty();
        proof {
            assert(self.items@.take(n0 as int) =~= c0.items@);
            assert(seen0 + done.map_values(|x: (CompletionOffer, u8)| x.0.name@) =~= seen0);
        }
        let mut i: usize = 0;
        while i < offers.len()
            invariant
                self.wf(),
                forall|u: &String, l: u32, col: u32| data_of.requires((u, l, col)),
                c0 == *old(self),
                self.lowercase_mode == c0.lowercase_mode,
                self.uppercase_mode == c0.uppercase_mode,
                self.camel_mode == c0.camel_mode,
                self.local_max_score == c0.local_max_score,
                self.snippets == c0.snippets,
                self.annotation_only == c0.annotation_only,
                n0 == c0.items@.len(),
                seen0 == c0.seen.deep_view(),
                i <= offers@.len(),
                self.items@.len() == n0 + done.len(),
                self.items@.take(n0 as int) == c0.items@,
                self.seen.deep_view() == seen0 + done.map_values(|x: (CompletionOffer, u8)| x.0.name@),
                done + offers_taken(c0, self.seen.deep_view(), offers@, i as int, prefix@) == offers_taken(
                    c0,
                    seen0,
                    offers@,
                    0,
                    prefix@,
                ),
                forall|k: int|
                    0 <= k < done.len() ==> {
                        let e = #[trigger] self.items@[n0 + k];
                        &&& offer_data(data_of, done[k].0, e.data)
                        &&& entry_for(c0, e, done[k].0.name@, done[k].0.kind, done[k].0.tier, done[k].1, done[k].0.detail@, e.data)
                    },
            decreases offers.len() - i,
        {
            let o = &offers[i];
            let data = match &o.position {
                Some((u, l, col)) => Some(data_of(u, *l, *col)),
                None => None,
            };
            let ghost before_items = self.items@;
            let ghost before_seen = self.seen.deep_view();
            let ghost before_done = done;
            proof {
                assert(offer_data(data_of, offers@[i as int], data));
            }
            self.add(o.name.as_str(), o.kind, o.tier, prefix, o.detail.as_str(), data);
            proof {
                let rest = offers_taken(c0, self.seen.deep_view(), offers@, i + 1, prefix@);
                match accepted_score(c0, o.name@, o.kind, prefix@) {
                    Some(s) => {
                        if !before_seen.contains(o.name@) {
                            done = before_done.push((offers@[i as int], s));
                            assert(done + rest =~= before_done + (seq![(offers@[i as int], s)] + rest));
                            assert(done.map_values(|x: (CompletionOffer, u8)| x.0.name@) =~= before_done.map_values(
                                |x: (CompletionOffer, u8)| x.0.name@,
                            ).push(o.name@));
                            assert(self.items@.take(n0 as int) =~= before_items.take(n0 as int));
                            assert forall|k: int| 0 <= k < done.len() implies {
                                let e = #[trigger] self.items@[n0 + k];
                                &&& offer_data(data_of, done[k].0, e.data)
                                &&& entry_for(c0, e, done[k].0.name@, done[k].0.kind, done[k].0.tier, done[k].1, done[k].0.detail@, e.data)
                            } by {
                                if k < before_done.len() {
                                    assert(self.items@[n0 + k] == before_items[n0 + k]);
                                } else {
                                    assert(self.items@[n0 + k] == self.items@.last());
                                }
                            }
                        }
                    },
                    None => {},
                }
            }
            i = i + 1;
        }
        proof {
            assert(done + Seq::<(CompletionOffer, u8)>::empty() =~= done);
        }
    }
}

} // verus!
