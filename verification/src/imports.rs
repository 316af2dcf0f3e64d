//! Import paths and Kotlin's default-import package and type sets.

use vstd::prelude::*;

use crate::segments::{
    join_char, join_strings, split_char, split_str, starts_uppercase, str_starts_uppercase,
};
use crate::resolve::pick;
use crate::segments::{last_segment, last_segment_str};
use crate::text::{first_pos, lemma_first_pos_unique, seq_starts_with, starts_with, str_chars};
use crate::types::{str_eq, FileData, ImportEntry, Location};

verus! {

/// The enclosing-type chain named by a nested import path, outermost first:
/// every segment of `full` except a trailing `symbol`, keeping only the
/// segments that start uppercase.
pub open spec fn container_chain_spec(full: Seq<char>, symbol: Seq<char>) -> Seq<Seq<char>> {
    let segs = split_char(full, '.');
    let body = if segs.last() == symbol {
        segs.drop_last()
    } else {
        segs
    };
    body.filter(type_segment())
}

/// The predicate "this segment names a type" (starts uppercase).
pub open spec fn type_segment() -> spec_fn(Seq<char>) -> bool {
    |seg: Seq<char>| starts_uppercase(seg)
}

/// The enclosing-type chain named by a nested import, outermost-first.
///
/// `com.app.Contract.State.Idle` (symbol `Idle`) → `["Contract", "State"]`.
/// Leading package segments and the symbol itself are dropped; an empty vec
/// means a top-level import.
pub fn import_container_chain(full_path: &str, symbol: &str) -> (out: Vec<String>)
    ensures
        out.deep_view() == container_chain_spec(full_path@, symbol@),
{
    let mut segs = split_str(full_path, '.');
    proof {
        crate::segments::lemma_split_char_nonempty(full_path@, '.');
    }
    let ghost all = segs.deep_view();
    let n = segs.len();
    if str_eq(segs[n - 1].as_str(), symbol) {
        segs.pop();
        proof {
            assert(segs.deep_view() =~= all.drop_last());
        }
    }
    let ghost body = segs.deep_view();
    let ghost pred = type_segment();
    let mut out: Vec<String> = Vec::new();
    let mut i: usize = 0;
    while i < segs.len()
        invariant
            body == segs.deep_view(),
            pred == type_segment(),
            i <= segs@.len(),
            out.deep_view() == body.take(i as int).filter(pred),
        decreases segs.len() - i,
    {
        let ghost before = out.deep_view();
        let keep = str_starts_uppercase(segs[i].as_str());
        if keep {
            out.push(segs[i].clone());
            proof {
                assert(out.deep_view() =~= before.push(body[i as int]));
            }
        }
        proof {
            reveal(Seq::filter);
            let t = body.take(i + 1int);
            assert(t.drop_last() =~= body.take(i as int));
            assert(t.last() == body[i as int]);
            assert(body[i as int] == segs@[i as int]@);
            assert(keep == pred(t.last()));
        }
        i = i + 1;
    }
    proof {
        assert(body.take(segs@.len() as int) =~= body);
    }
    out
}

/// The package part of an import path: the segments before the last one,
/// up to (not including) the first segment that starts uppercase, joined
/// with `.`. `a.b.Name` → `a.b`; `com.app.Contract.Event` → `com.app`;
/// `com.foo.bar` → `com.foo`; a single segment has no package (`""`).
pub open spec fn import_package_prefix_spec(path: Seq<char>) -> Seq<char> {
    let body = split_char(path, '.').drop_last();
    let k = leading_lowercase_count(body);
    join_char(body.take(k as int), '.')
}

/// How many leading segments of `segs` do not start uppercase.
pub open spec fn leading_lowercase_count(segs: Seq<Seq<char>>) -> nat
    decreases segs.len(),
{
    if segs.len() == 0 {
        0
    } else if starts_uppercase(segs[0]) {
        0
    } else {
        1 + leading_lowercase_count(segs.drop_first())
    }
}

proof fn lemma_leading_lowercase_count(segs: Seq<Seq<char>>, k: int)
    requires
        0 <= k <= segs.len(),
        forall|j: int| 0 <= j < k ==> !starts_uppercase(#[trigger] segs[j]),
        k < segs.len() ==> starts_uppercase(segs[k]),
    ensures
        leading_lowercase_count(segs) == k,
    decreases segs.len(),
{
    if segs.len() > 0 && k > 0 {
        assert forall|j: int| 0 <= j < k - 1 implies !starts_uppercase(
            #[trigger] segs.drop_first()[j],
        ) by {
            assert(segs.drop_first()[j] == segs[j + 1]);
        }
        if k - 1 < segs.len() - 1 {
            assert(segs.drop_first()[k - 1] == segs[k]);
        }
        lemma_leading_lowercase_count(segs.drop_first(), k - 1);
    }
}

/// The package an import path lives in (see [`import_package_prefix_spec`]).
pub fn import_package_prefix(path: &str) -> (out: String)
    ensures
        out@ == import_package_prefix_spec(path@),
{
    let mut segs = split_str(path, '.');
    proof {
        crate::segments::lemma_split_char_nonempty(path@, '.');
    }
    let ghost all = segs.deep_view();
    segs.pop();
    proof {
        assert(segs.deep_view() =~= all.drop_last());
    }
    let ghost body = segs.deep_view();
    let mut k: usize = 0;
    let mut stop = false;
    while k < segs.len() && !stop
        invariant
            body == segs.deep_view(),
            k <= segs@.len(),
            forall|j: int| 0 <= j < k ==> !starts_uppercase(#[trigger] body[j]),
            stop ==> k < segs@.len() && starts_uppercase(body[k as int]),
        decreases segs.len() - k + (if stop { 0int } else { 1int }),
    {
        if str_starts_uppercase(segs[k].as_str()) {
            stop = true;
        } else {
            k = k + 1;
        }
    }
    proof {
        lemma_leading_lowercase_count(body, k as int);
    }
    segs.truncate(k);
    proof {
        assert(segs.deep_view() =~= body.take(k as int));
    }
    proof {
        reveal_strlit(".");
    }
    join_strings(&segs, ".")
}

/// Kotlin's default-import packages (JVM target).
pub open spec fn default_import_packages() -> Seq<Seq<char>> {
    seq![
        "kotlin"@,
        "kotlin.annotation"@,
        "kotlin.collections"@,
        "kotlin.comparisons"@,
        "kotlin.io"@,
        "kotlin.ranges"@,
        "kotlin.sequences"@,
        "kotlin.text"@,
        "kotlin.jvm"@,
        "java.lang"@,
    ]
}

/// Whether `needle` equals one of `candidates`.
pub fn str_in(needle: &str, candidates: &[&str]) -> (r: bool)
    ensures
        r == candidates@.map_values(|c: &str| c@).contains(needle@),
{
    let ghost views = candidates@.map_values(|c: &str| c@);
    let mut i: usize = 0;
    while i < candidates.len()
        invariant
            views == candidates@.map_values(|c: &str| c@),
            i <= candidates@.len(),
            forall|j: int| 0 <= j < i ==> views[j] != needle@,
        decreases candidates.len() - i,
    {
        if str_eq(needle, candidates[i]) {
            assert(views[i as int] == needle@);
            return true;
        }
        i = i + 1;
    }
    false
}

/// Kotlin's implicit default-import packages: names declared directly in
/// these are in scope in every file without an `import`.
pub fn is_default_import_package(pkg: &str) -> (r: bool)
    ensures
        r == default_import_packages().contains(pkg@),
{
    let packages: [&str; 10] = [
        "kotlin",
        "kotlin.annotation",
        "kotlin.collections",
        "kotlin.comparisons",
        "kotlin.io",
        "kotlin.ranges",
        "kotlin.sequences",
        "kotlin.text",
        "kotlin.jvm",
        "java.lang",
    ];
    let r = str_in(pkg, packages.as_slice());
    assert(packages@.map_values(|c: &str| c@) =~= default_import_packages());
    r
}


/// Core `kotlin.*` types of the language's default imports (`kotlin`,
/// `kotlin.collections`, `kotlin.sequences`).
pub open spec fn default_import_types() -> Seq<Seq<char>> {
    seq![
        "Number"@,
        "Byte"@,
        "Short"@,
        "Int"@,
        "Long"@,
        "Float"@,
        "Double"@,
        "Char"@,
        "Boolean"@,
        "String"@,
        "CharSequence"@,
        "Any"@,
        "Unit"@,
        "Nothing"@,
        "Comparable"@,
        "Enum"@,
        "Annotation"@,
        "Function"@,
        "Lazy"@,
        "Result"@,
        "Pair"@,
        "Triple"@,
        "Throwable"@,
        "Exception"@,
        "Error"@,
        "RuntimeException"@,
        "Array"@,
        "Iterable"@,
        "Iterator"@,
        "Collection"@,
        "List"@,
        "Set"@,
        "Map"@,
        "MutableIterable"@,
        "MutableCollection"@,
        "MutableList"@,
        "MutableSet"@,
        "MutableMap"@,
        "ArrayList"@,
        "HashMap"@,
        "HashSet"@,
        "LinkedHashMap"@,
        "LinkedHashSet"@,
        "ByteArray"@,
        "CharArray"@,
        "ShortArray"@,
        "IntArray"@,
        "LongArray"@,
        "FloatArray"@,
        "DoubleArray"@,
        "BooleanArray"@,
        "Sequence"@,
    ]
}

/// Core `kotlin.*` types from the language's default imports, the type-level
/// companion of [`is_default_import_package`]: a bare `List` or `Result` is
/// never a missing import.
pub fn is_default_import_type(name: &str) -> (r: bool)
    ensures
        r == default_import_types().contains(name@),
{
    let types: [&str; 52] = [
        "Number",
        "Byte",
        "Short",
        "Int",
        "Long",
        "Float",
        "Double",
        "Char",
        "Boolean",
        "String",
        "CharSequence",
        "Any",
        "Unit",
        "Nothing",
        "Comparable",
        "Enum",
        "Annotation",
        "Function",
        "Lazy",
        "Result",
        "Pair",
        "Triple",
        "Throwable",
        "Exception",
        "Error",
        "RuntimeException",
        "Array",
        "Iterable",
        "Iterator",
        "Collection",
        "List",
        "Set",
        "Map",
        "MutableIterable",
        "MutableCollection",
        "MutableList",
        "MutableSet",
        "MutableMap",
        "ArrayList",
        "HashMap",
        "HashSet",
        "LinkedHashMap",
        "LinkedHashSet",
        "ByteArray",
        "CharArray",
        "ShortArray",
        "IntArray",
        "LongArray",
        "FloatArray",
        "DoubleArray",
        "BooleanArray",
        "Sequence",
    ];
    let r = str_in(name, types.as_slice());
    assert(types@.map_values(|c: &str| c@) =~= default_import_types());
    r
}


/// What deciding whether an import's package directory exists takes.
pub enum PackageDirCheck {
    /// Search without checking: the import has no package, or there is no
    /// root to check under.
    Allow,
    /// The package directory `pkg_dir` (relative, `/`-separated) must exist
    /// under at least one of `roots`.
    Probe { roots: Vec<String>, pkg_dir: String },
}

/// Where [`package_dir_in_source_roots`] looks for the package directory of
/// `import_path`: nowhere (answering "allow") when the import has no package
/// or no root is known; under the configured source roots when there are
/// any, else under the workspace root.
pub open spec fn package_dir_check(
    import_path: Seq<char>,
    root: Option<Seq<char>>,
    source_roots: Seq<Seq<char>>,
    r: PackageDirCheck,
) -> bool {
    let pkg = import_package_prefix_spec(import_path);
    if pkg.len() == 0 || (source_roots.len() == 0 && root is None) {
        r is Allow
    } else {
        r matches PackageDirCheck::Probe { roots, pkg_dir } && pkg_dir@ == join_char(
            split_char(pkg, '.'),
            '/',
        ) && roots.deep_view() == (if source_roots.len() > 0 {
            source_roots
        } else {
            seq![root->0]
        })
    }
}

/// Which directories decide whether the package of `import_path` exists in
/// the project (see [`package_dir_check`]): `android.os.Bundle` gives the
/// package directory `android/os` under each root. The caller answers
/// `true` for [`PackageDirCheck::Allow`], otherwise whether the directory
/// exists under some root.
pub fn package_dir_in_source_roots(import_path: &str, root: Option<&str>, source_roots: &Vec<String>) -> (r:
    PackageDirCheck)
    ensures
        package_dir_check(
            import_path@,
            match root {
                Some(x) => Some(x@),
                None => None,
            },
            source_roots.deep_view(),
            r,
        ),
{
    let pkg = import_package_prefix(import_path);
    if pkg.as_str().unicode_len() == 0 {
        return PackageDirCheck::Allow;
    }
    let roots: Vec<String> = if source_roots.len() > 0 {
        let mut v: Vec<String> = Vec::new();
        let mut i: usize = 0;
        while i < source_roots.len()
            invariant
                i <= source_roots@.len(),
                v.deep_view() == source_roots.deep_view().take(i as int),
            decreases source_roots.len() - i,
        {
            let c = source_roots[i].clone();
            let ghost before = v.deep_view();
            v.push(c);
            proof {
                assert(v.deep_view() =~= before.push(c@));
                assert(source_roots.deep_view()[i as int] == source_roots@[i as int]@);
                assert(source_roots.deep_view().take(i + 1int) =~= source_roots.deep_view().take(
                    i as int,
                ).push(source_roots.deep_view()[i as int]));
            }
            i = i + 1;
        }
        assert(source_roots.deep_view().take(source_roots@.len() as int) =~= source_roots.deep_view());
        v
    } else {
        match root {
            Some(r) => {
                let mut v: Vec<String> = Vec::new();
                v.push(r.to_owned());
                assert(v.deep_view() =~= seq![r@]);
                v
            },
            None => return PackageDirCheck::Allow,
        }
    };
    proof {
        reveal_strlit("/");
    }
    let pkg_dir = join_strings(&split_str(pkg.as_str(), '.'), "/");
    PackageDirCheck::Probe { roots, pkg_dir }
}


/// `name` is usable without an import: it is a core default-import type, or
/// one of the packages found declaring it is a default-import package.
pub open spec fn default_import_resolvable(name: Seq<char>, declaring_packages: Seq<Option<String>>) -> bool {
    default_import_types().contains(name) || exists|i: int|
        0 <= i < declaring_packages.len() && #[trigger] default_import_package_entry(
            declaring_packages[i],
        )
}

/// `p` is a known package and a default-import one.
pub open spec fn default_import_package_entry(p: Option<String>) -> bool {
    match p {
        Some(q) => default_import_packages().contains(q@),
        None => false,
    }
}

/// Whether `name` is available without an import (see
/// [`default_import_resolvable`]); `declaring_packages` holds, for each
/// indexed declaration of `name`, the package the index knows it by.
pub fn resolvable_via_default_import(name: &str, declaring_packages: &Vec<Option<String>>) -> (r: bool)
    ensures
        r == default_import_resolvable(name@, declaring_packages@),
{
    if is_default_import_type(name) {
        return true;
    }
    let mut i: usize = 0;
    while i < declaring_packages.len()
        invariant
            !default_import_types().contains(name@),
            i <= declaring_packages@.len(),
            forall|j: int|
                0 <= j < i ==> !#[trigger] default_import_package_entry(declaring_packages@[j]),
        decreases declaring_packages.len() - i,
    {
        match &declaring_packages[i] {
            Some(p) => {
                if is_default_import_package(p.as_str()) {
                    assert(default_import_package_entry(declaring_packages@[i as int]));
                    return true;
                }
            },
            None => {},
        }
        i = i + 1;
    }
    false
}

} // verus!

verus! {

// ─── Explicit imports ─────────────────────────────────────────────────────────

/// Whether `imports` holds an explicit (non-star) import whose local name is
/// `name`.
pub open spec fn explicitly_imported(imports: Seq<ImportEntry>, name: Seq<char>) -> bool {
    exists|i: int| 0 <= i < imports.len() && !(#[trigger] imports[i]).is_star && imports[i].local_name@ == name
}

/// Whether the file `file` has an explicit import whose local name is `name`
/// (`import a.b.Name` or `import a.b.Other as Name`): that alone proves the
/// name is in scope, indexed or not. `false` when the file is not indexed.
pub fn has_explicit_import(file: Option<&FileData>, name: &str) -> (r: bool)
    ensures
        r == match file {
            None => false,
            Some(fd) => explicitly_imported(fd.imports@, name@),
        },
{
    let fd = match file {
        None => return false,
        Some(fd) => fd,
    };
    let mut i: usize = 0;
    while i < fd.imports.len()
        invariant
            file == Some(fd),
            i <= fd.imports@.len(),
            forall|k: int|
                0 <= k < i ==> !(!(#[trigger] fd.imports@[k]).is_star && fd.imports@[k].local_name@
                    == name@),
        decreases fd.imports.len() - i,
    {
        let imp = &fd.imports[i];
        if !imp.is_star && str_eq(imp.local_name.as_str(), name) {
            assert(!fd.imports@[i as int].is_star && fd.imports@[i as int].local_name@ == name@);
            return true;
        }
        i = i + 1;
    }
    false
}

/// A definition found by the short name of an explicitly imported path.
pub struct ImportCandidate {
    pub location: Location,
    /// The package the definition is declared in: a compiled symbol's own
    /// package when the index records one, else its file's package; `None`
    /// when neither is known.
    pub package: Option<String>,
    /// The enclosing-type chain of the declaration, outermost first.
    pub container_chain: Vec<String>,
}

/// `pkg` is `expected` or a subpackage of it.
pub open spec fn package_under(pkg: Seq<char>, expected: Seq<char>) -> bool {
    pkg == expected || seq_starts_with(pkg, expected + seq!['.'])
}

/// Candidate `j` lies in the import's package (or its package is unknown).
pub open spec fn in_import_package(cands: Seq<ImportCandidate>, expected: Seq<char>) -> spec_fn(
    int,
) -> bool {
    |j: int| match cands[j].package {
        Some(p) => package_under(p@, expected),
        None => true,
    }
}

/// Candidate `j` is declared inside exactly the enclosing types `chain`.
pub open spec fn chain_is(cands: Seq<ImportCandidate>, chain: Seq<Seq<char>>) -> spec_fn(int) -> bool {
    |j: int| cands[j].container_chain.deep_view() == chain
}

/// What explicit-import resolution keeps of the definitions found for the
/// short name of `path`: those in the import's package (see
/// [`import_package_prefix_spec`]); and when the import names enclosing
/// types, only those declared inside exactly that chain of types, provided
/// at least one is.
pub open spec fn narrowed_candidates(cands: Seq<ImportCandidate>, path: Seq<char>) -> Seq<ImportCandidate> {
    let expected = import_package_prefix_spec(path);
    let chain = container_chain_spec(path, last_segment(path));
    let in_pkg = pick(cands, in_import_package(cands, expected), cands.len() as int);
    let in_chain = pick(in_pkg, chain_is(in_pkg, chain), in_pkg.len() as int);
    if chain.len() > 0 && in_chain.len() > 0 {
        in_chain
    } else {
        in_pkg
    }
}

/// The locations of `cands`.
pub open spec fn candidate_locations(cands: Seq<ImportCandidate>) -> Seq<Location> {
    cands.map_values(|c: ImportCandidate| c.location)
}

/// Whether `a` and `b` hold the same strings, in order.
pub fn strings_eq(a: &Vec<String>, b: &Vec<String>) -> (r: bool)
    ensures
        r == (a.deep_view() == b.deep_view()),
{
    if a.len() != b.len() {
        assert(a.deep_view().len() != b.deep_view().len());
        return false;
    }
    let mut i: usize = 0;
    while i < a.len()
        invariant
            a@.len() == b@.len(),
            i <= a@.len(),
            forall|k: int| 0 <= k < i ==> (#[trigger] a@[k])@ == b@[k]@,
        decreases a.len() - i,
    {
        if !str_eq(a[i].as_str(), b[i].as_str()) {
            assert(a.deep_view()[i as int] != b.deep_view()[i as int]);
            return false;
        }
        i = i + 1;
    }
    assert(a.deep_view() =~= b.deep_view());
    true
}

/// Explicit-import resolution's narrowing of the definitions found for the
/// imported path `import_path` (see [`narrowed_candidates`]): keeps an
/// `import a.b.c.remember` from matching an unrelated `remember` elsewhere,
/// and `Contract.State.Idle` from also matching `Contract.Event.Idle`.
pub fn narrow_import_candidates(import_path: &str, candidates: &Vec<ImportCandidate>) -> (out: Vec<Location>)
    ensures
        out@ == candidate_locations(narrowed_candidates(candidates@, import_path@)),
{
    let expected = import_package_prefix(import_path);
    let short = last_segment_str(import_path);
    let chain = import_container_chain(import_path, short);
    let mut dotted = expected.clone();
    dotted.append(".");
    let exp_chars = str_chars(dotted.as_str());
    proof {
        reveal_strlit(".");
        assert(dotted@ =~= expected@ + seq!['.']);
    }
    let ghost cands = candidates@;
    let ghost keep_pkg = in_import_package(cands, expected@);
    let mut in_pkg: Vec<usize> = Vec::new();
    let mut j: usize = 0;
    while j < candidates.len()
        invariant
            cands == candidates@,
            keep_pkg == in_import_package(cands, expected@),
            exp_chars@ == expected@ + seq!['.'],
            j <= cands.len(),
            in_pkg@.map_values(|k: usize| cands[k as int]) == pick(cands, keep_pkg, j as int),
            forall|i: int| 0 <= i < in_pkg@.len() ==> (#[trigger] in_pkg@[i]) < cands.len(),
        decreases candidates.len() - j,
    {
        let keep = match &candidates[j].package {
            None => true,
            Some(p) => str_eq(p.as_str(), expected.as_str()) || starts_with(&str_chars(p.as_str()), &exp_chars),
        };
        assert(keep == keep_pkg(j as int));
        let ghost before = in_pkg@;
        if keep {
            in_pkg.push(j);
            assert(in_pkg@.map_values(|k: usize| cands[k as int]) =~= before.map_values(
                |k: usize| cands[k as int],
            ).push(cands[j as int]));
        }
        j = j + 1;
    }
    let ghost pkg_seq = pick(cands, keep_pkg, cands.len() as int);
    let ghost keep_chain = chain_is(pkg_seq, chain.deep_view());
    let mut in_chain: Vec<usize> = Vec::new();
    if chain.len() > 0 {
        let mut i: usize = 0;
        while i < in_pkg.len()
            invariant
                in_pkg@.map_values(|k: usize| cands[k as int]) == pkg_seq,
                forall|q: int| 0 <= q < in_pkg@.len() ==> (#[trigger] in_pkg@[q]) < cands.len(),
                cands == candidates@,
                keep_chain == chain_is(pkg_seq, chain.deep_view()),
                i <= in_pkg@.len(),
                in_chain@.map_values(|k: usize| cands[k as int]) == pick(pkg_seq, keep_chain, i as int),
                forall|q: int| 0 <= q < in_chain@.len() ==> (#[trigger] in_chain@[q]) < cands.len(),
            decreases in_pkg.len() - i,
        {
            let k = in_pkg[i];
            assert(pkg_seq[i as int] == cands[k as int]);
            let same = strings_eq(&candidates[k].container_chain, &chain);
            assert(same == keep_chain(i as int));
            let ghost before = in_chain@;
            if same {
                in_chain.push(k);
                assert(in_chain@.map_values(|k: usize| cands[k as int]) =~= before.map_values(
                    |k: usize| cands[k as int],
                ).push(pkg_seq[i as int]));
            }
            i = i + 1;
        }
    }
    let chosen = if chain.len() > 0 && in_chain.len() > 0 {
        in_chain
    } else {
        in_pkg
    };
    let ghost chosen_seq = chosen@.map_values(|k: usize| cands[k as int]);
    proof {
        let in_chain_spec = pick(pkg_seq, keep_chain, pkg_seq.len() as int);
        if chain.len() > 0 {
            assert(in_pkg@.len() == pkg_seq.len());
        } else {
            assert(chain.deep_view().len() == 0);
        }
        assert(chosen_seq == narrowed_candidates(cands, import_path@));
    }
    let mut out: Vec<Location> = Vec::new();
    let mut q: usize = 0;
    while q < chosen.len()
        invariant
            forall|t: int| 0 <= t < chosen@.len() ==> (#[trigger] chosen@[t]) < cands.len(),
            cands == candidates@,
            chosen_seq == chosen@.map_values(|k: usize| cands[k as int]),
            q <= chosen@.len(),
            out@ == candidate_locations(chosen_seq.take(q as int)),
        decreases chosen.len() - q,
    {
        let k = chosen[q];
        out.push(candidates[k].location.duplicate());
        proof {
            assert(chosen_seq.take(q + 1int) =~= chosen_seq.take(q as int).push(cands[k as int]));
            assert(candidate_locations(chosen_seq.take(q + 1int)) =~= candidate_locations(
                chosen_seq.take(q as int),
            ).push(cands[k as int].location));
        }
        q = q + 1;
    }
    assert(chosen_seq.take(chosen@.len() as int) =~= chosen_seq);
    out
}

/// Import `i` is an explicit (non-star) import with local name `name`.
pub open spec fn explicit_import_named(imports: Seq<ImportEntry>, name: Seq<char>) -> spec_fn(int) -> bool {
    |i: int| !imports[i].is_star && imports[i].local_name@ == name
}

/// The check that decides whether a project-wide search for `name` is
/// pointless: when `file` explicitly imports `name`, explicit-import
/// resolution already searched the source tree for it, so the search is
/// skipped when that import's package directory is absent from every
/// source root. The first such import's [`package_dir_in_source_roots`]
/// check, which the caller runs: the search is skipped exactly when it is a
/// probe that finds no directory. `None` (search) when the file is not
/// indexed or has no such import.
pub fn import_package_gate(
    file: Option<&FileData>,
    name: &str,
    root: Option<&str>,
    source_roots: &Vec<String>,
) -> (r: Option<PackageDirCheck>)
    ensures
        match file {
            None => r is None,
            Some(fd) => {
                let k = first_pos(0, fd.imports@.len() as int, explicit_import_named(fd.imports@, name@));
                if k == -1 {
                    r is None
                } else {
                    r matches Some(c) && package_dir_check(
                        fd.imports@[k].full_path@,
                        match root {
                            Some(x) => Some(x@),
                            None => None,
                        },
                        source_roots.deep_view(),
                        c,
                    )
                }
            },
        },
{
    let fd = match file {
        None => return None,
        Some(fd) => fd,
    };
    let ghost pred = explicit_import_named(fd.imports@, name@);
    let mut i: usize = 0;
    while i < fd.imports.len()
        invariant
            file == Some(fd),
            pred == explicit_import_named(fd.imports@, name@),
            i <= fd.imports@.len(),
            forall|q: int| 0 <= q < i ==> !#[trigger] pred(q),
        decreases fd.imports.len() - i,
    {
        let imp = &fd.imports[i];
        if !imp.is_star && str_eq(imp.local_name.as_str(), name) {
            proof {
                assert(pred(i as int));
                lemma_first_pos_unique(0, fd.imports@.len() as int, pred, i as int);
            }
            return Some(package_dir_in_source_roots(imp.full_path.as_str(), root, source_roots));
        }
        assert(!pred(i as int));
        i = i + 1;
    }
    proof {
        lemma_first_pos_unique(0, fd.imports@.len() as int, pred, -1);
    }
    None
}

// ─── Resolution through explicit imports ───────────────────────────────────

/// What one explicit import of the name yields, given the answers of the
/// index: the qualified-name index's definition of the imported path
/// (`qualified`), else the narrowed same-named definitions (`candidates`,
/// see [`narrowed_candidates`]), else, when a search of the source tree is
/// allowed, what searching and parsing the imported file finds (`search`);
/// nothing when none of them answers. `out` is one outcome these calls may
/// give.
pub open spec fn import_yields<Q, C, D>(
    qualified: Q,
    candidates: C,
    search: D,
    allow_search: bool,
    path: &String,
    out: Seq<Location>,
) -> bool where Q: Fn(&String) -> Option<Location>, C: Fn(&String) -> Vec<ImportCandidate>, D: Fn(&String) -> Vec<Location> {
    exists|qa: Option<Location>|
        #[trigger] qualified.ensures((path,), qa) && match qa {
            Some(l) => out == seq![l],
            None => exists|cands: Vec<ImportCandidate>|
                #[trigger] candidates.ensures((path,), cands) && {
                    let nar = candidate_locations(narrowed_candidates(cands@, path@));
                    if nar.len() > 0 {
                        out == nar
                    } else if allow_search {
                        exists|found: Vec<Location>| #[trigger] search.ensures((path,), found) && out == found@
                    } else {
                        out.len() == 0
                    }
                },
        }
}

fn copy_locations(v: &Vec<Location>) -> (r: Vec<Location>)
    ensures
        r@ == v@,
{
    let mut r: Vec<Location> = Vec::new();
    let mut i: usize = 0;
    while i < v.len()
        invariant
            i <= v@.len(),
            r@ == v@.take(i as int),
        decreases v.len() - i,
    {
        r.push(v[i].duplicate());
        assert(v@.take(i + 1int) =~= v@.take(i as int).push(v@[i as int]));
        i = i + 1;
    }
    assert(v@.take(v@.len() as int) =~= v@);
    r
}

/// One explicit import of the name (see [`import_yields`]).
fn resolve_one_import<Q, C, D>(
    path: &String,
    allow_search: bool,
    qualified: &Q,
    candidates: &C,
    search: &D,
) -> (out: Vec<Location>) where
    Q: Fn(&String) -> Option<Location>,
    C: Fn(&String) -> Vec<ImportCandidate>,
    D: Fn(&String) -> Vec<Location>,

    requires
        forall|p: &String| qualified.requires((p,)),
        forall|p: &String| candidates.requires((p,)),
        forall|p: &String| search.requires((p,)),
    ensures
        import_yields(*qualified, *candidates, *search, allow_search, path, out@),
{
    let qa = qualified(path);
    match qa {
        Some(l) => {
            let out = vec![l];
            proof {
                assert(out@ =~= seq![l]);
                assert(qualified.ensures((path,), Some(l)));
            }
            return out;
        },
        None => {},
    }
    let cands = candidates(path);
    let nar = narrow_import_candidates(path.as_str(), &cands);
    if nar.len() > 0 {
        proof {
            assert(candidates.ensures((path,), cands));
            assert(qualified.ensures((path,), None::<Location>));
        }
        return nar;
    }
    if allow_search {
        let found = search(path);
        let out = copy_locations(&found);
        proof {
            assert(search.ensures((path,), found));
            assert(candidates.ensures((path,), cands));
            assert(qualified.ensures((path,), None::<Location>));
        }
        return out;
    }
    proof {
        assert(candidates.ensures((path,), cands));
        assert(qualified.ensures((path,), None::<Location>));
    }
    Vec::new()
}

/// Resolves `name` through the calling file's explicit imports: each
/// non-star import whose local name is `name`, in file order, is tried (see
/// [`import_yields`]) until one yields locations. The qualified-name index
/// (`qualified`), the same-named definitions with their packages and
/// container chains (`candidates`) and the search of the source tree
/// (`search`, only asked when `allow_search`; it skips a package directory
/// absent from every source root, see [`package_dir_in_source_roots`]) are
/// answered by the caller for the imported path. Nothing when the file is
/// not indexed (`file` is `None`) or no such import yields.
pub fn resolve_via_imports<Q, C, D>(
    file: Option<&FileData>,
    name: &str,
    allow_search: bool,
    qualified: Q,
    candidates: C,
    search: D,
) -> (out: Vec<Location>) where
    Q: Fn(&String) -> Option<Location>,
    C: Fn(&String) -> Vec<ImportCandidate>,
    D: Fn(&String) -> Vec<Location>,

    requires
        forall|p: &String| qualified.requires((p,)),
        forall|p: &String| candidates.requires((p,)),
        forall|p: &String| search.requires((p,)),
    ensures
        match file {
            None => out@.len() == 0,
            Some(fd) => {
                let imps = fd.imports@;
                &&& out@.len() == 0 ==> forall|j: int|
                    0 <= j < imps.len() && #[trigger] explicit_import_named(imps, name@)(j) ==> import_yields(
                        qualified,
                        candidates,
                        search,
                        allow_search,
                        &imps[j].full_path,
                        Seq::empty(),
                    )
                &&& out@.len() > 0 ==> exists|j: int|
                    0 <= j < imps.len() && #[trigger] explicit_import_named(imps, name@)(j) && import_yields(
                        qualified,
                        candidates,
                        search,
                        allow_search,
                        &imps[j].full_path,
                        out@,
                    ) && forall|j2: int|
                        0 <= j2 < j && #[trigger] explicit_import_named(imps, name@)(j2) ==> import_yields(
                            qualified,
                            candidates,
                            search,
                            allow_search,
                            &imps[j2].full_path,
                            Seq::empty(),
                        )
            },
        },
{
    let fd = match file {
        None => return Vec::new(),
        Some(fd) => fd,
    };
    let ghost imps = fd.imports@;
    let ghost pred = explicit_import_named(imps, name@);
    let mut j: usize = 0;
    while j < fd.imports.len()
        invariant
            file == Some(fd),
            imps == fd.imports@,
            pred == explicit_import_named(imps, name@),
            forall|p: &String| qualified.requires((p,)),
            forall|p: &String| candidates.requires((p,)),
            forall|p: &String| search.requires((p,)),
            j <= imps.len(),
            forall|j2: int|
                0 <= j2 < j && #[trigger] pred(j2) ==> import_yields(
                    qualified,
                    candidates,
                    search,
                    allow_search,
                    &imps[j2].full_path,
                    Seq::empty(),
                ),
        decreases fd.imports.len() - j,
    {
        let imp = &fd.imports[j];
        if !imp.is_star && str_eq(imp.local_name.as_str(), name) {
            let out = resolve_one_import(&imp.full_path, allow_search, &qualified, &candidates, &search);
            if out.len() > 0 {
                proof {
                    assert(pred(j as int));
                }
                return out;
            }
            proof {
                assert(out@ =~= Seq::<Location>::empty());
            }
        }
        j = j + 1;
    }
    Vec::new()
}

} // verus!
