//! Which symbols of a file are the members of a named type, for member
//! completion after `Type.` or on an instance.
//!
//! In a source file a member is declared inside its type's range and tagged
//! with its name; a compiled archive's synthetic file gives every symbol a
//! one-line range, so there the container tag alone says where a symbol
//! belongs, and the package recorded per symbol tells same-named types of
//! different packages apart. Kotlin reaches `Outer.member` through `Outer`'s
//! companion object too, so a companion's members count as the type's own.

use vstd::prelude::*;

use crate::find::companion_object;
use crate::types::{
    class_kind, declared_in, import_covers, is_declared_in, str_eq, ImportEntry, SymbolEntry,
    SymbolKind, Visibility,
};

verus! {

/// How the caller reached the type's members.
#[derive(Clone, Copy, PartialEq, Eq, Structural, Debug)]
pub enum MembershipContext {
    /// The receiver is the type itself: nested types are members too
    /// (`Outer.Nested` is a real expression).
    Direct,
    /// The type is an ancestor whose members a descendant inherits: nested
    /// type declarations are never inherited.
    Inherited,
}

/// Whether a symbol of kind `kind` counts as a member in `context`.
pub open spec fn member_kind_ok(context: MembershipContext, kind: SymbolKind) -> bool {
    context == MembershipContext::Direct || !class_kind(kind)
}

/// Whether a symbol of kind `kind` counts as a member in `context`: always
/// when the type is the receiver itself; when inherited, unless it declares
/// a nested type.
pub fn member_kind_allowed(context: MembershipContext, kind: SymbolKind) -> (r: bool)
    ensures
        r == member_kind_ok(context, kind),
{
    context == MembershipContext::Direct || !is_class_kind(kind)
}

fn is_class_kind(k: SymbolKind) -> (r: bool)
    ensures
        r == class_kind(k),
{
    k == SymbolKind::Class || k == SymbolKind::Interface || k == SymbolKind::Struct || k
        == SymbolKind::Enum || k == SymbolKind::Object
}

/// A declaration that can stand for a type name: a class-like declaration
/// or an enum case.
pub open spec fn preferred_type_kind(k: SymbolKind) -> bool {
    class_kind(k) || k == SymbolKind::EnumMember
}

/// Whether `kind` outranks a function of the same name as the symbol that
/// represents a type name (see [`preferred_type_kind`]).
pub fn is_preferred_type_symbol_kind(kind: SymbolKind) -> (r: bool)
    ensures
        r == preferred_type_kind(kind),
{
    is_class_kind(kind) || kind == SymbolKind::EnumMember
}

/// The last index `j < n` with `pred(j)`, or `-1`.
pub open spec fn last_index(n: int, pred: spec_fn(int) -> bool) -> int
    decreases n,
{
    if n <= 0 {
        -1
    } else if pred(n - 1) {
        n - 1
    } else {
        last_index(n - 1, pred)
    }
}

/// The indices `j < n` with `keep(j)`, in order.
pub open spec fn pick_indices(keep: spec_fn(int) -> bool, n: int) -> Seq<int>
    decreases n,
{
    if n <= 0 {
        Seq::empty()
    } else if keep(n - 1) {
        pick_indices(keep, n - 1).push(n - 1)
    } else {
        pick_indices(keep, n - 1)
    }
}

/// Symbol `j` is named `name`.
pub open spec fn named_at(symbols: Seq<SymbolEntry>, name: Seq<char>) -> spec_fn(int) -> bool {
    |j: int| symbols[j].name@ == name
}

/// Symbol `j` is named `name` and of a kind that can stand for a type.
pub open spec fn type_named_at(symbols: Seq<SymbolEntry>, name: Seq<char>) -> spec_fn(int) -> bool {
    |j: int| symbols[j].name@ == name && preferred_type_kind(symbols[j].kind)
}

/// The symbol that represents the type name `name` when several share it: a
/// type declaration or enum case outranks a same-named function (Compose
/// declares both `fun MaterialTheme(..)` and `object MaterialTheme`); among
/// equals, the last one. `-1` when no symbol has the name.
pub open spec fn type_symbol_choice(symbols: Seq<SymbolEntry>, name: Seq<char>) -> int {
    let t = last_index(symbols.len() as int, type_named_at(symbols, name));
    if t != -1 {
        t
    } else {
        last_index(symbols.len() as int, named_at(symbols, name))
    }
}

proof fn lemma_last_index_step(n: int, pred: spec_fn(int) -> bool)
    requires
        n >= 0,
    ensures
        last_index(n + 1, pred) == (if pred(n) {
            n
        } else {
            last_index(n, pred)
        }),
{
}

/// The index of the symbol representing the type name `name` (see
/// [`type_symbol_choice`]).
pub fn type_symbol_index(symbols: &Vec<SymbolEntry>, name: &str) -> (r: Option<usize>)
    ensures
        match r {
            Some(k) => k < symbols@.len() && type_symbol_choice(symbols@, name@) == k as int,
            None => type_symbol_choice(symbols@, name@) == -1,
        },
{
    let ghost tp = type_named_at(symbols@, name@);
    let ghost np = named_at(symbols@, name@);
    let mut best_type: Option<usize> = None;
    let mut best_any: Option<usize> = None;
    let mut j: usize = 0;
    while j < symbols.len()
        invariant
            tp == type_named_at(symbols@, name@),
            np == named_at(symbols@, name@),
            j <= symbols@.len(),
            match best_type {
                Some(k) => k < j && last_index(j as int, tp) == k as int,
                None => last_index(j as int, tp) == -1,
            },
            match best_any {
                Some(k) => k < j && last_index(j as int, np) == k as int,
                None => last_index(j as int, np) == -1,
            },
        decreases symbols.len() - j,
    {
        proof {
            lemma_last_index_step(j as int, tp);
            lemma_last_index_step(j as int, np);
        }
        if str_eq(symbols[j].name.as_str(), name) {
            best_any = Some(j);
            if is_preferred_type_symbol_kind(symbols[j].kind) {
                best_type = Some(j);
            }
        }
        j = j + 1;
    }
    match best_type {
        Some(k) => Some(k),
        None => best_any,
    }
}

/// Symbol `c` is a companion object declared inside the symbol at `t`.
pub open spec fn companion_in(symbols: Seq<SymbolEntry>, t: int) -> spec_fn(int) -> bool {
    |c: int| companion_object(symbols[c]) && declared_in(symbols[c], symbols[t])
}

/// Symbol `j` is a member of the source-file type at `t`: declared inside
/// it or inside one of its companion objects, not private, and of a kind
/// that counts in `context`.
pub open spec fn workspace_member(symbols: Seq<SymbolEntry>, t: int, context: MembershipContext) -> spec_fn(
    int,
) -> bool {
    |j: int|
        (declared_in(symbols[j], symbols[t]) || exists|c: int|
            0 <= c < symbols.len() && #[trigger] companion_in(symbols, t)(c) && declared_in(
                symbols[j],
                symbols[c],
            )) && symbols[j].visibility != Visibility::Private && member_kind_ok(
            context,
            symbols[j].kind,
        )
}

/// The indices `v`, as integers.
pub open spec fn as_ints(v: Seq<usize>) -> Seq<int> {
    v.map_values(|k: usize| k as int)
}

/// The indices of the companion objects declared inside the symbol at `t`.
fn companions_in(symbols: &Vec<SymbolEntry>, t: usize) -> (out: Vec<usize>)
    requires
        t < symbols@.len(),
    ensures
        as_ints(out@) == pick_indices(companion_in(symbols@, t as int), symbols@.len() as int),
        forall|i: int| 0 <= i < out@.len() ==> (#[trigger] out@[i]) < symbols@.len(),
{
    let ghost keep = companion_in(symbols@, t as int);
    let mut out: Vec<usize> = Vec::new();
    let mut c: usize = 0;
    while c < symbols.len()
        invariant
            t < symbols@.len(),
            keep == companion_in(symbols@, t as int),
            c <= symbols@.len(),
            as_ints(out@) == pick_indices(keep, c as int),
            forall|i: int| 0 <= i < out@.len() ==> (#[trigger] out@[i]) < c,
        decreases symbols.len() - c,
    {
        let hit = symbols[c].is_companion_object() && is_declared_in(&symbols[c], &symbols[t]);
        assert(hit == keep(c as int));
        let ghost before = out@;
        if hit {
            out.push(c);
            assert(as_ints(out@) =~= as_ints(before).push(c as int));
        }
        c = c + 1;
    }
    out
}

/// Whether some symbol listed in `within` (indices) has symbol `j` declared
/// inside it.
fn declared_in_any(symbols: &Vec<SymbolEntry>, j: usize, within: &Vec<usize>) -> (r: bool)
    requires
        j < symbols@.len(),
        forall|i: int| 0 <= i < within@.len() ==> (#[trigger] within@[i]) < symbols@.len(),
    ensures
        r == exists|i: int| 0 <= i < within@.len() && declared_in(symbols@[j as int], symbols@[#[trigger] within@[i] as int]),
{
    let mut i: usize = 0;
    while i < within.len()
        invariant
            j < symbols@.len(),
            forall|q: int| 0 <= q < within@.len() ==> (#[trigger] within@[q]) < symbols@.len(),
            i <= within@.len(),
            forall|q: int| 0 <= q < i ==> !declared_in(symbols@[j as int], symbols@[#[trigger] within@[q] as int]),
        decreases within.len() - i,
    {
        if is_declared_in(&symbols[j], &symbols[within[i]]) {
            return true;
        }
        i = i + 1;
    }
    false
}

proof fn lemma_pick_indices_members(keep: spec_fn(int) -> bool, n: int, i: int)
    requires
        0 <= i < pick_indices(keep, n).len(),
    ensures
        0 <= pick_indices(keep, n)[i] < n,
        keep(pick_indices(keep, n)[i]),
    decreases n,
{
    if n > 0 {
        if keep(n - 1) && i == pick_indices(keep, n - 1).len() {
        } else {
            lemma_pick_indices_members(keep, n - 1, i);
        }
    }
}

/// The members of the type declared at `t` in a source file, in file order
/// (see [`workspace_member`]).
pub fn workspace_member_indices(symbols: &Vec<SymbolEntry>, t: usize, context: MembershipContext) -> (out:
    Vec<usize>)
    requires
        t < symbols@.len(),
    ensures
        as_ints(out@) == pick_indices(workspace_member(symbols@, t as int, context), symbols@.len() as int),
{
    let companions = companions_in(symbols, t);
    let ghost keep = workspace_member(symbols@, t as int, context);
    let mut out: Vec<usize> = Vec::new();
    let mut j: usize = 0;
    while j < symbols.len()
        invariant
            t < symbols@.len(),
            keep == workspace_member(symbols@, t as int, context),
            as_ints(companions@) == pick_indices(companion_in(symbols@, t as int), symbols@.len() as int),
            forall|i: int| 0 <= i < companions@.len() ==> (#[trigger] companions@[i]) < symbols@.len(),
            j <= symbols@.len(),
            as_ints(out@) == pick_indices(keep, j as int),
        decreases symbols.len() - j,
    {
        let s = &symbols[j];
        let inside = is_declared_in(s, &symbols[t]) || declared_in_any(symbols, j, &companions);
        let hit = inside && s.visibility != Visibility::Private && member_kind_allowed(context, s.kind);
        proof {
            let via = exists|c: int|
                0 <= c < symbols@.len() && #[trigger] companion_in(symbols@, t as int)(c) && declared_in(
                    symbols@[j as int],
                    symbols@[c],
                );
            let listed = exists|i: int|
                0 <= i < companions@.len() && declared_in(
                    symbols@[j as int],
                    symbols@[#[trigger] companions@[i] as int],
                );
            let pc = pick_indices(companion_in(symbols@, t as int), symbols@.len() as int);
            if listed {
                let i = choose|i: int|
                    0 <= i < companions@.len() && declared_in(
                        symbols@[j as int],
                        symbols@[#[trigger] companions@[i] as int],
                    );
                assert(as_ints(companions@)[i] == companions@[i] as int);
                lemma_pick_indices_members(companion_in(symbols@, t as int), symbols@.len() as int, i);
                assert(companion_in(symbols@, t as int)(companions@[i] as int));
            }
            if via {
                let c = choose|c: int|
                    0 <= c < symbols@.len() && #[trigger] companion_in(symbols@, t as int)(c) && declared_in(
                        symbols@[j as int],
                        symbols@[c],
                    );
                lemma_pick_indices_complete(companion_in(symbols@, t as int), symbols@.len() as int, c);
                let i = choose|i: int| 0 <= i < pc.len() && #[trigger] pc[i] == c;
                assert(as_ints(companions@)[i] == companions@[i] as int);
                assert(companions@[i] as int == c);
            }
            assert(hit == keep(j as int));
        }
        let ghost before = out@;
        if hit {
            out.push(j);
            assert(as_ints(out@) =~= as_ints(before).push(j as int));
        }
        j = j + 1;
    }
    out
}

proof fn lemma_pick_indices_complete(keep: spec_fn(int) -> bool, n: int, c: int)
    requires
        0 <= c < n,
        keep(c),
    ensures
        exists|i: int| 0 <= i < pick_indices(keep, n).len() && #[trigger] pick_indices(keep, n)[i] == c,
    decreases n,
{
    if c == n - 1 {
        assert(pick_indices(keep, n)[pick_indices(keep, n - 1).len() as int] == c);
    } else {
        lemma_pick_indices_complete(keep, n - 1, c);
        let i = choose|i: int| 0 <= i < pick_indices(keep, n - 1).len() && #[trigger] pick_indices(keep, n - 1)[i] == c;
        assert(pick_indices(keep, n)[i] == c);
    }
}

// ─── Compiled archives ────────────────────────────────────────────────────────

/// The package recorded for symbol `i`, when the archive records packages
/// and has an entry for it.
pub open spec fn package_at(packages: Option<Seq<String>>, i: int) -> Option<Seq<char>> {
    match packages {
        Some(ps) => if 0 <= i < ps.len() {
            Some(ps[i]@)
        } else {
            None
        },
        None => None,
    }
}

/// The view of optional per-symbol packages.
pub open spec fn packages_view(packages: Option<&Vec<String>>) -> Option<Seq<String>> {
    match packages {
        Some(ps) => Some(ps@),
        None => None,
    }
}

/// Symbol `c` is a companion object tagged as declared inside `inner`.
pub open spec fn companion_of(symbols: Seq<SymbolEntry>, inner: Seq<char>) -> spec_fn(int) -> bool {
    |c: int| companion_object(symbols[c]) && (symbols[c].container matches Some(x) && x@ == inner)
}

/// Symbol `j` is tagged as declared inside `inner` or inside one of
/// `inner`'s companion objects.
pub open spec fn tagged_member(symbols: Seq<SymbolEntry>, inner: Seq<char>) -> spec_fn(int) -> bool {
    |j: int|
        symbols[j].container matches Some(x) && (x@ == inner || exists|c: int|
            0 <= c < symbols.len() && #[trigger] companion_of(symbols, inner)(c) && symbols[c].name@ == x@)
}

/// Symbol `j` is a candidate member of `inner` in a compiled file: tagged
/// with it (or its companion), not deprecated, not private, and of a kind
/// that counts in `context`.
pub open spec fn jar_candidate(symbols: Seq<SymbolEntry>, inner: Seq<char>, context: MembershipContext) -> spec_fn(
    int,
) -> bool {
    |j: int|
        tagged_member(symbols, inner)(j) && !symbols[j].deprecated && symbols[j].visibility
            != Visibility::Private && member_kind_ok(context, symbols[j].kind)
}

/// Some explicit import of the caller named `inner` covers `inner` declared
/// in package `pkg`.
pub open spec fn caller_covers(imports: Seq<ImportEntry>, inner: Seq<char>, pkg: Seq<char>) -> bool {
    exists|i: int|
        0 <= i < imports.len() && !(#[trigger] imports[i]).is_star && imports[i].local_name@ == inner
            && import_covers(imports[i].full_path@, imports[i].local_name@, imports[i].is_star, pkg, inner)
}

/// Candidate `j` has a recorded package that one of the caller's imports of
/// `inner` covers.
pub open spec fn import_covered(
    symbols: Seq<SymbolEntry>,
    packages: Option<Seq<String>>,
    imports: Seq<ImportEntry>,
    inner: Seq<char>,
    context: MembershipContext,
) -> spec_fn(int) -> bool {
    |j: int|
        jar_candidate(symbols, inner, context)(j) && (package_at(packages, j) matches Some(p)
            && caller_covers(imports, inner, p))
}

/// Candidate `j` is in the package of the type declared at `t`, or one of
/// the two packages is not recorded.
pub open spec fn same_package_or_unknown(
    symbols: Seq<SymbolEntry>,
    packages: Option<Seq<String>>,
    inner: Seq<char>,
    context: MembershipContext,
    t: int,
) -> spec_fn(int) -> bool {
    |j: int|
        jar_candidate(symbols, inner, context)(j) && match (package_at(packages, t), package_at(packages, j)) {
            (Some(a), Some(b)) => a == b,
            _ => true,
        }
}

/// The members of `inner` (declared at `t`) in a compiled file: the
/// candidates whose package one of the caller's imports of `inner` covers
/// when there is any (so an import picks between same-named classes of
/// different libraries), else the candidates in the declaring class's own
/// package (keeping those whose package is not recorded).
pub open spec fn jar_members(
    symbols: Seq<SymbolEntry>,
    packages: Option<Seq<String>>,
    imports: Seq<ImportEntry>,
    inner: Seq<char>,
    context: MembershipContext,
    t: int,
) -> Seq<int> {
    let covered = pick_indices(import_covered(symbols, packages, imports, inner, context), symbols.len() as int);
    if covered.len() > 0 {
        covered
    } else {
        pick_indices(same_package_or_unknown(symbols, packages, inner, context, t), symbols.len() as int)
    }
}

fn package_at_exec<'a>(packages: Option<&'a Vec<String>>, i: usize) -> (r: Option<&'a str>)
    ensures
        match r {
            Some(p) => package_at(packages_view(packages), i as int) == Some(p@),
            None => package_at(packages_view(packages), i as int) is None,
        },
{
    match packages {
        Some(ps) => if i < ps.len() {
            Some(ps[i].as_str())
        } else {
            None
        },
        None => None,
    }
}

fn covered_by_caller(imports: &Vec<ImportEntry>, inner: &str, pkg: &str) -> (r: bool)
    ensures
        r == caller_covers(imports@, inner@, pkg@),
{
    let mut i: usize = 0;
    while i < imports.len()
        invariant
            i <= imports@.len(),
            forall|q: int|
                0 <= q < i ==> !(!(#[trigger] imports@[q]).is_star && imports@[q].local_name@ == inner@
                    && import_covers(
                    imports@[q].full_path@,
                    imports@[q].local_name@,
                    imports@[q].is_star,
                    pkg@,
                    inner@,
                )),
        decreases imports.len() - i,
    {
        let imp = &imports[i];
        if !imp.is_star && str_eq(imp.local_name.as_str(), inner) && imp.covers(pkg, inner) {
            return true;
        }
        i = i + 1;
    }
    false
}

/// The members of `inner_name`, declared at `t`, in a compiled archive's
/// file (see [`jar_members`]): `packages` are the packages recorded per
/// symbol (index-aligned with `symbols`), and `caller_imports` the imports
/// of the file completing, when it is known.
pub fn jar_member_indices(
    symbols: &Vec<SymbolEntry>,
    packages: Option<&Vec<String>>,
    caller_imports: Option<&Vec<ImportEntry>>,
    inner_name: &str,
    t: usize,
    context: MembershipContext,
) -> (out: Vec<usize>)
    ensures
        as_ints(out@) == jar_members(
            symbols@,
            packages_view(packages),
            match caller_imports {
                Some(v) => v@,
                None => Seq::empty(),
            },
            inner_name@,
            context,
            t as int,
        ),
{
    let no_imports: Vec<ImportEntry> = Vec::new();
    let imports = match caller_imports {
        Some(v) => v,
        None => &no_imports,
    };
    let ghost pk = packages_view(packages);
    let ghost inner = inner_name@;
    // The companions of `inner_name`.
    let ghost cpred = companion_of(symbols@, inner);
    let mut companions: Vec<usize> = Vec::new();
    let mut c: usize = 0;
    while c < symbols.len()
        invariant
            cpred == companion_of(symbols@, inner),
            inner == inner_name@,
            c <= symbols@.len(),
            forall|i: int| 0 <= i < companions@.len() ==> (#[trigger] companions@[i]) < symbols@.len(),
            forall|i: int| 0 <= i < companions@.len() ==> cpred(#[trigger] companions@[i] as int),
            forall|q: int| 0 <= q < c && #[trigger] cpred(q) ==> exists|i: int| 0 <= i < companions@.len() && #[trigger] companions@[i] as int == q,
        decreases symbols.len() - c,
    {
        let hit = symbols[c].is_companion_object() && crate::find::opt_str_is(&symbols[c].container, inner_name);
        assert(hit == cpred(c as int));
        let ghost before = companions@;
        if hit {
            companions.push(c);
            assert(companions@[before.len() as int] == c);
        }
        proof {
            assert forall|q: int| 0 <= q < c + 1 && #[trigger] cpred(q) implies exists|i: int|
                0 <= i < companions@.len() && #[trigger] companions@[i] as int == q by {
                if q < c {
                    let i = choose|i: int| 0 <= i < before.len() && #[trigger] before[i] as int == q;
                    assert(companions@[i] == before[i]);
                } else {
                    assert(companions@[before.len() as int] == c);
                }
            }
        }
        c = c + 1;
    }
    // Candidates, with the import-covered ones and the same-package ones.
    let ghost cand = jar_candidate(symbols@, inner, context);
    let ghost cov = import_covered(symbols@, pk, imports@, inner, context);
    let ghost same = same_package_or_unknown(symbols@, pk, inner, context, t as int);
    let class_package = package_at_exec(packages, t);
    let mut covered: Vec<usize> = Vec::new();
    let mut same_pkg: Vec<usize> = Vec::new();
    let mut j: usize = 0;
    while j < symbols.len()
        invariant
            cpred == companion_of(symbols@, inner),
            inner == inner_name@,
            pk == packages_view(packages),
            cand == jar_candidate(symbols@, inner, context),
            cov == import_covered(symbols@, pk, imports@, inner, context),
            same == same_package_or_unknown(symbols@, pk, inner, context, t as int),
            match class_package {
                Some(p) => package_at(pk, t as int) == Some(p@),
                None => package_at(pk, t as int) is None,
            },
            forall|i: int| 0 <= i < companions@.len() ==> (#[trigger] companions@[i]) < symbols@.len(),
            forall|i: int| 0 <= i < companions@.len() ==> cpred(#[trigger] companions@[i] as int),
            forall|q: int| 0 <= q < symbols@.len() && #[trigger] cpred(q) ==> exists|i: int| 0 <= i < companions@.len() && #[trigger] companions@[i] as int == q,
            j <= symbols@.len(),
            as_ints(covered@) == pick_indices(cov, j as int),
            as_ints(same_pkg@) == pick_indices(same, j as int),
        decreases symbols.len() - j,
    {
        let s = &symbols[j];
        let tagged = match &s.container {
            None => false,
            Some(x) => {
                if str_eq(x.as_str(), inner_name) {
                    true
                } else {
                    let mut found = false;
                    let mut i: usize = 0;
                    while i < companions.len()
                        invariant
                            forall|q: int| 0 <= q < companions@.len() ==> (#[trigger] companions@[q]) < symbols@.len(),
                            i <= companions@.len(),
                            found == exists|q: int| 0 <= q < i && symbols@[#[trigger] companions@[q] as int].name@ == x@,
                        decreases companions.len() - i,
                    {
                        if str_eq(symbols[companions[i]].name.as_str(), x.as_str()) {
                            found = true;
                        }
                        i = i + 1;
                    }
                    found
                }
            },
        };
        proof {
            assert(tagged == tagged_member(symbols@, inner)(j as int)) by {
                if s.container is Some {
                    let x = s.container->0;
                    if x@ != inner {
                        let ex_c = exists|cc: int|
                            0 <= cc < symbols@.len() && #[trigger] companion_of(symbols@, inner)(cc)
                                && symbols@[cc].name@ == x@;
                        if ex_c {
                            let cc = choose|cc: int|
                                0 <= cc < symbols@.len() && #[trigger] companion_of(symbols@, inner)(cc)
                                    && symbols@[cc].name@ == x@;
                            let i = choose|i: int| 0 <= i < companions@.len() && #[trigger] companions@[i] as int == cc;
                            assert(symbols@[companions@[i] as int].name@ == x@);
                        }
                        if tagged {
                            let q = choose|q: int| 0 <= q < companions@.len() && symbols@[#[trigger] companions@[q] as int].name@ == x@;
                            assert(cpred(companions@[q] as int));
                        }
                    }
                }
            }
        }
        let is_cand = tagged && !s.deprecated && s.visibility != Visibility::Private && member_kind_allowed(context, s.kind);
        assert(is_cand == cand(j as int));
        let member_package = package_at_exec(packages, j);
        let is_cov = is_cand && match member_package {
            Some(p) => covered_by_caller(imports, inner_name, p),
            None => false,
        };
        assert(is_cov == cov(j as int));
        let is_same = is_cand && match (class_package, member_package) {
            (Some(a), Some(b)) => str_eq(a, b),
            _ => true,
        };
        assert(is_same == same(j as int));
        let ghost before_cov = covered@;
        let ghost before_same = same_pkg@;
        if is_cov {
            covered.push(j);
            assert(as_ints(covered@) =~= as_ints(before_cov).push(j as int));
        }
        if is_same {
            same_pkg.push(j);
            assert(as_ints(same_pkg@) =~= as_ints(before_same).push(j as int));
        }
        j = j + 1;
    }
    if covered.len() > 0 {
        covered
    } else {
        same_pkg
    }
}

/// The members of the type named `inner_name` in a file's `symbols`, in file
/// order: when no symbol has the name, every non-private symbol of a kind
/// that counts in `context`; otherwise the members of the symbol
/// representing it ([`type_symbol_choice`]), by container tag and recorded
/// package in a compiled archive's file (`compiled`, see [`jar_members`]),
/// else by nesting ([`workspace_member`]).
pub open spec fn nested_type_members(
    symbols: Seq<SymbolEntry>,
    compiled: bool,
    packages: Option<Seq<String>>,
    imports: Seq<ImportEntry>,
    inner: Seq<char>,
    context: MembershipContext,
) -> Seq<int> {
    let t = type_symbol_choice(symbols, inner);
    if t == -1 {
        pick_indices(|j: int| symbols[j].visibility != Visibility::Private && member_kind_ok(context, symbols[j].kind), symbols.len() as int)
    } else if compiled {
        jar_members(symbols, packages, imports, inner, context, t)
    } else {
        pick_indices(workspace_member(symbols, t, context), symbols.len() as int)
    }
}

/// The indices of the members of the type named `inner_name` among a file's
/// `symbols` (see [`nested_type_members`]).
pub fn nested_type_member_indices(
    symbols: &Vec<SymbolEntry>,
    compiled: bool,
    packages: Option<&Vec<String>>,
    caller_imports: Option<&Vec<ImportEntry>>,
    inner_name: &str,
    context: MembershipContext,
) -> (out: Vec<usize>)
    ensures
        as_ints(out@) == nested_type_members(
            symbols@,
            compiled,
            packages_view(packages),
            match caller_imports {
                Some(v) => v@,
                None => Seq::empty(),
            },
            inner_name@,
            context,
        ),
{
    match type_symbol_index(symbols, inner_name) {
        None => {
            let ghost keep = |j: int| symbols@[j].visibility != Visibility::Private && member_kind_ok(context, symbols@[j].kind);
            let mut out: Vec<usize> = Vec::new();
            let mut j: usize = 0;
            while j < symbols.len()
                invariant
                    keep == (|j: int| symbols@[j].visibility != Visibility::Private && member_kind_ok(context, symbols@[j].kind)),
                    j <= symbols@.len(),
                    as_ints(out@) == pick_indices(keep, j as int),
                decreases symbols.len() - j,
            {
                let hit = symbols[j].visibility != Visibility::Private && member_kind_allowed(context, symbols[j].kind);
                assert(hit == keep(j as int));
                let ghost before = out@;
                if hit {
                    out.push(j);
                    assert(as_ints(out@) =~= as_ints(before).push(j as int));
                }
                j = j + 1;
            }
            out
        },
        Some(t) => if compiled {
            jar_member_indices(symbols, packages, caller_imports, inner_name, t, context)
        } else {
            workspace_member_indices(symbols, t, context)
        },
    }
}

} // verus!
