//! Ambiguity tie-breaks: narrowing a same-named candidate set down to one, in
//! decreasing order of certainty (denylist → module-scoped Gradle
//! dependencies → Kotlin default imports → the calling file's own imports).

use vstd::prelude::*;
use vstd::seq_lib::group_filter_ensures;

use crate::imports::{
    default_import_packages, import_package_prefix, import_package_prefix_spec,
    is_default_import_package,
};
use crate::text::{seq_starts_with, starts_with, str_chars};
use crate::types::{duplicate_opt_string, str_eq, ImportEntry, Location};

verus! {

/// One definition candidate for an ambiguous name, with the facts about it
/// that the tie-breaks read.
pub struct Candidate {
    pub location: Location,
    /// The candidate's own package (per-symbol JAR package, else its file's
    /// package), when known.
    pub package: Option<String>,
    /// Whether the candidate's JAR is a real Gradle dependency of the module
    /// that owns the calling file.
    pub module_dependency: bool,
}

impl Candidate {
    /// An identical copy of this candidate.
    pub fn duplicate(&self) -> (r: Candidate)
        ensures
            r == *self,
    {
        Candidate {
            location: self.location.duplicate(),
            package: duplicate_opt_string(&self.package),
            module_dependency: self.module_dependency,
        }
    }
}

/// What the tie-breaks know about the calling file.
pub struct TieBreakOrigin {
    /// Whether per-module Gradle dependency data exists for the calling
    /// file's owning module.
    pub module_data_known: bool,
    /// The calling file's imports, or `None` when that file is not indexed.
    pub imports: Option<Vec<ImportEntry>>,
}

/// The one package prefix that no app-facing reference can ever resolve into:
/// Android's hidden platform-internal API.
pub open spec fn denylisted_prefix() -> Seq<char> {
    "com.android.internal."@
}

/// `c`'s package is known and starts with the denylisted prefix.
pub open spec fn is_denylisted(c: Candidate) -> bool {
    match c.package {
        Some(p) => seq_starts_with(p@, denylisted_prefix()),
        None => false,
    }
}

/// `c`'s package is known and is one of Kotlin's default-import packages.
pub open spec fn in_default_import_package(c: Candidate) -> bool {
    match c.package {
        Some(p) => default_import_packages().contains(p@),
        None => false,
    }
}

/// The packages a file's imports vouch for: a star import's own path, else
/// the package prefix of the imported name.
pub open spec fn imported_package_of(i: ImportEntry) -> Seq<char> {
    if i.is_star {
        i.full_path@
    } else {
        import_package_prefix_spec(i.full_path@)
    }
}

pub open spec fn imported_packages(imports: Seq<ImportEntry>) -> Seq<Seq<char>> {
    imports.map_values(|i: ImportEntry| imported_package_of(i))
}

/// `c`'s package is known and is one of `pkgs`.
pub open spec fn in_packages(c: Candidate, pkgs: Seq<Seq<char>>) -> bool {
    match c.package {
        Some(p) => pkgs.contains(p@),
        None => false,
    }
}

/// The filters the tie-breaks apply.
pub enum Rule {
    NotDenylisted,
    ModuleDependency,
    DefaultImportPackage,
    ImportedPackage { packages: Vec<String> },
}

pub open spec fn rule_pred(rule: Rule) -> spec_fn(Candidate) -> bool {
    match rule {
        Rule::NotDenylisted => |c: Candidate| !is_denylisted(c),
        Rule::ModuleDependency => |c: Candidate| c.module_dependency,
        Rule::DefaultImportPackage => |c: Candidate| in_default_import_package(c),
        Rule::ImportedPackage { packages } => |c: Candidate|
            in_packages(c, packages.deep_view()),
    }
}

fn rule_holds(rule: &Rule, c: &Candidate) -> (r: bool)
    ensures
        r == rule_pred(*rule)(*c),
{
    match rule {
        Rule::NotDenylisted => match &c.package {
            Some(p) => {
                let pre = str_chars("com.android.internal.");
                !starts_with(&str_chars(p.as_str()), &pre)
            },
            None => true,
        },
        Rule::ModuleDependency => c.module_dependency,
        Rule::DefaultImportPackage => match &c.package {
            Some(p) => is_default_import_package(p.as_str()),
            None => false,
        },
        Rule::ImportedPackage { packages } => match &c.package {
            Some(p) => string_in(p.as_str(), packages),
            None => false,
        },
    }
}

/// Whether `needle` equals one of `candidates`.
pub fn string_in(needle: &str, candidates: &Vec<String>) -> (r: bool)
    ensures
        r == candidates.deep_view().contains(needle@),
{
    let mut i: usize = 0;
    while i < candidates.len()
        invariant
            i <= candidates@.len(),
            forall|j: int| 0 <= j < i ==> candidates.deep_view()[j] != needle@,
        decreases candidates.len() - i,
    {
        if str_eq(needle, candidates[i].as_str()) {
            assert(candidates.deep_view()[i as int] == needle@);
            return true;
        }
        i = i + 1;
    }
    false
}

/// The candidates of `cands` that `rule` keeps, in their original order.
fn filter_by(rule: &Rule, cands: &Vec<Candidate>) -> (out: Vec<Candidate>)
    ensures
        out@ == cands@.filter(rule_pred(*rule)),
{
    let ghost pred = rule_pred(*rule);
    let mut out: Vec<Candidate> = Vec::new();
    let mut i: usize = 0;
    while i < cands.len()
        invariant
            pred == rule_pred(*rule),
            i <= cands@.len(),
            out@ == cands@.take(i as int).filter(pred),
        decreases cands.len() - i,
    {
        let keep = rule_holds(rule, &cands[i]);
        if keep {
            out.push(cands[i].duplicate());
        }
        proof {
            reveal(Seq::filter);
            let t = cands@.take(i + 1int);
            assert(t.drop_last() =~= cands@.take(i as int));
            assert(t.last() == cands@[i as int]);
        }
        i = i + 1;
    }
    assert(cands@.take(cands@.len() as int) =~= cands@);
    out
}

/// Outcome of consulting per-module Gradle dependency data.
pub enum ModuleScopedOutcome {
    /// No dependency data exists for the calling file's module.
    NoData,
    /// Data exists, but no candidate is a dependency of the calling module —
    /// treated like `NoData` (the data may be incomplete).
    NoDependenciesSurvived,
    /// The non-empty subset of candidates that are real dependencies.
    Narrowed(Vec<Candidate>),
}

pub open spec fn module_scoped_spec(
    module_data_known: bool,
    cands: Seq<Candidate>,
) -> Option<Seq<Candidate>> {
    if !module_data_known {
        None
    } else {
        let narrowed = cands.filter(rule_pred(Rule::ModuleDependency));
        if narrowed.len() == 0 {
            None
        } else {
            Some(narrowed)
        }
    }
}

/// Narrow to the candidates whose own JAR is a dependency of the calling
/// file's module (see [`ModuleScopedOutcome`]).
pub fn module_scoped_tie_break(module_data_known: bool, cands: &Vec<Candidate>) -> (out:
    ModuleScopedOutcome)
    ensures
        match out {
            ModuleScopedOutcome::NoData => !module_data_known,
            ModuleScopedOutcome::NoDependenciesSurvived => module_data_known
                && module_scoped_spec(module_data_known, cands@) is None,
            ModuleScopedOutcome::Narrowed(v) => module_scoped_spec(module_data_known, cands@)
                == Some(v@),
        },
{
    if !module_data_known {
        return ModuleScopedOutcome::NoData;
    }
    let narrowed = filter_by(&Rule::ModuleDependency, cands);
    if narrowed.len() == 0 {
        ModuleScopedOutcome::NoDependenciesSurvived
    } else {
        ModuleScopedOutcome::Narrowed(narrowed)
    }
}

pub open spec fn default_import_spec(cands: Seq<Candidate>) -> Seq<Candidate> {
    let narrowed = cands.filter(rule_pred(Rule::DefaultImportPackage));
    if narrowed.len() == 0 {
        cands
    } else {
        narrowed
    }
}

/// Prefer candidates declared in a Kotlin default-import package; a no-op
/// when none is.
pub fn default_kotlin_import_tie_break(cands: Vec<Candidate>) -> (out: Vec<Candidate>)
    ensures
        out@ == default_import_spec(cands@),
{
    let narrowed = filter_by(&Rule::DefaultImportPackage, &cands);
    if narrowed.len() == 0 {
        cands
    } else {
        narrowed
    }
}

pub open spec fn import_package_spec(
    imports: Option<Seq<ImportEntry>>,
    cands: Seq<Candidate>,
) -> Seq<Candidate> {
    match imports {
        None => Seq::empty(),
        Some(imps) => if imps.len() == 0 {
            Seq::empty()
        } else {
            let narrowed = cands.filter(
                |c: Candidate| in_packages(c, imported_packages(imps)),
            );
            if narrowed.len() == 1 {
                narrowed
            } else {
                Seq::empty()
            }
        },
    }
}

pub open spec fn origin_imports(origin: TieBreakOrigin) -> Option<Seq<ImportEntry>> {
    match origin.imports {
        Some(v) => Some(v@),
        None => None,
    }
}

/// The packages the imports of a file vouch for, in import order.
fn imported_package_list(imports: &Vec<ImportEntry>) -> (out: Vec<String>)
    ensures
        out.deep_view() == imported_packages(imports@),
{
    let mut out: Vec<String> = Vec::new();
    let mut i: usize = 0;
    while i < imports.len()
        invariant
            i <= imports@.len(),
            out.deep_view() == imported_packages(imports@.take(i as int)),
        decreases imports.len() - i,
    {
        let ghost before = out.deep_view();
        let imp = &imports[i];
        if imp.is_star {
            out.push(imp.full_path.clone());
        } else {
            out.push(import_package_prefix(imp.full_path.as_str()));
        }
        proof {
            assert(out.deep_view() =~= before.push(imported_package_of(imports@[i as int])));
            assert(imported_packages(imports@.take(i + 1int)) =~= imported_packages(
                imports@.take(i as int),
            ).push(imported_package_of(imports@[i as int])));
        }
        i = i + 1;
    }
    assert(imports@.take(imports@.len() as int) =~= imports@);
    out
}

/// Narrow to candidates whose package some import of the calling file
/// vouches for; declines (empty) unless exactly one survives.
pub fn import_package_tie_break(origin: &TieBreakOrigin, cands: Vec<Candidate>) -> (out: Vec<
    Candidate,
>)
    ensures
        out@ == import_package_spec(origin_imports(*origin), cands@),
{
    let imports = match &origin.imports {
        Some(imports) => imports,
        None => return Vec::new(),
    };
    if imports.len() == 0 {
        return Vec::new();
    }
    let packages = imported_package_list(imports);
    let rule = Rule::ImportedPackage { packages };
    let narrowed = filter_by(&rule, &cands);
    proof {
        assert(rule_pred(rule) =~= (|c: Candidate| in_packages(c, imported_packages(imports@))));
    }
    if narrowed.len() == 1 {
        narrowed
    } else {
        Vec::new()
    }
}

/// The whole tail: a unique candidate wins outright; otherwise the
/// denylist, module, default-import and import-package tie-breaks run in
/// turn, each only ever narrowing what the one before it left.
pub open spec fn tail_spec(origin: TieBreakOrigin, cands: Seq<Candidate>) -> Seq<Candidate> {
    if cands.len() == 1 {
        cands
    } else if cands.len() == 0 {
        Seq::empty()
    } else {
        let filtered = cands.filter(rule_pred(Rule::NotDenylisted));
        if filtered.len() == 1 {
            filtered
        } else if filtered.len() < 2 {
            Seq::empty()
        } else {
            match module_scoped_spec(origin.module_data_known, filtered) {
                Some(narrowed) => if narrowed.len() == 1 {
                    narrowed
                } else {
                    after_module_spec(origin, narrowed)
                },
                None => after_module_spec(origin, filtered),
            }
        }
    }
}

pub open spec fn after_module_spec(origin: TieBreakOrigin, cands: Seq<Candidate>) -> Seq<
    Candidate,
> {
    let after_default = default_import_spec(cands);
    if after_default.len() == 1 {
        after_default
    } else {
        import_package_spec(origin_imports(origin), after_default)
    }
}

/// Narrow an ambiguous set of same-named definition candidates (see
/// [`tail_spec`]). Returns at most one candidate; an empty result means
/// "declined: still ambiguous".
pub fn ambiguity_safe_tail_with_denylist(origin: &TieBreakOrigin, locations: Vec<Candidate>) -> (out:
    Vec<Candidate>)
    ensures
        out@ == tail_spec(*origin, locations@),
{
    if locations.len() == 1 {
        return locations;
    }
    if locations.len() == 0 {
        return Vec::new();
    }
    let filtered = filter_by(&Rule::NotDenylisted, &locations);
    if filtered.len() == 1 {
        return filtered;
    }
    if filtered.len() < 2 {
        return Vec::new();
    }
    let after_module_scope = match module_scoped_tie_break(origin.module_data_known, &filtered) {
        ModuleScopedOutcome::Narrowed(narrowed) => {
            if narrowed.len() == 1 {
                return narrowed;
            }
            narrowed
        },
        ModuleScopedOutcome::NoData => filtered,
        ModuleScopedOutcome::NoDependenciesSurvived => filtered,
    };
    let after_default_import = default_kotlin_import_tie_break(after_module_scope);
    if after_default_import.len() == 1 {
        return after_default_import;
    }
    import_package_tie_break(origin, after_default_import)
}

// ─── Laws ─────────────────────────────────────────────────────────────────────

proof fn lemma_filter_member(s: Seq<Candidate>, p: spec_fn(Candidate) -> bool, x: Candidate)
    requires
        s.filter(p).contains(x),
    ensures
        s.contains(x),
        p(x),
{
    broadcast use group_filter_ensures;

    s.lemma_filter_contains_rev(p, x);
    let i = choose|i: int| 0 <= i < s.filter(p).len() && s.filter(p)[i] == x;
    assert(p(s.filter(p)[i]));
}

proof fn lemma_import_spec_member(
    imports: Option<Seq<ImportEntry>>,
    cands: Seq<Candidate>,
    x: Candidate,
)
    requires
        import_package_spec(imports, cands).contains(x),
    ensures
        cands.contains(x),
        import_package_spec(imports, cands).len() == 1,
{
    if let Some(imps) = imports {
        if imps.len() > 0 {
            let p = |c: Candidate| in_packages(c, imported_packages(imps));
            lemma_filter_member(cands, p, x);
        }
    }
}

proof fn lemma_after_module_member(origin: TieBreakOrigin, cands: Seq<Candidate>, x: Candidate)
    requires
        after_module_spec(origin, cands).contains(x),
    ensures
        cands.contains(x),
        after_module_spec(origin, cands).len() == 1,
{
    let d = default_import_spec(cands);
    let pred = rule_pred(Rule::DefaultImportPackage);
    if d.len() == 1 {
        if cands.filter(pred).len() != 0 {
            lemma_filter_member(cands, pred, x);
        }
    } else {
        lemma_import_spec_member(origin_imports(origin), d, x);
        if cands.filter(pred).len() != 0 {
            lemma_filter_member(cands, pred, x);
        }
    }
}

/// A unique candidate wins outright; otherwise the tail picks at most one
/// candidate, and only ever one of the candidates it was given.
pub proof fn law_tail_picks_at_most_one_of_its_input(origin: TieBreakOrigin, cands: Seq<Candidate>)
    ensures
        tail_spec(origin, cands).len() <= 1,
        cands.len() == 1 ==> tail_spec(origin, cands) == cands,
        forall|x: Candidate| #[trigger]
            tail_spec(origin, cands).contains(x) ==> cands.contains(x),
{
    broadcast use group_filter_ensures;

    assert forall|x: Candidate| #[trigger] tail_spec(origin, cands).contains(x) implies cands.contains(
        x,
    ) by {
        law_tail_member_facts(origin, cands, x);
    }
    if tail_spec(origin, cands).len() > 1 {
        let x = tail_spec(origin, cands)[0];
        assert(tail_spec(origin, cands).contains(x));
        law_tail_member_facts(origin, cands, x);
    }
}

/// Whatever the tail picks from two or more candidates is never in a
/// denylisted package, and, when the calling module's dependency data names
/// at least one admissible candidate, is one of the module's dependencies:
/// a later, weaker tie-break never resurrects a candidate an earlier one
/// ruled out.
pub proof fn law_tail_member_facts(origin: TieBreakOrigin, cands: Seq<Candidate>, x: Candidate)
    requires
        tail_spec(origin, cands).contains(x),
    ensures
        cands.contains(x),
        tail_spec(origin, cands).len() == 1,
        cands.len() >= 2 ==> !is_denylisted(x),
        cands.len() >= 2 && origin.module_data_known && (exists|y: Candidate|
            cands.contains(y) && !is_denylisted(y) && y.module_dependency) ==> x.module_dependency,
{
    broadcast use group_filter_ensures;

    if cands.len() >= 2 {
        let nd = rule_pred(Rule::NotDenylisted);
        let md = rule_pred(Rule::ModuleDependency);
        let filtered = cands.filter(nd);
        if filtered.len() == 1 {
            lemma_filter_member(cands, nd, x);
            if origin.module_data_known && (exists|y: Candidate|
                cands.contains(y) && !is_denylisted(y) && y.module_dependency) {
                let y = choose|y: Candidate|
                    cands.contains(y) && !is_denylisted(y) && y.module_dependency;
                let i = choose|i: int| 0 <= i < cands.len() && cands[i] == y;
                assert(filtered.contains(cands[i]));
                assert(filtered[0] == x);
            }
        } else if filtered.len() >= 2 {
            match module_scoped_spec(origin.module_data_known, filtered) {
                Some(narrowed) => {
                    if narrowed.len() == 1 {
                        lemma_filter_member(filtered, md, x);
                    } else {
                        lemma_after_module_member(origin, narrowed, x);
                        lemma_filter_member(filtered, md, x);
                    }
                    lemma_filter_member(cands, nd, x);
                },
                None => {
                    lemma_after_module_member(origin, filtered, x);
                    lemma_filter_member(cands, nd, x);
                    if origin.module_data_known && (exists|y: Candidate|
                        cands.contains(y) && !is_denylisted(y) && y.module_dependency) {
                        let y = choose|y: Candidate|
                            cands.contains(y) && !is_denylisted(y) && y.module_dependency;
                        let i = choose|i: int| 0 <= i < cands.len() && cands[i] == y;
                        assert(filtered.contains(cands[i]));
                        let j = choose|j: int| 0 <= j < filtered.len() && filtered[j] == y;
                        assert(filtered.filter(md).contains(filtered[j]));
                    }
                },
            }
        }
    }
}


// ─── Which candidate the tail picks ─────────────────────────────────────────

/// Module scoping applies to `cands`: the calling module's dependency data
/// exists and names at least one candidate outside the denylist.
pub open spec fn module_scoping_applies(origin: TieBreakOrigin, cands: Seq<Candidate>) -> bool {
    origin.module_data_known && exists|k: int|
        0 <= k < cands.len() && !is_denylisted(#[trigger] cands[k]) && cands[k].module_dependency
}

/// `c` is outside the denylist and, when module scoping applies, a
/// dependency of the calling module.
pub open spec fn survives_scoping(origin: TieBreakOrigin, cands: Seq<Candidate>, c: Candidate) -> bool {
    !is_denylisted(c) && (module_scoping_applies(origin, cands) ==> c.module_dependency)
}

/// Some candidate that survives scoping lies in a Kotlin default-import
/// package.
pub open spec fn default_import_applies(origin: TieBreakOrigin, cands: Seq<Candidate>) -> bool {
    exists|k: int|
        0 <= k < cands.len() && survives_scoping(origin, cands, #[trigger] cands[k])
            && in_default_import_package(cands[k])
}

/// `c` survives scoping and, when some survivor lies in a Kotlin
/// default-import package, lies in one too.
pub open spec fn survives_default_imports(origin: TieBreakOrigin, cands: Seq<Candidate>, c: Candidate) -> bool {
    survives_scoping(origin, cands, c) && (default_import_applies(origin, cands) ==> in_default_import_package(c))
}

proof fn lemma_filter_filter<A>(s: Seq<A>, p: spec_fn(A) -> bool, q: spec_fn(A) -> bool)
    ensures
        s.filter(p).filter(q) == s.filter(|x: A| p(x) && q(x)),
    decreases s.len(),
{
    reveal(Seq::filter);
    if s.len() > 0 {
        lemma_filter_filter(s.drop_last(), p, q);
        let a = s.drop_last().filter(p);
        if p(s.last()) {
            assert(a.push(s.last()).drop_last() =~= a);
        }
    }
}

proof fn lemma_filter_agree<A>(s: Seq<A>, p: spec_fn(A) -> bool, q: spec_fn(A) -> bool)
    requires
        forall|i: int| 0 <= i < s.len() ==> p(#[trigger] s[i]) == q(s[i]),
    ensures
        s.filter(p) == s.filter(q),
    decreases s.len(),
{
    reveal(Seq::filter);
    if s.len() > 0 {
        let d = s.drop_last();
        assert forall|i: int| 0 <= i < d.len() implies p(#[trigger] d[i]) == q(d[i]) by {
            assert(d[i] == s[i]);
        }
        lemma_filter_agree(d, p, q);
        assert(s.last() == s[s.len() - 1]);
    }
}

proof fn lemma_filter_none<A>(s: Seq<A>, p: spec_fn(A) -> bool)
    requires
        forall|i: int| 0 <= i < s.len() ==> !p(#[trigger] s[i]),
    ensures
        s.filter(p) == Seq::<A>::empty(),
    decreases s.len(),
{
    reveal(Seq::filter);
    if s.len() > 0 {
        let d = s.drop_last();
        assert forall|i: int| 0 <= i < d.len() implies !p(#[trigger] d[i]) by {
            assert(d[i] == s[i]);
        }
        lemma_filter_none(d, p);
        assert(s.last() == s[s.len() - 1]);
    }
}

proof fn lemma_filter_one<A>(s: Seq<A>, p: spec_fn(A) -> bool, i: int)
    requires
        0 <= i < s.len(),
        p(s[i]),
        forall|j: int| 0 <= j < s.len() && j != i ==> !p(#[trigger] s[j]),
    ensures
        s.filter(p) == seq![s[i]],
    decreases s.len(),
{
    reveal(Seq::filter);
    let d = s.drop_last();
    assert(s.last() == s[s.len() - 1]);
    if i == s.len() - 1 {
        assert forall|j: int| 0 <= j < d.len() implies !p(#[trigger] d[j]) by {
            assert(d[j] == s[j]);
        }
        lemma_filter_none(d, p);
        assert(Seq::<A>::empty().push(s[i]) =~= seq![s[i]]);
    } else {
        assert forall|j: int| 0 <= j < d.len() && j != i implies !p(#[trigger] d[j]) by {
            assert(d[j] == s[j]);
        }
        assert(d[i] == s[i]);
        lemma_filter_one(d, p, i);
    }
}

proof fn lemma_filter_two<A>(s: Seq<A>, p: spec_fn(A) -> bool, a: int, b: int)
    requires
        0 <= a < b < s.len(),
        p(s[a]),
        p(s[b]),
    ensures
        s.filter(p).len() >= 2,
    decreases s.len(),
{
    broadcast use group_filter_ensures;

    reveal(Seq::filter);
    let d = s.drop_last();
    assert(s.last() == s[s.len() - 1]);
    assert(d[a] == s[a]);
    if b == s.len() - 1 {
        assert(d.filter(p).contains(d[a]));
    } else {
        assert(d[b] == s[b]);
        lemma_filter_two(d, p, a, b);
    }
}

proof fn lemma_filter_singleton_of<A>(s: Seq<A>, p: spec_fn(A) -> bool, i: int)
    requires
        0 <= i < s.len(),
        p(s[i]),
        s.filter(p).len() == 1,
    ensures
        s.filter(p) == seq![s[i]],
{
    broadcast use group_filter_ensures;

    assert(s.filter(p).contains(s[i]));
    assert(s.filter(p) =~= seq![s[i]]);
}

/// The candidates the module step leaves: those that survive scoping.
proof fn lemma_after_module_scope(origin: TieBreakOrigin, cands: Seq<Candidate>)
    requires
        cands.filter(rule_pred(Rule::NotDenylisted)).len() >= 2,
    ensures
        ({
            let filtered = cands.filter(rule_pred(Rule::NotDenylisted));
            let m = match module_scoped_spec(origin.module_data_known, filtered) {
                Some(n) => n,
                None => filtered,
            };
            &&& m == cands.filter(|c: Candidate| survives_scoping(origin, cands, c))
            &&& default_import_spec(m) == cands.filter(|c: Candidate| survives_default_imports(origin, cands, c))
        }),
{
    broadcast use group_filter_ensures;

    let nd = rule_pred(Rule::NotDenylisted);
    let md = rule_pred(Rule::ModuleDependency);
    let dp = rule_pred(Rule::DefaultImportPackage);
    let sv = |c: Candidate| survives_scoping(origin, cands, c);
    let sd = |c: Candidate| survives_default_imports(origin, cands, c);
    let filtered = cands.filter(nd);
    lemma_filter_filter(cands, nd, md);
    if module_scoping_applies(origin, cands) {
        let k = choose|k: int| 0 <= k < cands.len() && !is_denylisted(#[trigger] cands[k]) && cands[k].module_dependency;
        assert(filtered.contains(cands[k]));
        let j = choose|j: int| 0 <= j < filtered.len() && filtered[j] == cands[k];
        assert(filtered.filter(md).contains(filtered[j]));
        lemma_filter_agree(cands, |x: Candidate| nd(x) && md(x), sv);
    } else {
        if origin.module_data_known && filtered.filter(md).len() > 0 {
            let x = filtered.filter(md)[0];
            assert(md(x));
            assert(filtered.filter(md).contains(x));
            filtered.lemma_filter_contains_rev(md, x);
            assert(nd(x)) by {
                let j = choose|j: int| 0 <= j < filtered.len() && filtered[j] == x;
            }
            cands.lemma_filter_contains_rev(nd, x);
            let k = choose|k: int| 0 <= k < cands.len() && cands[k] == x;
            assert(!is_denylisted(cands[k]) && cands[k].module_dependency);
            assert(false);
        }
        lemma_filter_agree(cands, nd, sv);
    }
    let m = match module_scoped_spec(origin.module_data_known, filtered) {
        Some(n) => n,
        None => filtered,
    };
    assert(m == cands.filter(sv));
    lemma_filter_filter(cands, sv, dp);
    if default_import_applies(origin, cands) {
        let k = choose|k: int|
            0 <= k < cands.len() && survives_scoping(origin, cands, #[trigger] cands[k]) && in_default_import_package(cands[k]);
        assert(cands.filter(|x: Candidate| sv(x) && dp(x)).contains(cands[k]));
        lemma_filter_agree(cands, |x: Candidate| sv(x) && dp(x), sd);
    } else {
        lemma_filter_none(cands, |x: Candidate| sv(x) && dp(x));
        lemma_filter_agree(cands, sv, sd);
    }
}

/// When exactly one candidate survives every tie-break up to Kotlin's
/// default imports — outside the denylist, a dependency of the calling
/// module when the module's data names one, and in a default-import package
/// when some survivor is — the tail picks exactly that candidate. So module
/// scoping that leaves two candidates, one of them in `kotlin.collections`,
/// answers with that one.
pub proof fn law_tail_picks_the_one_survivor_of_the_default_imports(
    origin: TieBreakOrigin,
    cands: Seq<Candidate>,
    i: int,
)
    requires
        0 <= i < cands.len(),
        survives_default_imports(origin, cands, cands[i]),
        forall|j: int|
            0 <= j < cands.len() && j != i ==> !survives_default_imports(origin, cands, #[trigger] cands[j]),
    ensures
        tail_spec(origin, cands) == seq![cands[i]],
{
    broadcast use group_filter_ensures;

    if cands.len() == 1 {
        assert(cands =~= seq![cands[i]]);
    } else {
        let nd = rule_pred(Rule::NotDenylisted);
        let filtered = cands.filter(nd);
        assert(nd(cands[i]));
        assert(filtered.contains(cands[i]));
        if filtered.len() == 1 {
            lemma_filter_singleton_of(cands, nd, i);
        } else {
            let sv = |c: Candidate| survives_scoping(origin, cands, c);
            let sd = |c: Candidate| survives_default_imports(origin, cands, c);
            lemma_after_module_scope(origin, cands);
            lemma_filter_one(cands, sd, i);
            match module_scoped_spec(origin.module_data_known, filtered) {
                Some(n) => {
                    if n.len() == 1 {
                        assert(sv(cands[i]));
                        lemma_filter_singleton_of(cands, sv, i);
                    }
                },
                None => {},
            }
        }
    }
}

/// When at least two candidates survive every tie-break up to Kotlin's
/// default imports and the calling file has imports, the tail picks the one
/// such candidate whose package an import vouches for, when there is exactly
/// one.
pub proof fn law_tail_picks_the_one_imported_survivor(
    origin: TieBreakOrigin,
    cands: Seq<Candidate>,
    a: int,
    b: int,
    i: int,
)
    requires
        0 <= a < b < cands.len(),
        survives_default_imports(origin, cands, cands[a]),
        survives_default_imports(origin, cands, cands[b]),
        origin.imports matches Some(imps) && imps@.len() > 0,
        0 <= i < cands.len(),
        survives_default_imports(origin, cands, cands[i]),
        in_packages(cands[i], imported_packages(origin.imports->0@)),
        forall|j: int|
            0 <= j < cands.len() && j != i && survives_default_imports(origin, cands, #[trigger] cands[j])
                ==> !in_packages(cands[j], imported_packages(origin.imports->0@)),
    ensures
        tail_spec(origin, cands) == seq![cands[i]],
{
    broadcast use group_filter_ensures;

    let imps = origin.imports->0@;
    let nd = rule_pred(Rule::NotDenylisted);
    let sv = |c: Candidate| survives_scoping(origin, cands, c);
    let sd = |c: Candidate| survives_default_imports(origin, cands, c);
    let ip = |c: Candidate| in_packages(c, imported_packages(imps));
    let filtered = cands.filter(nd);
    assert(nd(cands[a]) && nd(cands[b]));
    lemma_filter_two(cands, nd, a, b);
    lemma_after_module_scope(origin, cands);
    assert(sv(cands[a]) && sv(cands[b]));
    lemma_filter_two(cands, sv, a, b);
    lemma_filter_two(cands, sd, a, b);
    let d = cands.filter(sd);
    lemma_filter_filter(cands, sd, ip);
    lemma_filter_one(cands, |x: Candidate| sd(x) && ip(x), i);
    assert(d.filter(ip) == seq![cands[i]]);
}

/// When at least two candidates survive every tie-break up to Kotlin's
/// default imports, the tail declines (picks nothing) unless the calling
/// file's imports vouch for exactly one of them: when the file is not
/// indexed, has no imports, or its imports vouch for none or for two of
/// them.
pub proof fn law_tail_declines_when_the_imports_do_not_single_one_out(
    origin: TieBreakOrigin,
    cands: Seq<Candidate>,
    a: int,
    b: int,
)
    requires
        0 <= a < b < cands.len(),
        survives_default_imports(origin, cands, cands[a]),
        survives_default_imports(origin, cands, cands[b]),
        ({
            ||| origin.imports is None
            ||| origin.imports matches Some(imps) && imps@.len() == 0
            ||| origin.imports matches Some(imps) && forall|j: int|
                0 <= j < cands.len() && survives_default_imports(origin, cands, #[trigger] cands[j])
                    ==> !in_packages(cands[j], imported_packages(imps@))
            ||| origin.imports matches Some(imps) && exists|c: int, e: int|
                0 <= c < e < cands.len() && survives_default_imports(origin, cands, #[trigger] cands[c])
                    && in_packages(cands[c], imported_packages(imps@)) && survives_default_imports(
                    origin,
                    cands,
                    #[trigger] cands[e],
                ) && in_packages(cands[e], imported_packages(imps@))
        }),
    ensures
        tail_spec(origin, cands).len() == 0,
{
    broadcast use group_filter_ensures;

    let nd = rule_pred(Rule::NotDenylisted);
    let sv = |c: Candidate| survives_scoping(origin, cands, c);
    let sd = |c: Candidate| survives_default_imports(origin, cands, c);
    assert(nd(cands[a]) && nd(cands[b]));
    lemma_filter_two(cands, nd, a, b);
    lemma_after_module_scope(origin, cands);
    assert(sv(cands[a]) && sv(cands[b]));
    lemma_filter_two(cands, sv, a, b);
    lemma_filter_two(cands, sd, a, b);
    if let Some(iv) = origin.imports {
        let imps = iv@;
        if imps.len() > 0 {
            let ip = |c: Candidate| in_packages(c, imported_packages(imps));
            lemma_filter_filter(cands, sd, ip);
            if exists|c: int, e: int|
                0 <= c < e < cands.len() && survives_default_imports(origin, cands, #[trigger] cands[c])
                    && in_packages(cands[c], imported_packages(imps)) && survives_default_imports(
                    origin,
                    cands,
                    #[trigger] cands[e],
                ) && in_packages(cands[e], imported_packages(imps)) {
                let (c, e) = choose|c: int, e: int|
                    0 <= c < e < cands.len() && survives_default_imports(origin, cands, #[trigger] cands[c])
                        && in_packages(cands[c], imported_packages(imps)) && survives_default_imports(
                        origin,
                        cands,
                        #[trigger] cands[e],
                    ) && in_packages(cands[e], imported_packages(imps));
                lemma_filter_two(cands, |x: Candidate| sd(x) && ip(x), c, e);
            } else {
                lemma_filter_none(cands, |x: Candidate| sd(x) && ip(x));
            }
        }
    }
}

/// Two or more candidates all in the denylisted package: the tail declines.
pub proof fn law_tail_declines_when_every_candidate_is_denylisted(origin: TieBreakOrigin, cands: Seq<Candidate>)
    requires
        cands.len() >= 2,
        forall|j: int| 0 <= j < cands.len() ==> is_denylisted(#[trigger] cands[j]),
    ensures
        tail_spec(origin, cands).len() == 0,
{
    lemma_filter_none(cands, rule_pred(Rule::NotDenylisted));
}

} // verus!
