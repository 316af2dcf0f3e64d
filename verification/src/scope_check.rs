//! The two reachability questions behind the missing-import diagnostic: is a
//! name reachable from a file's own scope alone, and does an extension
//! receiver type provide a name as a member or extension?
//!
//! Both walk a fixed list of checks and stop at the first that succeeds.
//! The checks that need the whole index (symbol lookups, line scans, the
//! class hierarchy) are answered by the caller; the ones that only read the
//! file's or a definition's own data are decided here.

use vstd::prelude::*;

use crate::extensions::ExtensionEntry;
use crate::find::encloses_target;
use crate::imports::{explicitly_imported, has_explicit_import};
use crate::platform::{is_stdlib, stdlib_package};
use crate::segments::{starts_uppercase, str_starts_uppercase};
use crate::types::{class_kind, range_encloses, str_eq, FileData, ImportEntry, Range};

verus! {

// ─── In-scope reachability ─────────────────────────────────────────────────

/// One check of [`resolve_in_scope_strict`], in the order they are tried.
#[derive(Clone, Copy, PartialEq, Eq, Structural, Debug)]
pub enum ScopeStep {
    /// A declaration of the name in the file itself.
    Local,
    /// An explicit import whose local name is the name.
    ExplicitImport,
    /// Available through Kotlin's default imports.
    DefaultImport,
    /// A parameter or local value found by scanning the file's lines (only
    /// for names that do not start with an uppercase letter).
    LocalDeclaration,
    /// Resolution through the file's imports, without running `fd`.
    Imports,
    /// A star import of a class's members.
    ClassStarImport,
    /// A declaration in the file's own package.
    SamePackage,
    /// A star import of a platform package, which may bring in any name.
    StdlibStarImport,
    /// A declaration in a star-imported package.
    StarImports,
    /// A member inherited from a supertype of an enclosing class.
    Hierarchy,
}

/// The number of checks of [`resolve_in_scope_strict`].
pub const SCOPE_STEPS: usize = 10;

/// The check tried `i`-th.
pub open spec fn scope_step_at(i: int) -> ScopeStep {
    if i == 0 {
        ScopeStep::Local
    } else if i == 1 {
        ScopeStep::ExplicitImport
    } else if i == 2 {
        ScopeStep::DefaultImport
    } else if i == 3 {
        ScopeStep::LocalDeclaration
    } else if i == 4 {
        ScopeStep::Imports
    } else if i == 5 {
        ScopeStep::ClassStarImport
    } else if i == 6 {
        ScopeStep::SamePackage
    } else if i == 7 {
        ScopeStep::StdlibStarImport
    } else if i == 8 {
        ScopeStep::StarImports
    } else {
        ScopeStep::Hierarchy
    }
}

fn scope_step(i: usize) -> (s: ScopeStep)
    requires
        i < SCOPE_STEPS,
    ensures
        s == scope_step_at(i as int),
{
    if i == 0 {
        ScopeStep::Local
    } else if i == 1 {
        ScopeStep::ExplicitImport
    } else if i == 2 {
        ScopeStep::DefaultImport
    } else if i == 3 {
        ScopeStep::LocalDeclaration
    } else if i == 4 {
        ScopeStep::Imports
    } else if i == 5 {
        ScopeStep::ClassStarImport
    } else if i == 6 {
        ScopeStep::SamePackage
    } else if i == 7 {
        ScopeStep::StdlibStarImport
    } else if i == 8 {
        ScopeStep::StarImports
    } else {
        ScopeStep::Hierarchy
    }
}

/// Some import of `imports` is a star import of a platform package.
pub open spec fn stdlib_star_imported(imports: Seq<ImportEntry>) -> bool {
    exists|i: int| 0 <= i < imports.len() && (#[trigger] imports[i]).is_star && stdlib_package(imports[i].full_path@)
}

/// Whether the indexed file `file` star-imports a platform package
/// (`import java.util.*`). `false` when the file is not indexed.
pub fn has_stdlib_star_import(file: Option<&FileData>) -> (r: bool)
    ensures
        r == (file matches Some(fd) && stdlib_star_imported(fd.imports@)),
{
    let fd = match file {
        None => return false,
        Some(fd) => fd,
    };
    let mut i: usize = 0;
    while i < fd.imports.len()
        invariant
            file == Some(fd),
            i <= fd.imports@.len(),
            forall|j: int| 0 <= j < i ==> !((#[trigger] fd.imports@[j]).is_star && stdlib_package(fd.imports@[j].full_path@)),
        decreases fd.imports.len() - i,
    {
        if fd.imports[i].is_star && is_stdlib(fd.imports[i].full_path.as_str()) {
            assert(fd.imports@[i as int].is_star && stdlib_package(fd.imports@[i as int].full_path@));
            return true;
        }
        i = i + 1;
    }
    false
}

/// The checks decided from the file alone.
pub open spec fn decided_here(s: ScopeStep) -> bool {
    s == ScopeStep::ExplicitImport || s == ScopeStep::StdlibStarImport
}

/// What a check decided from the file alone answers.
pub open spec fn own_verdict(s: ScopeStep, file: Option<&FileData>, name: Seq<char>) -> bool {
    match file {
        None => false,
        Some(fd) => if s == ScopeStep::ExplicitImport {
            explicitly_imported(fd.imports@, name)
        } else {
            stdlib_star_imported(fd.imports@)
        },
    }
}

/// The check is not run for this name (it then counts as a no).
pub open spec fn skipped_for(s: ScopeStep, name: Seq<char>) -> bool {
    s == ScopeStep::LocalDeclaration && starts_uppercase(name)
}

/// `v` is what check `i` answered: no for a skipped check, the file's own
/// answer for a check decided here, and an answer `ask` may give otherwise.
pub open spec fn step_verdict<F: Fn(ScopeStep) -> bool>(
    ask: F,
    file: Option<&FileData>,
    name: Seq<char>,
    i: int,
    v: bool,
) -> bool {
    let s = scope_step_at(i);
    if skipped_for(s, name) {
        !v
    } else if decided_here(s) {
        v == own_verdict(s, file, name)
    } else {
        ask.ensures((s,), v)
    }
}

/// `vs` are the answers of the checks run, in order: every answer but the
/// last is no, and the walk stopped early only at a yes.
pub open spec fn scope_walk<F: Fn(ScopeStep) -> bool>(
    ask: F,
    file: Option<&FileData>,
    name: Seq<char>,
    vs: Seq<bool>,
) -> bool {
    &&& vs.len() <= SCOPE_STEPS
    &&& forall|i: int| 0 <= i < vs.len() ==> #[trigger] step_verdict(ask, file, name, i, vs[i])
    &&& forall|i: int| 0 <= i < vs.len() - 1 ==> !vs[i]
    &&& vs.len() < SCOPE_STEPS ==> vs.len() > 0 && vs.last()
}

/// Whether `name` is reachable from the file's own scope alone: a local
/// declaration, an explicit import, a default import, a parameter or local
/// value, the imports, a class star import, the same package, a star import
/// of a platform package, a star-imported package, or an inherited member
/// (the [`ScopeStep`]s, in order; the first yes wins). Unlike resolution it
/// never falls back to the global definitions: a name declared somewhere but
/// not reachable here is exactly a missing import.
///
/// `file` is the indexed data of the file (`None` when it is not indexed);
/// `ask` answers the checks that need the index.
pub fn resolve_in_scope_strict<F: Fn(ScopeStep) -> bool>(name: &str, file: Option<&FileData>, ask: F) -> (r:
    bool)
    requires
        forall|s: ScopeStep| ask.requires((s,)),
    ensures
        exists|vs: Seq<bool>| #[trigger] scope_walk(ask, file, name@, vs) && r == (vs.len() > 0 && vs.last()),
        own_verdict(ScopeStep::ExplicitImport, file, name@) ==> r,
        own_verdict(ScopeStep::StdlibStarImport, file, name@) ==> r,
{
    let uppercase = str_starts_uppercase(name);
    let ghost mut vs: Seq<bool> = Seq::empty();
    let mut i: usize = 0;
    while i < SCOPE_STEPS
        invariant
            forall|s: ScopeStep| ask.requires((s,)),
            uppercase == starts_uppercase(name@),
            i <= SCOPE_STEPS,
            vs.len() == i,
            forall|j: int| 0 <= j < i ==> #[trigger] step_verdict(ask, file, name@, j, vs[j]),
            forall|j: int| 0 <= j < i ==> !vs[j],
        decreases SCOPE_STEPS - i,
    {
        let step = scope_step(i);
        let yes = if step == ScopeStep::LocalDeclaration && uppercase {
            false
        } else if step == ScopeStep::ExplicitImport {
            has_explicit_import(file, name)
        } else if step == ScopeStep::StdlibStarImport {
            has_stdlib_star_import(file)
        } else {
            ask(step)
        };
        proof {
            vs = vs.push(yes);
            assert(step_verdict(ask, file, name@, i as int, yes));
        }
        if yes {
            proof {
                assert(scope_walk(ask, file, name@, vs));
            }
            return true;
        }
        i = i + 1;
    }
    proof {
        assert(scope_walk(ask, file, name@, vs));
        assert(step_verdict(ask, file, name@, 1, vs[1]));
        assert(step_verdict(ask, file, name@, 7, vs[7]));
    }
    false
}

// ─── Members an extension receiver provides ────────────────────────────────

/// A definition of a name, as a file (when it could be read) and the range
/// the index records for it.
pub struct DefinitionSite<'a> {
    pub file: Option<&'a FileData>,
    pub range: Range,
}

/// Symbol `k` of `fd` is a class-like declaration named `receiver` that
/// encloses `target` (so `receiver` is on the target's container chain).
pub open spec fn container_named_at(fd: &FileData, target: Range, receiver: Seq<char>, k: int) -> bool {
    &&& 0 <= k < fd.symbols@.len()
    &&& encloses_target(fd.symbols@, target)(k)
    &&& fd.symbols@[k].name@ == receiver
}

/// The workspace definition at `site` is declared inside a type named
/// `receiver`.
pub open spec fn workspace_member_of(site: DefinitionSite, receiver: Seq<char>) -> bool {
    match site.file {
        None => false,
        Some(fd) => exists|k: int| #[trigger] container_named_at(fd, site.range, receiver, k),
    }
}

/// The library definition at `site` records `receiver` as its container
/// (its file's symbol at the index of the range's start line).
pub open spec fn jar_member_of(site: DefinitionSite, receiver: Seq<char>) -> bool {
    match site.file {
        None => false,
        Some(fd) => {
            let l = site.range.start.line as int;
            &&& l < fd.symbols@.len()
            &&& fd.symbols@[l].container matches Some(c) && c@ == receiver
        },
    }
}

/// `receiver` declares `name` directly: an extension registered for it, a
/// workspace declaration inside it, or a library declaration recorded in it.
pub open spec fn declares_member(
    receiver: Seq<char>,
    name: Seq<char>,
    extensions: Option<Seq<ExtensionEntry>>,
    workspace_defs: Seq<DefinitionSite>,
    jar_defs: Seq<DefinitionSite>,
) -> bool {
    ||| extensions matches Some(es) && exists|i: int| 0 <= i < es.len() && (#[trigger] es[i]).name@ == name
    ||| exists|i: int| 0 <= i < workspace_defs.len() && workspace_member_of(#[trigger] workspace_defs[i], receiver)
    ||| exists|i: int| 0 <= i < jar_defs.len() && jar_member_of(#[trigger] jar_defs[i], receiver)
}

fn is_workspace_member(site: &DefinitionSite, receiver: &str) -> (r: bool)
    ensures
        r == workspace_member_of(*site, receiver@),
{
    let fd = match site.file {
        None => return false,
        Some(fd) => fd,
    };
    let mut k: usize = 0;
    while k < fd.symbols.len()
        invariant
            site.file == Some(fd),
            k <= fd.symbols@.len(),
            forall|m: int| 0 <= m < k ==> !#[trigger] container_named_at(fd, site.range, receiver@, m),
        decreases fd.symbols.len() - k,
    {
        let s = &fd.symbols[k];
        if class_kind_of(s.kind) && s.selection_range != site.range && range_encloses(s.range, site.range) && str_eq(
            s.name.as_str(),
            receiver,
        ) {
            assert(container_named_at(fd, site.range, receiver@, k as int));
            return true;
        }
        k = k + 1;
    }
    false
}

fn class_kind_of(k: crate::types::SymbolKind) -> (r: bool)
    ensures
        r == class_kind(k),
{
    match k {
        crate::types::SymbolKind::Class | crate::types::SymbolKind::Interface
        | crate::types::SymbolKind::Struct | crate::types::SymbolKind::Enum
        | crate::types::SymbolKind::Object => true,
        _ => false,
    }
}

fn is_jar_member(site: &DefinitionSite, receiver: &str) -> (r: bool)
    ensures
        r == jar_member_of(*site, receiver@),
{
    let fd = match site.file {
        None => return false,
        Some(fd) => fd,
    };
    let l = site.range.start.line as usize;
    if l < fd.symbols.len() {
        match &fd.symbols[l].container {
            Some(c) => str_eq(c.as_str(), receiver),
            None => false,
        }
    } else {
        false
    }
}

/// Whether the extension-receiver type `receiver` provides `name`, so that a
/// bare `name` inside `fun Receiver.f() { … }` is resolved by the receiver
/// and is no missing import. In order: an extension registered for
/// `receiver` named `name` (`extensions`, the entries registered for the
/// receiver); a workspace definition of `name` declared inside `receiver`
/// (`workspace_defs`); a library definition of `name` recorded in
/// `receiver` (`jar_defs`); and last a member inherited along `receiver`'s
/// supertype chain, which `inherited` looks up (it is only asked when
/// nothing before answered).
pub fn receiver_provides_member<F: Fn() -> bool>(
    receiver: &str,
    name: &str,
    extensions: Option<&Vec<ExtensionEntry>>,
    workspace_defs: &Vec<DefinitionSite>,
    jar_defs: &Vec<DefinitionSite>,
    inherited: F,
) -> (r: bool)
    requires
        inherited.requires(()),
    ensures
        declares_member(
            receiver@,
            name@,
            match extensions {
                Some(es) => Some(es@),
                None => None,
            },
            workspace_defs@,
            jar_defs@,
        ) ==> r,
        !declares_member(
            receiver@,
            name@,
            match extensions {
                Some(es) => Some(es@),
                None => None,
            },
            workspace_defs@,
            jar_defs@,
        ) ==> inherited.ensures((), r),
{
    let ghost exts = match extensions {
        Some(es) => Some(es@),
        None => None,
    };
    if let Some(es) = extensions {
        let mut i: usize = 0;
        while i < es.len()
            invariant
                exts == Some(es@),
                exts == (match extensions {
                    Some(es) => Some(es@),
                    None => None,
                }),
                i <= es@.len(),
                forall|j: int| 0 <= j < i ==> (#[trigger] es@[j]).name@ != name@,
            decreases es.len() - i,
        {
            if str_eq(es[i].name.as_str(), name) {
                assert(es@[i as int].name@ == name@);
                assert(declares_member(receiver@, name@, exts, workspace_defs@, jar_defs@));
                return true;
            }
            i = i + 1;
        }
    }
    let mut i: usize = 0;
    while i < workspace_defs.len()
        invariant
            i <= workspace_defs@.len(),
            forall|j: int| 0 <= j < i ==> !workspace_member_of(#[trigger] workspace_defs@[j], receiver@),
        decreases workspace_defs.len() - i,
    {
        if is_workspace_member(&workspace_defs[i], receiver) {
            assert(workspace_member_of(workspace_defs@[i as int], receiver@));
            assert(declares_member(receiver@, name@, exts, workspace_defs@, jar_defs@));
            return true;
        }
        i = i + 1;
    }
    let mut i: usize = 0;
    while i < jar_defs.len()
        invariant
            i <= jar_defs@.len(),
            forall|j: int| 0 <= j < i ==> !jar_member_of(#[trigger] jar_defs@[j], receiver@),
        decreases jar_defs.len() - i,
    {
        if is_jar_member(&jar_defs[i], receiver) {
            assert(jar_member_of(jar_defs@[i as int], receiver@));
            assert(declares_member(receiver@, name@, exts, workspace_defs@, jar_defs@));
            return true;
        }
        i = i + 1;
    }
    inherited()
}

} // verus!
