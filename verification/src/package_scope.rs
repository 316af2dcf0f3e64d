//! What is visible without an explicit import beyond the calling file:
//! the other files of its package, and the packages it star-imports.
//!
//! The index is seen here as plain data: the files the package index lists
//! for a package ([`PackageFile`]) and the compiled definitions of a name,
//! each with the package recorded for it ([`CompiledDefinition`]).

use vstd::prelude::*;

use crate::bare_completion::PackageFiles;
use crate::find::first_named;
use crate::platform::{is_stdlib, stdlib_package};
use crate::resolve::pick;
use crate::text::{first_pos, lemma_first_pos_unique};
use crate::types::{str_eq, FileData, Location, Range};

verus! {

/// One file the package index lists for a package.
pub struct PackageFile<'a> {
    pub uri: &'a str,
    /// Its data, when the file is indexed.
    pub data: Option<&'a FileData>,
}

/// A compiled definition of a name, with the package recorded for it.
pub struct CompiledDefinition {
    pub location: Location,
    /// The symbol's own package when the archive records one, else its
    /// file's package; `None` when neither is known.
    pub package: Option<String>,
}

/// File `f` is indexed, is not `skip`, and declares a symbol named `name`.
pub open spec fn declares_in_file(files: Seq<PackageFile>, name: Seq<char>, skip: Option<Seq<char>>) -> spec_fn(
    int,
) -> bool {
    |f: int|
        (files[f].data matches Some(d) && first_named(d.symbols@, name) != -1) && match skip {
            Some(s) => files[f].uri@ != s,
            None => true,
        }
}

/// Compiled definition `k` is recorded in package `pkg`.
pub open spec fn compiled_in(defs: Seq<CompiledDefinition>, pkg: Seq<char>) -> spec_fn(int) -> bool {
    |k: int| defs[k].package matches Some(p) && p@ == pkg
}

/// The first definition of `name` in package `pkg`: in the first listed file
/// (other than `skip`) declaring it, its first symbol so named; else the
/// first compiled definition recorded in `pkg`; else none. As a URI and a
/// range.
pub open spec fn package_hit(
    files: Seq<PackageFile>,
    defs: Seq<CompiledDefinition>,
    name: Seq<char>,
    pkg: Seq<char>,
    skip: Option<Seq<char>>,
) -> Option<(Seq<char>, Range)> {
    let f = first_pos(0, files.len() as int, declares_in_file(files, name, skip));
    if f != -1 {
        let d = files[f].data->0;
        Some((files[f].uri@, d.symbols@[first_named(d.symbols@, name)].selection_range))
    } else {
        let k = first_pos(0, defs.len() as int, compiled_in(defs, pkg));
        if k != -1 {
            Some((defs[k].location.uri@, defs[k].location.range))
        } else {
            None
        }
    }
}

/// `r` is the location `hit` names.
pub open spec fn location_is(r: Option<Location>, hit: Option<(Seq<char>, Range)>) -> bool {
    match (r, hit) {
        (Some(l), Some((u, g))) => l.uri@ == u && l.range == g,
        (None, None) => true,
        _ => false,
    }
}

/// The first symbol named `name` in the exact package `pkg` (see
/// [`package_hit`]): `files` are the files the index lists for `pkg`, and
/// `compiled` the compiled definitions of `name`.
pub fn find_symbol_in_package(
    files: &Vec<PackageFile>,
    compiled: &Vec<CompiledDefinition>,
    name: &str,
    pkg: &str,
) -> (r: Option<Location>)
    ensures
        location_is(r, package_hit(files@, compiled@, name@, pkg@, None)),
{
    first_in_package(files, compiled, name, pkg, None)
}

fn first_in_package(
    files: &Vec<PackageFile>,
    compiled: &Vec<CompiledDefinition>,
    name: &str,
    pkg: &str,
    skip: Option<&str>,
) -> (r: Option<Location>)
    ensures
        location_is(
            r,
            package_hit(
                files@,
                compiled@,
                name@,
                pkg@,
                match skip {
                    Some(s) => Some(s@),
                    None => None,
                },
            ),
        ),
{
    let ghost skip_view = match skip {
        Some(s) => Some(s@),
        None => None,
    };
    let ghost pred = declares_in_file(files@, name@, skip_view);
    let mut f: usize = 0;
    while f < files.len()
        invariant
            pred == declares_in_file(files@, name@, skip_view),
            skip_view == (match skip {
                Some(s) => Some(s@),
                None => None::<Seq<char>>,
            }),
            f <= files@.len(),
            forall|q: int| 0 <= q < f ==> !#[trigger] pred(q),
        decreases files.len() - f,
    {
        let pf = &files[f];
        let skipped = match skip {
            Some(s) => str_eq(pf.uri, s),
            None => false,
        };
        if !skipped {
            match pf.data {
                Some(d) => {
                    match first_named_symbol(d, name) {
                        Some(k) => {
                            proof {
                                assert(pred(f as int));
                                lemma_first_pos_unique(0, files@.len() as int, pred, f as int);
                            }
                            return Some(Location { uri: pf.uri.to_owned(), range: d.symbols[k].selection_range });
                        },
                        None => {},
                    }
                },
                None => {},
            }
        }
        assert(!pred(f as int));
        f = f + 1;
    }
    proof {
        lemma_first_pos_unique(0, files@.len() as int, pred, -1);
    }
    let ghost cpred = compiled_in(compiled@, pkg@);
    let mut k: usize = 0;
    while k < compiled.len()
        invariant
            cpred == compiled_in(compiled@, pkg@),
            skip_view == (match skip {
                Some(s) => Some(s@),
                None => None::<Seq<char>>,
            }),
            first_pos(0, files@.len() as int, declares_in_file(files@, name@, skip_view)) == -1,
            k <= compiled@.len(),
            forall|q: int| 0 <= q < k ==> !#[trigger] cpred(q),
        decreases compiled.len() - k,
    {
        let hit = match &compiled[k].package {
            Some(p) => str_eq(p.as_str(), pkg),
            None => false,
        };
        assert(hit == cpred(k as int));
        if hit {
            proof {
                lemma_first_pos_unique(0, compiled@.len() as int, cpred, k as int);
            }
            return Some(compiled[k].location.duplicate());
        }
        k = k + 1;
    }
    proof {
        lemma_first_pos_unique(0, compiled@.len() as int, cpred, -1);
    }
    None
}

/// Index of the first symbol of `d` named `name`.
fn first_named_symbol(d: &FileData, name: &str) -> (r: Option<usize>)
    ensures
        match r {
            Some(k) => k < d.symbols@.len() && first_named(d.symbols@, name@) == k as int,
            None => first_named(d.symbols@, name@) == -1,
        },
{
    let ghost pred = crate::find::named(d.symbols@, name@);
    let mut j: usize = 0;
    while j < d.symbols.len()
        invariant
            pred == crate::find::named(d.symbols@, name@),
            j <= d.symbols@.len(),
            forall|q: int| 0 <= q < j ==> !#[trigger] pred(q),
        decreases d.symbols.len() - j,
    {
        if str_eq(d.symbols[j].name.as_str(), name) {
            proof {
                assert(pred(j as int));
                lemma_first_pos_unique(0, d.symbols@.len() as int, pred, j as int);
            }
            return Some(j);
        }
        assert(!pred(j as int));
        j = j + 1;
    }
    proof {
        lemma_first_pos_unique(0, d.symbols@.len() as int, pred, -1);
    }
    None
}

/// Same-package visibility (no import needed in Kotlin): the first
/// definition of `name` in the package `own_package` of the file `from_uri`,
/// looked for in the other files the index lists for that package
/// (`files`), then among the compiled definitions `compiled` recorded in it
/// (see [`package_hit`]). Nothing when the file has no package or the index
/// lists no file for it.
pub fn resolve_same_package(
    own_package: Option<&str>,
    from_uri: &str,
    files: Option<&Vec<PackageFile>>,
    compiled: &Vec<CompiledDefinition>,
    name: &str,
) -> (out: Vec<Location>)
    ensures
        match (own_package, files) {
            (Some(pkg), Some(fs)) => match package_hit(fs@, compiled@, name@, pkg@, Some(from_uri@)) {
                Some((u, g)) => out@.len() == 1 && out@[0].uri@ == u && out@[0].range == g,
                None => out@.len() == 0,
            },
            _ => out@.len() == 0,
        },
{
    let pkg = match own_package {
        None => return Vec::new(),
        Some(p) => p,
    };
    let fs = match files {
        None => return Vec::new(),
        Some(fs) => fs,
    };
    let mut out: Vec<Location> = Vec::new();
    match first_in_package(fs, compiled, name, pkg, Some(from_uri)) {
        Some(l) => {
            out.push(l);
        },
        None => {},
    }
    out
}

/// Import `i` is a star import of a package with sources in the project.
pub open spec fn project_star_import(file: FileData) -> spec_fn(int) -> bool {
    |i: int| file.imports@[i].is_star && !stdlib_package(file.imports@[i].full_path@)
}

/// The star-imported packages of `file` (`import com.example.*`) whose
/// sources can be in the project (not the standard libraries' packages),
/// in import order; none when the file is not indexed.
pub fn star_import_packages(file: Option<&FileData>) -> (out: Vec<String>)
    ensures
        match file {
            None => out@.len() == 0,
            Some(fd) => out.deep_view() == pick(fd.imports@, project_star_import(*fd), fd.imports@.len() as int).map_values(
                |i: crate::types::ImportEntry| i.full_path@,
            ),
        },
{
    let fd = match file {
        None => return Vec::new(),
        Some(fd) => fd,
    };
    let ghost keep = project_star_import(*fd);
    let mut out: Vec<String> = Vec::new();
    let mut i: usize = 0;
    while i < fd.imports.len()
        invariant
            file == Some(fd),
            keep == project_star_import(*fd),
            i <= fd.imports@.len(),
            out.deep_view() == pick(fd.imports@, keep, i as int).map_values(
                |e: crate::types::ImportEntry| e.full_path@,
            ),
        decreases fd.imports.len() - i,
    {
        let imp = &fd.imports[i];
        let hit = imp.is_star && !is_stdlib(imp.full_path.as_str());
        assert(hit == keep(i as int));
        let ghost before = out.deep_view();
        if hit {
            out.push(imp.full_path.clone());
            assert(out.deep_view() =~= before.push(imp.full_path@));
        }
        i = i + 1;
        proof {
            let p = pick(fd.imports@, keep, i as int);
            assert(p.map_values(|e: crate::types::ImportEntry| e.full_path@) =~= if hit {
                pick(fd.imports@, keep, i - 1).map_values(|e: crate::types::ImportEntry| e.full_path@).push(
                    fd.imports@[i - 1].full_path@,
                )
            } else {
                pick(fd.imports@, keep, i - 1).map_values(|e: crate::types::ImportEntry| e.full_path@)
            });
        }
    }
    out
}

/// The package a compiled archive records for the symbol at `loc`: compiled
/// symbols get a synthetic range whose line is the symbol's index in its
/// file, and that line indexes `packages`, the per-symbol packages recorded
/// for the file; `None` when nothing (or an empty name) is recorded there.
pub fn jar_symbol_package(packages: Option<&Vec<String>>, loc: &Location) -> (r: Option<String>)
    ensures
        r == match packages {
            Some(ps) => {
                let k = loc.range.start.line as int;
                if k < ps@.len() && ps@[k]@.len() > 0 {
                    Some(ps@[k])
                } else {
                    None
                }
            },
            None => None,
        },
{
    let ps = match packages {
        None => return None,
        Some(ps) => ps,
    };
    let k = loc.range.start.line as usize;
    if k < ps.len() && ps[k].as_str().unicode_len() > 0 {
        Some(ps[k].clone())
    } else {
        None
    }
}

// ─── Star-imported packages ────────────────────────────────────────────────

/// The first definition of `name` in the star-imported packages `pkgs`, in
/// import order: the first package with a hit (see [`package_hit`]).
pub open spec fn star_import_hit(pkgs: Seq<PackageFiles>, compiled: Seq<CompiledDefinition>, name: Seq<char>) -> Option<
    (Seq<char>, Range),
>
    decreases pkgs.len(),
{
    if pkgs.len() == 0 {
        None
    } else {
        match package_hit(pkgs[0].files@, compiled, name, pkgs[0].package@, None) {
            Some(h) => Some(h),
            None => star_import_hit(pkgs.drop_first(), compiled, name),
        }
    }
}

/// The first definition of `name` found in the packages the calling file
/// star-imports (`pkgs`, each with the files the index lists for it, in
/// import order; `compiled` the compiled definitions of `name`).
pub fn find_in_star_imports(pkgs: &Vec<PackageFiles>, compiled: &Vec<CompiledDefinition>, name: &str) -> (r:
    Option<Location>)
    ensures
        location_is(r, star_import_hit(pkgs@, compiled@, name@)),
{
    let mut i: usize = 0;
    assert(pkgs@.skip(0) =~= pkgs@);
    while i < pkgs.len()
        invariant
            i <= pkgs@.len(),
            star_import_hit(pkgs@, compiled@, name@) == star_import_hit(pkgs@.skip(i as int), compiled@, name@),
        decreases pkgs.len() - i,
    {
        proof {
            assert(pkgs@.skip(i as int)[0] == pkgs@[i as int]);
            assert(pkgs@.skip(i as int).drop_first() =~= pkgs@.skip(i + 1int));
        }
        match find_symbol_in_package(&pkgs[i].files, compiled, name, pkgs[i].package.as_str()) {
            Some(l) => return Some(l),
            None => {},
        }
        i = i + 1;
    }
    None
}

} // verus!
