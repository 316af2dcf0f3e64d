//! A bare call `name(...)` inside an extension function's body, resolved as
//! an implicit `this.name(...)` against a member of the extension's own
//! receiver type, with the call's arity checked.

use vstd::prelude::*;

use crate::text::{contains, seq_contains, str_chars};
use crate::types::{str_eq, FileData, Location, SymbolEntry};

verus! {

/// One declaration of the receiver type: where resolution found it, and its
/// file's data when the file is indexed.
pub struct TypeSite<'a> {
    pub location: Location,
    pub file: Option<&'a FileData>,
}

/// The symbols of a site's file (none when it is not indexed).
pub open spec fn site_symbols(site: TypeSite) -> Seq<SymbolEntry> {
    match site.file {
        Some(fd) => fd.symbols@,
        None => Seq::empty(),
    }
}

/// A `vararg` parameter list, whose upper arity bound the counts cannot
/// represent.
pub open spec fn vararg_params(params: Seq<char>) -> bool {
    seq_contains(params, "vararg "@) || seq_contains(params, "vararg\t"@)
}

/// The call shape may take `s`: a `vararg` declaration, or one whose
/// `(required, total)` counts `accepts` answered yes for.
pub open spec fn taken<F: Fn(u8, u8) -> bool>(accepts: F, s: SymbolEntry) -> bool {
    vararg_params(s.params@) || accepts.ensures((s.param_counts.0, s.param_counts.1), true)
}

/// The call shape refused `s`: no `vararg`, and `accepts` answered no.
pub open spec fn refused<F: Fn(u8, u8) -> bool>(accepts: F, s: SymbolEntry) -> bool {
    !vararg_params(s.params@) && accepts.ensures((s.param_counts.0, s.param_counts.1), false)
}

/// Symbol `k2` of site `j2` comes before symbol `k` of site `j`.
pub open spec fn earlier(j2: int, k2: int, j: int, k: int) -> bool {
    j2 < j || (j2 == j && k2 < k)
}

fn is_vararg(params: &str) -> (r: bool)
    ensures
        r == vararg_params(params@),
{
    let p = str_chars(params);
    let a = str_chars("vararg ");
    let b = str_chars("vararg\t");
    contains(&p, &a) || contains(&p, &b)
}

/// The member half of resolving a bare call inside an extension function on
/// the receiver type: for each declaration of the receiver type in turn
/// (`sites`, as resolution from the calling file finds them), the first
/// symbol of its file named `name` that the call's shape may take (a
/// `vararg` declaration, or one whose counts `accepts` takes); its
/// identifier's location in that declaration's file. `None` when no site
/// has one.
pub fn implicit_receiver_member_match<F: Fn(u8, u8) -> bool>(
    sites: &Vec<TypeSite>,
    name: &str,
    accepts: F,
) -> (r: Option<Location>)
    requires
        forall|a: u8, b: u8| accepts.requires((a, b)),
    ensures
        match r {
            Some(l) => exists|j: int, k: int|
                {
                    &&& 0 <= j < sites@.len()
                    &&& 0 <= k < site_symbols(sites@[j]).len()
                    &&& #[trigger] site_symbols(sites@[j])[k].name@ == name@
                    &&& taken(accepts, site_symbols(sites@[j])[k])
                    &&& l.uri@ == sites@[j].location.uri@
                    &&& l.range == site_symbols(sites@[j])[k].selection_range
                    &&& forall|j2: int, k2: int|
                        0 <= j2 < sites@.len() && 0 <= k2 < site_symbols(sites@[j2]).len() && earlier(j2, k2, j, k)
                            && (#[trigger] site_symbols(sites@[j2])[k2]).name@ == name@ ==> refused(
                            accepts,
                            site_symbols(sites@[j2])[k2],
                        )
                },
            None => forall|j: int, k: int|
                0 <= j < sites@.len() && 0 <= k < site_symbols(sites@[j]).len() && (#[trigger] site_symbols(
                    sites@[j],
                )[k]).name@ == name@ ==> refused(accepts, site_symbols(sites@[j])[k]),
        },
{
    let mut j: usize = 0;
    while j < sites.len()
        invariant
            forall|a: u8, b: u8| accepts.requires((a, b)),
            j <= sites@.len(),
            forall|j2: int, k2: int|
                0 <= j2 < j && 0 <= k2 < site_symbols(sites@[j2]).len() && (#[trigger] site_symbols(
                    sites@[j2],
                )[k2]).name@ == name@ ==> refused(accepts, site_symbols(sites@[j2])[k2]),
        decreases sites.len() - j,
    {
        match sites[j].file {
            None => {
                assert(site_symbols(sites@[j as int]).len() == 0);
            },
            Some(fd) => {
                let mut k: usize = 0;
                while k < fd.symbols.len()
                    invariant
                        forall|a: u8, b: u8| accepts.requires((a, b)),
                        j < sites@.len(),
                        sites@[j as int].file == Some(fd),
                        k <= fd.symbols@.len(),
                        forall|j2: int, k2: int|
                            0 <= j2 < j && 0 <= k2 < site_symbols(sites@[j2]).len() && (#[trigger] site_symbols(
                                sites@[j2],
                            )[k2]).name@ == name@ ==> refused(accepts, site_symbols(sites@[j2])[k2]),
                        forall|k2: int|
                            0 <= k2 < k && (#[trigger] fd.symbols@[k2]).name@ == name@ ==> refused(
                                accepts,
                                fd.symbols@[k2],
                            ),
                    decreases fd.symbols.len() - k,
                {
                    let s = &fd.symbols[k];
                    if str_eq(s.name.as_str(), name) {
                        let ok = if is_vararg(s.params.as_str()) {
                            true
                        } else {
                            accepts(s.param_counts.0, s.param_counts.1)
                        };
                        if ok {
                            let l = Location { uri: sites[j].location.uri.clone(), range: s.selection_range };
                            proof {
                                assert(site_symbols(sites@[j as int]) == fd.symbols@);
                                assert(site_symbols(sites@[j as int])[k as int].name@ == name@);
                                assert forall|j2: int, k2: int|
                                    0 <= j2 < sites@.len() && 0 <= k2 < site_symbols(sites@[j2]).len() && earlier(
                                        j2,
                                        k2,
                                        j as int,
                                        k as int,
                                    ) && (#[trigger] site_symbols(sites@[j2])[k2]).name@ == name@ implies refused(
                                    accepts,
                                    site_symbols(sites@[j2])[k2],
                                ) by {
                                    if j2 == j {
                                        assert(fd.symbols@[k2].name@ == name@);
                                    }
                                }
                            }
                            return Some(l);
                        }
                    }
                    k = k + 1;
                }
                proof {
                    assert(site_symbols(sites@[j as int]) == fd.symbols@);
                    assert forall|j2: int, k2: int|
                        0 <= j2 < j + 1 && 0 <= k2 < site_symbols(sites@[j2]).len() && (#[trigger] site_symbols(
                            sites@[j2],
                        )[k2]).name@ == name@ implies refused(accepts, site_symbols(sites@[j2])[k2]) by {
                        if j2 == j {
                            assert(fd.symbols@[k2].name@ == name@);
                        }
                    }
                }
            },
        }
        j = j + 1;
    }
    None
}

} // verus!
