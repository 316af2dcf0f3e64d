//! The cross-package tier of bare-word completion: type names declared
//! anywhere in the index, offered for an uppercase prefix, one item per
//! fully-qualified name, each importing its type when the file needs it.

use vstd::prelude::*;

use crate::completion::{
    fqn_package, imported_by_name, is_screaming_snake, match_score, match_score_spec, package_of_fqn,
    screaming_snake, star_imported, CurrentFileCompletionContext,
};
use crate::completion_items::{
    digit_char, digit_str, lowercase_string, starts_lowercase, unicode_lowercase_str, BareCompleter,
    CompletionEntry, CompletionItemKind, key_fits,
};
use crate::members::pick_indices;
use crate::text::{char_is_lowercase, unicode_lowercase};
use crate::tie_break::string_in;

verus! {

/// The match score under which a cross-package name is offered for
/// `prefix`: only a case-insensitive prefix match (score 0) for a
/// one-character prefix, where CamelCase-acronym matches are too noisy;
/// scores 0 and 1 otherwise.
pub open spec fn cross_score(name: Seq<char>, prefix: Seq<char>) -> Option<u8> {
    match match_score_spec(name, prefix) {
        Some(s) => if s <= (if prefix.len() < 2 { 0u8 } else { 1u8 }) {
            Some(s)
        } else {
            None
        },
        None => None,
    }
}

/// The cross-package score of `bare_name` for `prefix` (see [`cross_score`]).
pub fn cross_package_score(bare_name: &str, prefix: &str) -> (r: Option<u8>)
    ensures
        r == cross_score(bare_name@, prefix@),
{
    let max_score: u8 = if prefix.unicode_len() < 2 {
        0
    } else {
        1
    };
    match match_score(bare_name, prefix) {
        Some(s) => if s <= max_score {
            Some(s)
        } else {
            None
        },
        None => None,
    }
}

/// The sort key of a cross-package item: `2`, the score, `:`, the
/// lowercased name.
pub open spec fn cross_sort_key(name: Seq<char>, score: u8) -> Seq<char> {
    seq!['2', digit_char(score as nat), ':'] + unicode_lowercase_str(name)
}

fn cross_sort_text(name: &str, score: u8) -> (r: String)
    requires
        score < 10,
    ensures
        r@ == cross_sort_key(name@, score),
{
    let mut t = "2".to_owned();
    t.append(digit_str(score));
    t.append(":");
    let lower = lowercase_string(name);
    t.append(lower.as_str());
    proof {
        reveal_strlit("2");
        reveal_strlit(":");
        assert(t@ =~= cross_sort_key(name@, score));
    }
    t
}

/// The fields every cross-package item shares: a type item labelled with
/// the name, filtered by it, sorted by [`cross_sort_key`], with no snippet.
pub open spec fn cross_item_common(e: CompletionEntry, name: Seq<char>, score: u8) -> bool {
    &&& e.label@ == name
    &&& e.kind == CompletionItemKind::Class
    &&& e.filter_text matches Some(f) && f@ == name
    &&& e.sort_text matches Some(t) && t@ == cross_sort_key(name, score)
    &&& e.insert_text is None
    &&& !e.snippet_format
    &&& !e.triggers_parameter_hints
    &&& !e.deprecated
}

/// The item for a type name no fully-qualified name is known for: just the
/// name, with no detail, import or data.
pub open spec fn bare_name_item(e: CompletionEntry, name: Seq<char>, score: u8) -> bool {
    &&& cross_item_common(e, name, score)
    &&& e.detail is None
    &&& e.data is None
    &&& e.auto_import is None
    &&& e.label_description is None
    &&& e.resolve_fqn is None
}

/// One fully-qualified name known for a cross-package type name.
pub struct CrossPackageCandidate {
    pub fqn: String,
    /// The indexed symbol behind `fqn`, when one is materialized: its
    /// signature, if it has one, and the data the client hands back to
    /// resolve it.
    pub symbol: Option<(Option<String>, Option<serde_json::Value>)>,
}

/// Completing `fqn` in the file of `ctx` needs an import.
pub open spec fn ctx_needs_import(ctx: CurrentFileCompletionContext, fqn: Seq<char>) -> bool {
    !imported_by_name(ctx.imports@, fqn) && !star_imported(ctx.imports@, fqn_package(fqn)) && fqn_package(fqn)
        != ctx.package_name@
}

/// The view of an optional string.
pub open spec fn opt_view(o: Option<String>) -> Option<Seq<char>> {
    match o {
        Some(s) => Some(s@),
        None => None,
    }
}

/// The item for the type `name` known under the fully-qualified name of
/// `cand`: its package is the label's description for clients that show
/// one; the item imports the type when the file needs it. With an indexed
/// symbol behind it, its signature is the detail (headed by a `package`
/// line for clients without label descriptions) and its data is the
/// symbol's; without one, the detail is the package to import from, when an
/// import is needed, and the client resolves it by its fully-qualified name.
pub open spec fn cross_symbol_item(
    e: CompletionEntry,
    name: Seq<char>,
    cand: CrossPackageCandidate,
    score: u8,
    ctx: CurrentFileCompletionContext,
    supports_label_details: bool,
) -> bool {
    let q = fqn_package(cand.fqn@);
    let ni = ctx_needs_import(ctx, cand.fqn@);
    &&& cross_item_common(e, name, score)
    &&& opt_view(e.label_description) == (if supports_label_details && q.len() > 0 {
        Some(q)
    } else {
        None
    })
    &&& opt_view(e.auto_import) == (if ni {
        Some(cand.fqn@)
    } else {
        None
    })
    &&& match cand.symbol {
        Some((sig, data)) => {
            &&& e.data == data
            &&& e.resolve_fqn is None
            &&& opt_view(e.detail) == (match sig {
                Some(s) => if !supports_label_details && q.len() > 0 {
                    Some("package "@ + q + seq!['\n'] + s@)
                } else {
                    Some(s@)
                },
                None => None,
            })
        },
        None => {
            &&& e.data is None
            &&& opt_view(e.resolve_fqn) == Some(cand.fqn@)
            &&& opt_view(e.detail) == (if ni {
                Some(q)
            } else {
                None
            })
        },
    }
}

/// The dedup key of the item for `name` under `fqn`.
pub open spec fn cross_key(name: Seq<char>, fqn: Seq<char>) -> Seq<char> {
    name + seq![':'] + fqn
}

/// The keys seen after offering the first `n` of `keys`, in order, to the
/// keys `seen`: each key not yet seen is added.
pub open spec fn keys_after(seen: Seq<Seq<char>>, keys: Seq<Seq<char>>, n: int) -> Seq<Seq<char>>
    decreases n,
{
    if n <= 0 {
        seen
    } else {
        let s = keys_after(seen, keys, n - 1);
        if s.contains(keys[n - 1]) {
            s
        } else {
            s.push(keys[n - 1])
        }
    }
}

/// The keys of the items for `name` under each candidate's name.
pub open spec fn candidate_keys(name: Seq<char>, cands: Seq<CrossPackageCandidate>) -> Seq<Seq<char>> {
    cands.map_values(|c: CrossPackageCandidate| cross_key(name, c.fqn@))
}

/// Candidate `k`'s key was not seen when it was offered.
pub open spec fn new_key_at(seen: Seq<Seq<char>>, keys: Seq<Seq<char>>) -> spec_fn(int) -> bool {
    |k: int| !keys_after(seen, keys, k).contains(keys[k])
}

/// Whether `name` enters the cross-package tier of `c` for `prefix`: it is a
/// type name (not starting lowercase), not SCREAMING_SNAKE under a CamelCase
/// prefix, scores well enough, and is not yet offered by an earlier tier.
pub open spec fn cross_accepted(c: BareCompleter, name: Seq<char>, prefix: Seq<char>) -> bool {
    !starts_lowercase(name) && !(c.camel_mode && screaming_snake(name)) && cross_score(name, prefix)
        is Some && !c.seen.deep_view().contains(name)
}

fn str_starts_lowercase(s: &str) -> (r: bool)
    ensures
        r == starts_lowercase(s@),
{
    if s.unicode_len() == 0 {
        return false;
    }
    char_is_lowercase(s.get_char(0))
}

fn opt_clone(o: &Option<String>) -> (r: Option<String>)
    ensures
        opt_view(r) == opt_view(*o),
{
    match o {
        Some(s) => Some(s.clone()),
        None => None,
    }
}

fn build_cross_symbol_item(
    name: &str,
    cand: CrossPackageCandidate,
    score: u8,
    ctx: &CurrentFileCompletionContext,
    supports_label_details: bool,
) -> (e: CompletionEntry)
    requires
        score < 10,
    ensures
        cross_symbol_item(e, name@, cand, score, *ctx, supports_label_details),
{
    let q0 = package_of_fqn(cand.fqn.as_str()).to_owned();
    let q = q0.as_str();
    let ni = ctx.needs_import(cand.fqn.as_str());
    let has_q = q.unicode_len() > 0;
    let ghost cand0 = cand;
    let fqn = cand.fqn;
    let (detail, data, resolve_fqn) = match cand.symbol {
        Some((sig, data)) => {
            let detail = match sig {
                Some(s) => if !supports_label_details && has_q {
                    let mut t = "package ".to_owned();
                    t.append(q);
                    t.append("\n");
                    t.append(s.as_str());
                    proof {
                        reveal_strlit("package ");
                        reveal_strlit("\n");
                        assert(t@ =~= "package "@ + q@ + seq!['\n'] + s@);
                    }
                    Some(t)
                } else {
                    Some(s.clone())
                },
                None => None,
            };
            (detail, data, None)
        },
        None => {
            let detail = if ni {
                Some(q.to_owned())
            } else {
                None
            };
            (detail, None, Some(fqn.clone()))
        },
    };
    let label_description = if supports_label_details && has_q {
        Some(q.to_owned())
    } else {
        None
    };
    let auto_import = if ni {
        Some(fqn.clone())
    } else {
        None
    };
    CompletionEntry {
        label: name.to_owned(),
        kind: CompletionItemKind::Class,
        filter_text: Some(name.to_owned()),
        sort_text: Some(cross_sort_text(name, score)),
        insert_text: None,
        snippet_format: false,
        detail,
        triggers_parameter_hints: false,
        deprecated: false,
        data,
        auto_import,
        label_description,
        resolve_fqn,
    }
}

proof fn lemma_push_fresh(s: Seq<Seq<char>>, x: Seq<char>)
    requires
        s.no_duplicates(),
        !s.contains(x),
    ensures
        s.push(x).no_duplicates(),
{
    assert forall|i: int, j: int| 0 <= i < j < s.push(x).len() implies s.push(x)[i] != s.push(x)[j] by {
        if j == s.len() {
            assert(s.contains(s[i]));
        }
    }
}

impl BareCompleter {
    /// Offer the type name `bare_name`, declared in other packages under the
    /// fully-qualified names `candidates`, for `prefix`: when it is accepted
    /// (see [`cross_accepted`]), one item per fully-qualified name not yet
    /// offered (keyed `name:fqn`), or, when no fully-qualified name is
    /// known, one item for the bare name; otherwise nothing changes. `ctx`
    /// is the file completing and `supports_label_details` whether the
    /// client shows label descriptions.
    pub fn add_cross_package_name(
        &mut self,
        bare_name: &str,
        prefix: &str,
        candidates: Vec<CrossPackageCandidate>,
        ctx: &CurrentFileCompletionContext,
        supports_label_details: bool,
    )
        requires
            old(self).wf(),
        ensures
            final(self).wf(),
            final(self).lowercase_mode == old(self).lowercase_mode,
            final(self).uppercase_mode == old(self).uppercase_mode,
            final(self).camel_mode == old(self).camel_mode,
            final(self).local_max_score == old(self).local_max_score,
            final(self).snippets == old(self).snippets,
            final(self).annotation_only == old(self).annotation_only,
            final(self).items@.len() >= old(self).items@.len(),
            final(self).items@.take(old(self).items@.len() as int) == old(self).items@,
            !cross_accepted(*old(self), bare_name@, prefix@) ==> final(self).items@ == old(self).items@
                && final(self).seen.deep_view() == old(self).seen.deep_view(),
            cross_accepted(*old(self), bare_name@, prefix@) && candidates@.len() == 0 ==> {
                &&& final(self).items@.len() == old(self).items@.len() + 1
                &&& bare_name_item(final(self).items@.last(), bare_name@, cross_score(bare_name@, prefix@)->0)
                &&& final(self).seen.deep_view() == old(self).seen.deep_view().push(bare_name@)
            },
            cross_accepted(*old(self), bare_name@, prefix@) && candidates@.len() > 0 ==> {
                let keys = candidate_keys(bare_name@, candidates@);
                let picked = pick_indices(new_key_at(old(self).seen.deep_view(), keys), candidates@.len() as int);
                let n = old(self).items@.len();
                &&& final(self).seen.deep_view() == keys_after(old(self).seen.deep_view(), keys, candidates@.len() as int)
                &&& final(self).items@.len() == n + picked.len()
                &&& forall|t: int|
                    0 <= t < picked.len() ==> cross_symbol_item(
                        #[trigger] final(self).items@[n + t],
                        bare_name@,
                        candidates@[picked[t]],
                        cross_score(bare_name@, prefix@)->0,
                        *ctx,
                        supports_label_details,
                    )
            },
    {
        let ghost n0 = self.items@.len();
        let ghost items0 = self.items@;
        if str_starts_lowercase(bare_name) {
            assert(self.items@.take(n0 as int) =~= items0);
            return;
        }
        if self.camel_mode && is_screaming_snake(bare_name) {
            assert(self.items@.take(n0 as int) =~= items0);
            return;
        }
        let score = match cross_package_score(bare_name, prefix) {
            Some(s) => s,
            None => {
                assert(self.items@.take(n0 as int) =~= items0);
                return;
            },
        };
        if string_in(bare_name, &self.seen) {
            assert(self.items@.take(n0 as int) =~= items0);
            return;
        }
        if candidates.len() == 0 {
            let ghost seen0 = self.seen.deep_view();
            let item = CompletionEntry {
                label: bare_name.to_owned(),
                kind: CompletionItemKind::Class,
                filter_text: Some(bare_name.to_owned()),
                sort_text: Some(cross_sort_text(bare_name, score)),
                insert_text: None,
                snippet_format: false,
                detail: None,
                triggers_parameter_hints: false,
                deprecated: false,
                data: None,
                auto_import: None,
                label_description: None,
                resolve_fqn: None,
            };
            self.items.push(item);
            self.seen.push(bare_name.to_owned());
            proof {
                assert(self.seen.deep_view() =~= seen0.push(bare_name@));
                lemma_push_fresh(seen0, bare_name@);
                assert(self.items@.take(n0 as int) =~= items0);
            }
            return;
        }
        let ghost seen0 = self.seen.deep_view();
        let ghost keys = candidate_keys(bare_name@, candidates@);
        let ghost keep = new_key_at(seen0, keys);
        let ghost all = candidates@;
        let total = candidates.len();
        let mut rest = candidates;
        let mut k: usize = 0;
        assert(rest@.skip(0) =~= rest@);
        while k < total
            invariant
                total == all.len(),
                rest@ == all.skip(k as int),
                score < 10,
                score == cross_score(bare_name@, prefix@)->0,
                keys == candidate_keys(bare_name@, all),
                keep == new_key_at(seen0, keys),
                k <= all.len(),
                self.wf(),
                self.lowercase_mode == old(self).lowercase_mode,
                self.uppercase_mode == old(self).uppercase_mode,
                self.camel_mode == old(self).camel_mode,
                self.local_max_score == old(self).local_max_score,
                self.snippets == old(self).snippets,
                self.annotation_only == old(self).annotation_only,
                seen0 == old(self).seen.deep_view(),
                n0 == old(self).items@.len(),
                items0 == old(self).items@,
                self.seen.deep_view() == keys_after(seen0, keys, k as int),
                self.items@.len() == n0 + pick_indices(keep, k as int).len(),
                self.items@.take(n0 as int) == items0,
                forall|t: int|
                    0 <= t < pick_indices(keep, k as int).len() ==> cross_symbol_item(
                        #[trigger] self.items@[n0 + t],
                        bare_name@,
                        all[pick_indices(keep, k as int)[t]],
                        score,
                        *ctx,
                        supports_label_details,
                    ),
            decreases total - k,
        {
            let cand = rest.remove(0);
            proof {
                assert(cand == all[k as int]);
                assert(rest@ =~= all.skip(k + 1int));
            }
            let mut key = bare_name.to_owned();
            key.append(":");
            key.append(cand.fqn.as_str());
            proof {
                reveal_strlit(":");
                assert(key@ =~= keys[k as int]);
            }
            let ghost seen_k = self.seen.deep_view();
            let ghost items_k = self.items@;
            if !string_in(key.as_str(), &self.seen) {
                let item = build_cross_symbol_item(bare_name, cand, score, ctx, supports_label_details);
                self.items.push(item);
                self.seen.push(key);
                proof {
                    assert(self.seen.deep_view() =~= seen_k.push(keys[k as int]));
                    lemma_push_fresh(seen_k, keys[k as int]);
                    let kk = keys[k as int];
                    assert(kk.take(bare_name@.len() as int) =~= bare_name@);
                    assert(key_fits(kk, bare_name@));
                    assert(self.items@.take(n0 as int) =~= items0) by {
                        assert forall|q: int| 0 <= q < n0 implies self.items@[q] == items0[q] by {
                            assert(items_k.take(n0 as int)[q] == items_k[q]);
                        }
                    }
                    assert(keep(k as int));
                    assert(pick_indices(keep, k + 1int) == pick_indices(keep, k as int).push(k as int));
                    assert forall|t: int| 0 <= t < pick_indices(keep, k + 1int).len() implies cross_symbol_item(
                        #[trigger] self.items@[n0 + t],
                        bare_name@,
                        all[pick_indices(keep, k + 1int)[t]],
                        score,
                        *ctx,
                        supports_label_details,
                    ) by {
                        if t < pick_indices(keep, k as int).len() {
                            assert(self.items@[n0 + t] == items_k[n0 + t]);
                        }
                    }
                }
            } else {
                proof {
                    assert(!keep(k as int));
                    assert(pick_indices(keep, k + 1int) == pick_indices(keep, k as int));
                }
            }
            k = k + 1;
        }
    }
}

} // verus!
