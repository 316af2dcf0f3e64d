//! The final order of a completion list: stably sorted by sort key, then
//! capped.

use vstd::prelude::*;

use crate::completion_items::{
    accessible_items, dedup_by_label, dedup_completion_labels, filter_inaccessible_completion_items,
    kind_sort_rank, sort_rank, strip_completion_snippets, CompletionEntry,
};

verus! {

/// The most items one completion answer holds.
pub const COMPLETION_CAP: usize = 500;

/// `a` sorts strictly before `b`, comparing character codes from the start;
/// a proper prefix sorts first (the order of `str`'s `Ord`).
pub open spec fn text_lt(a: Seq<char>, b: Seq<char>) -> bool
    decreases a.len(),
{
    if a.len() == 0 {
        b.len() > 0
    } else if b.len() == 0 {
        false
    } else if a[0] != b[0] {
        (a[0] as int) < (b[0] as int)
    } else {
        text_lt(a.drop_first(), b.drop_first())
    }
}

/// Sort key order: a missing key sorts first, then keys by [`text_lt`].
pub open spec fn key_lt(a: Option<String>, b: Option<String>) -> bool {
    match (a, b) {
        (None, Some(_)) => true,
        (Some(x), Some(y)) => text_lt(x@, y@),
        _ => false,
    }
}

/// The view of a sort key.
pub open spec fn key_view(a: Option<String>) -> Option<Seq<char>> {
    match a {
        Some(x) => Some(x@),
        None => None,
    }
}

/// What a completion list is sorted by.
#[derive(Clone, Copy, PartialEq, Eq, Structural, Debug)]
pub enum SortBy {
    /// The sort key (a missing key first).
    SortText,
    /// The kind's rank (see [`sort_rank`]).
    KindRank,
    /// The kind's rank, then the label.
    KindThenLabel,
}

/// The key an item is sorted by: a rank, then an optional text.
pub open spec fn item_key(e: CompletionEntry, by: SortBy) -> (int, Option<Seq<char>>) {
    match by {
        SortBy::SortText => (0, key_view(e.sort_text)),
        SortBy::KindRank => (sort_rank(Some(e.kind)) as int, None),
        SortBy::KindThenLabel => (sort_rank(Some(e.kind)) as int, Some(e.label@)),
    }
}

/// An optional text sorts before another: a missing one first, then by
/// [`text_lt`].
pub open spec fn opt_text_lt(a: Option<Seq<char>>, b: Option<Seq<char>>) -> bool {
    match (a, b) {
        (None, Some(_)) => true,
        (Some(x), Some(y)) => text_lt(x, y),
        _ => false,
    }
}

/// Key order: by rank, then by text.
pub open spec fn item_key_lt(a: (int, Option<Seq<char>>), b: (int, Option<Seq<char>>)) -> bool {
    a.0 < b.0 || (a.0 == b.0 && opt_text_lt(a.1, b.1))
}

/// In the stable order by `by`, item `i` of `items` comes before item `j`:
/// its key sorts first, or the keys are equal and it came first.
pub open spec fn ranks_before(items: Seq<CompletionEntry>, by: SortBy, i: int, j: int) -> bool {
    item_key_lt(item_key(items[i], by), item_key(items[j], by)) || (item_key(items[i], by) == item_key(
        items[j],
        by,
    ) && i < j)
}

/// `order` lists every position of `items` once, in the stable order by
/// `by`.
pub open spec fn stably_sorted(items: Seq<CompletionEntry>, by: SortBy, order: Seq<int>) -> bool {
    &&& order.len() == items.len()
    &&& forall|t: int| 0 <= t < order.len() ==> 0 <= #[trigger] order[t] < items.len()
    &&& forall|t: int, u: int|
        0 <= t < u < order.len() ==> ranks_before(items, by, #[trigger] order[t], #[trigger] order[u])
}

proof fn lemma_text_lt_order(a: Seq<char>, b: Seq<char>, c: Seq<char>)
    ensures
        !text_lt(a, a),
        text_lt(a, b) ==> !text_lt(b, a),
        text_lt(a, b) && text_lt(b, c) ==> text_lt(a, c),
        a != b ==> text_lt(a, b) || text_lt(b, a),
    decreases a.len(),
{
    if a.len() > 0 && b.len() > 0 && c.len() > 0 {
        lemma_text_lt_order(a.drop_first(), b.drop_first(), c.drop_first());
    }
    if a.len() > 0 && b.len() > 0 && a[0] == b[0] && a != b {
        lemma_text_lt_order(a.drop_first(), b.drop_first(), c.drop_first());
        if a.drop_first() == b.drop_first() {
            assert(a =~= seq![a[0]] + a.drop_first());
            assert(b =~= seq![b[0]] + b.drop_first());
        }
    }
    if a.len() > 0 {
        lemma_text_lt_order(a.drop_first(), a.drop_first(), a.drop_first());
    }
    if a.len() == 0 && b.len() == 0 {
        assert(a =~= b);
    }
}

proof fn lemma_ranks_before_order(items: Seq<CompletionEntry>, by: SortBy, i: int, j: int, k: int)
    ensures
        !ranks_before(items, by, i, i),
        ranks_before(items, by, i, j) && ranks_before(items, by, j, k) ==> ranks_before(items, by, i, k),
        i != j ==> ranks_before(items, by, i, j) || ranks_before(items, by, j, i),
{
    let (a, b, c) = (item_key(items[i], by).1, item_key(items[j], by).1, item_key(items[k], by).1);
    match (a, b, c) {
        (Some(x), Some(y), Some(z)) => {
            lemma_text_lt_order(x, y, z);
            lemma_text_lt_order(y, x, z);
        },
        (Some(x), Some(y), None) => {
            lemma_text_lt_order(x, y, x);
        },
        (Some(x), None, Some(z)) => {
            lemma_text_lt_order(x, z, x);
        },
        (None, Some(y), Some(z)) => {
            lemma_text_lt_order(y, z, y);
        },
        (Some(x), None, None) => {
            lemma_text_lt_order(x, x, x);
        },
        _ => {},
    }
}

/// One step of insertion sort on positions: position `i` inserted at `p`
/// into the sorted prefix `old_order[..i]` keeps it sorted, when every
/// earlier position there does not sort after it and the one at `p` does.
proof fn lemma_insert_step(
    orig: Seq<CompletionEntry>,
    by: SortBy,
    old_order: Seq<int>,
    after_remove: Seq<CompletionEntry>,
    v: Seq<CompletionEntry>,
    i: int,
    p: int,
) -> (new_order: Seq<int>)
    requires
        0 <= p <= i < orig.len(),
        old_order.len() == orig.len(),
        forall|t: int| 0 <= t < orig.len() ==> 0 <= #[trigger] old_order[t] < orig.len(),
        forall|t: int| i <= t < orig.len() ==> #[trigger] old_order[t] == t,
        forall|t: int| 0 <= t < i ==> #[trigger] old_order[t] < i,
        forall|t: int, u: int| 0 <= t < u < i ==> ranks_before(orig, by, #[trigger] old_order[t], #[trigger] old_order[u]),
        forall|t: int| 0 <= t < p ==> !item_key_lt(item_key(orig[i], by), item_key(#[trigger] orig[old_order[t]], by)),
        p < i ==> item_key_lt(item_key(orig[i], by), item_key(orig[old_order[p]], by)),
        after_remove.len() == orig.len() - 1,
        forall|t: int| 0 <= t < i ==> #[trigger] after_remove[t] == orig[old_order[t]],
        forall|t: int| i <= t < orig.len() - 1 ==> #[trigger] after_remove[t] == orig[t + 1],
        v == after_remove.insert(p, orig[i]),
    ensures
        new_order.len() == orig.len(),
        forall|t: int| 0 <= t < orig.len() ==> 0 <= #[trigger] new_order[t] < orig.len(),
        forall|t: int| 0 <= t < orig.len() ==> #[trigger] v[t] == orig[new_order[t]],
        forall|t: int| i + 1 <= t < orig.len() ==> #[trigger] new_order[t] == t,
        forall|t: int| 0 <= t < i + 1 ==> #[trigger] new_order[t] < i + 1,
        forall|t: int, u: int| 0 <= t < u < i + 1 ==> ranks_before(orig, by, #[trigger] new_order[t], #[trigger] new_order[u]),
{
    let n = orig.len() as int;
    let new_order = old_order.take(i).insert(p, i) + old_order.skip(i + 1);
    old_order.take(i).insert_ensures(p, i);
    after_remove.insert_ensures(p, orig[i]);
    assert forall|t: int| 0 <= t < n implies #[trigger] v[t] == orig[new_order[t]] && 0 <= new_order[t] < n by {
        if t < p {
            assert(new_order[t] == old_order[t]);
        } else if t == p {
            assert(new_order[t] == i);
        } else if t <= i {
            assert(new_order[t] == old_order[t - 1]);
        } else {
            assert(new_order[t] == old_order[t]);
        }
    }
    assert forall|t: int| 0 <= t < i + 1 implies #[trigger] new_order[t] < i + 1 by {
        if t < p {
            assert(new_order[t] == old_order[t]);
        } else if t > p {
            assert(new_order[t] == old_order[t - 1]);
        }
    }
    assert forall|t: int| i + 1 <= t < n implies #[trigger] new_order[t] == t by {
        assert(new_order[t] == old_order[t]);
    }
    assert forall|t: int, u: int| 0 <= t < u < i + 1 implies ranks_before(
        orig,
        by,
        #[trigger] new_order[t],
        #[trigger] new_order[u],
    ) by {
        let a = new_order[t];
        let b = new_order[u];
        if u < p {
            assert(a == old_order[t] && b == old_order[u]);
        } else if u == p {
            assert(a == old_order[t]);
            assert(b == i);
            assert(!item_key_lt(item_key(orig[i], by), item_key(orig[a], by)));
            lemma_ranks_before_order(orig, by, a, i, a);
        } else if t == p {
            assert(a == i);
            assert(b == old_order[u - 1]);
            if u - 1 > p {
                assert(ranks_before(orig, by, old_order[p], b));
                lemma_ranks_before_order(orig, by, i, old_order[p], b);
            }
        } else if t < p {
            assert(a == old_order[t] && b == old_order[u - 1]);
        } else {
            assert(a == old_order[t - 1] && b == old_order[u - 1]);
        }
    }
    new_order
}

/// Whether key `a` sorts strictly before key `b` (see [`key_lt`]).
fn key_less(a: &Option<String>, b: &Option<String>) -> (r: bool)
    ensures
        r == key_lt(*a, *b),
{
    match (a, b) {
        (None, Some(_)) => true,
        (Some(x), Some(y)) => text_less(x.as_str(), y.as_str()),
        _ => false,
    }
}

fn text_less(a: &str, b: &str) -> (r: bool)
    ensures
        r == text_lt(a@, b@),
{
    let n = a.unicode_len();
    let m = b.unicode_len();
    let mut i: usize = 0;
    assert(a@.skip(0) =~= a@);
    assert(b@.skip(0) =~= b@);
    while i < n && i < m
        invariant
            n == a@.len(),
            m == b@.len(),
            i <= n,
            i <= m,
            forall|t: int| 0 <= t < i ==> a@[t] == b@[t],
            text_lt(a@, b@) == text_lt(a@.skip(i as int), b@.skip(i as int)),
        decreases n - i,
    {
        let x = a.get_char(i);
        let y = b.get_char(i);
        proof {
            assert(a@.skip(i as int)[0] == x);
            assert(b@.skip(i as int)[0] == y);
            assert(a@.skip(i as int).drop_first() =~= a@.skip(i + 1int));
            assert(b@.skip(i as int).drop_first() =~= b@.skip(i + 1int));
        }
        if x != y {
            return (x as u32) < (y as u32);
        }
        i = i + 1;
    }
    i < m
}

/// Whether `a` sorts strictly before `b` under `by` (see [`item_key_lt`]).
fn sorts_before(a: &CompletionEntry, b: &CompletionEntry, by: SortBy) -> (r: bool)
    ensures
        r == item_key_lt(item_key(*a, by), item_key(*b, by)),
{
    match by {
        SortBy::SortText => key_less(&a.sort_text, &b.sort_text),
        SortBy::KindRank => kind_sort_rank(Some(a.kind)) < kind_sort_rank(Some(b.kind)),
        SortBy::KindThenLabel => {
            let ra = kind_sort_rank(Some(a.kind));
            let rb = kind_sort_rank(Some(b.kind));
            ra < rb || (ra == rb && text_less(a.label.as_str(), b.label.as_str()))
        },
    }
}

/// `out` is `items` in the stable order by `by`.
pub open spec fn sorted_as(items: Seq<CompletionEntry>, by: SortBy, out: Seq<CompletionEntry>) -> bool {
    exists|order: Seq<int>|
        #[trigger] stably_sorted(items, by, order) && out.len() == items.len() && forall|t: int|
            0 <= t < out.len() ==> out[t] == items[order[t]]
}

/// `items` stably sorted by `by` (see [`stably_sorted`]).
pub fn sort_items(items: Vec<CompletionEntry>, by: SortBy) -> (out: Vec<CompletionEntry>)
    ensures
        sorted_as(items@, by, out@),
{
    let ghost orig = items@;
    let n = items.len();
    let mut v = items;
    let ghost mut order: Seq<int> = Seq::new(n as nat, |t: int| t);
    let mut i: usize = 0;
    while i < n
        invariant
            n == orig.len(),
            v@.len() == n,
            i <= n,
            order.len() == n,
            forall|t: int| 0 <= t < n ==> 0 <= #[trigger] order[t] < n,
            forall|t: int| 0 <= t < n ==> #[trigger] v@[t] == orig[order[t]],
            forall|t: int| i <= t < n ==> #[trigger] order[t] == t,
            forall|t: int| 0 <= t < i ==> #[trigger] order[t] < i,
            forall|t: int, u: int| 0 <= t < u < i ==> ranks_before(orig, by, #[trigger] order[t], #[trigger] order[u]),
        decreases n - i,
    {
        let x = v.remove(i);
        let ghost after_remove = v@;
        let mut p: usize = 0;
        while p < i && !sorts_before(&x, &v[p], by)
            invariant
                n == orig.len(),
                v@ == after_remove,
                v@.len() == n - 1,
                i < n,
                p <= i,
                x == orig[i as int],
                forall|t: int| 0 <= t < i ==> #[trigger] v@[t] == orig[order[t]],
                forall|t: int|
                    0 <= t < p ==> !item_key_lt(item_key(orig[i as int], by), item_key(#[trigger] orig[order[t]], by)),
            decreases i - p,
        {
            p = p + 1;
        }
        let ghost old_order = order;
        proof {
            if p < i {
                assert(v@[p as int] == orig[old_order[p as int]]);
            }
        }
        v.insert(p, x);
        proof {
            order = lemma_insert_step(orig, by, old_order, after_remove, v@, i as int, p as int);
        }
        i = i + 1;
    }
    proof {
        assert(stably_sorted(orig, by, order));
    }
    v
}

/// The answer's items: `items` stably sorted by sort key (a missing key
/// first), cut at [`COMPLETION_CAP`]; and whether anything was cut, so the
/// client asks again on the next keystroke.
pub fn finish_items(items: Vec<CompletionEntry>) -> (r: (Vec<CompletionEntry>, bool))
    ensures
        r.1 == (items@.len() > COMPLETION_CAP),
        exists|sorted: Seq<CompletionEntry>|
            #[trigger] sorted_as(items@, SortBy::SortText, sorted) && r.0@ == sorted.take(
                if items@.len() > COMPLETION_CAP {
                    COMPLETION_CAP as int
                } else {
                    items@.len() as int
                },
            ),
{
    let n = items.len();
    let mut v = sort_items(items, SortBy::SortText);
    let ghost sorted = v@;
    let hit_cap = n > COMPLETION_CAP;
    if hit_cap {
        v.truncate(COMPLETION_CAP);
    }
    assert(v@ =~= sorted.take(if n > COMPLETION_CAP { COMPLETION_CAP as int } else { n as int }));
    (v, hit_cap)
}

/// `items` with their snippet insert texts dropped when the client does not
/// support snippets.
pub open spec fn stripped(items: Seq<CompletionEntry>, snippets: bool) -> Seq<CompletionEntry> {
    if snippets {
        items
    } else {
        items.map_values(|e: CompletionEntry| CompletionEntry { insert_text: None, snippet_format: false, ..e })
    }
}

/// `items` with each run of consecutive items sharing a label collapsed to
/// its first item.
pub open spec fn dedup_runs(items: Seq<CompletionEntry>) -> Seq<CompletionEntry>
    decreases items.len(),
{
    if items.len() == 0 {
        items
    } else {
        let d = dedup_runs(items.drop_last());
        if d.len() > 0 && d.last().label@ == items.last().label@ {
            d
        } else {
            d.push(items.last())
        }
    }
}

fn strip_to(items: &mut Vec<CompletionEntry>, snippets: bool)
    ensures
        final(items)@ == stripped(old(items)@, snippets),
{
    let ghost before = items@;
    strip_completion_snippets(items, snippets);
    assert(items@ =~= stripped(before, snippets));
}

/// Dot completion's last pass over the members found: each label once (the
/// first kept), snippets dropped when unsupported, then stably sorted by
/// kind rank (methods, then fields, then types).
pub fn finish_dot_items(items: Vec<CompletionEntry>, snippets: bool) -> (out: Vec<CompletionEntry>)
    ensures
        sorted_as(stripped(dedup_by_label(items@), snippets), SortBy::KindRank, out@),
{
    let mut v = items;
    dedup_completion_labels(&mut v);
    strip_to(&mut v, snippets);
    sort_items(v, SortBy::KindRank)
}

/// `super.` completion's pass over the ancestors' members: the accessible
/// ones, snippets dropped when unsupported, stably sorted by kind rank then
/// label, with consecutive same-label items collapsed to the first.
pub fn finish_super_items(items: Vec<CompletionEntry>, snippets: bool) -> (out: Vec<CompletionEntry>)
    ensures
        exists|sorted: Seq<CompletionEntry>|
            #[trigger] sorted_as(
                stripped(accessible_items(items@), snippets),
                SortBy::KindThenLabel,
                sorted,
            ) && out@ == dedup_runs(sorted),
{
    let mut v = items;
    filter_inaccessible_completion_items(&mut v);
    strip_to(&mut v, snippets);
    let sorted = sort_items(v, SortBy::KindThenLabel);
    let ghost all = sorted@;
    let mut out: Vec<CompletionEntry> = Vec::new();
    let mut rest = sorted;
    let total = rest.len();
    let mut k: usize = 0;
    assert(rest@.skip(0) =~= rest@);
    while k < total
        invariant
            total == all.len(),
            k <= total,
            rest@ == all.skip(k as int),
            out@ == dedup_runs(all.take(k as int)),
        decreases total - k,
    {
        let e = rest.remove(0);
        proof {
            assert(e == all[k as int]);
            assert(rest@ =~= all.skip(k + 1int));
            assert(all.take(k + 1int).drop_last() =~= all.take(k as int));
        }
        let dup = out.len() > 0 && crate::types::str_eq(out[out.len() - 1].label.as_str(), e.label.as_str());
        if !dup {
            out.push(e);
        }
        k = k + 1;
    }
    assert(all.take(total as int) =~= all);
    out
}

} // verus!
