//! Class hierarchy traversal over a resolved supertype graph.
//!
//! The graph records, for each `(class name, declaring file)` node, the
//! supertypes that resolution found for it, in declaration order. Walks visit
//! every supertype node at most once and never the starting node itself.

use vstd::prelude::*;

use crate::find::{first_named, first_named_index};
use crate::resolve::{dotted_type_path, first_type_segment, pick};
use crate::segments::{join_char, join_strings, last_segment, last_segment_str, split_char};
use crate::tie_break::{
    ambiguity_safe_tail_with_denylist, is_denylisted, law_tail_member_facts, tail_spec, Candidate,
    TieBreakOrigin,
};
use crate::types::{str_eq, FileData, SymbolEntry};

verus! {

/// A type node: a class's simple name and the URI of the file declaring it.
pub struct TypeRef {
    pub name: String,
    pub uri: String,
}

impl View for TypeRef {
    type V = (Seq<char>, Seq<char>);

    open spec fn view(&self) -> (Seq<char>, Seq<char>) {
        (self.name@, self.uri@)
    }
}

impl TypeRef {
    /// An identical copy of this node.
    pub fn duplicate(&self) -> (r: TypeRef)
        ensures
            r@ == self@,
    {
        TypeRef { name: self.name.clone(), uri: self.uri.clone() }
    }

    /// Whether two nodes name the same class in the same file.
    pub fn same_as(&self, other: &TypeRef) -> (r: bool)
        ensures
            r == (self@ == other@),
    {
        str_eq(self.name.as_str(), other.name.as_str()) && str_eq(
            self.uri.as_str(),
            other.uri.as_str(),
        )
    }
}

pub type Node = (Seq<char>, Seq<char>);

pub open spec fn views(s: Seq<TypeRef>) -> Seq<Node> {
    s.map_values(|t: TypeRef| t@)
}

/// The supertypes resolved for one class node.
pub struct SupertypeEdges {
    pub class: TypeRef,
    pub supers: Vec<TypeRef>,
}

/// The resolved supertype relation of the classes a walk can reach.
pub struct SupertypeGraph {
    pub nodes: Vec<SupertypeEdges>,
}

/// The supertypes the first entry for `node` lists (none when `node` has no
/// entry).
pub open spec fn targets_in(nodes: Seq<SupertypeEdges>, node: Node) -> Seq<Node>
    decreases nodes.len(),
{
    if nodes.len() == 0 {
        Seq::empty()
    } else if nodes[0].class@ == node {
        views(nodes[0].supers@)
    } else {
        targets_in(nodes.drop_first(), node)
    }
}

pub open spec fn targets(g: SupertypeGraph, node: Node) -> Seq<Node> {
    targets_in(g.nodes@, node)
}

impl SupertypeGraph {
    /// The supertypes of `class`, in declaration order.
    pub fn supertype_targets(&self, class: &TypeRef) -> (out: Vec<TypeRef>)
        ensures
            views(out@) == targets(*self, class@),
    {
        let mut i: usize = 0;
        assert(self.nodes@.skip(0) =~= self.nodes@);
        while i < self.nodes.len()
            invariant
                i <= self.nodes@.len(),
                targets_in(self.nodes@, class@) == targets_in(self.nodes@.skip(i as int), class@),
            decreases self.nodes.len() - i,
        {
            proof {
                assert(self.nodes@.skip(i as int).drop_first() =~= self.nodes@.skip(i + 1int));
            }
            if self.nodes[i].class.same_as(class) {
                return copy_refs(&self.nodes[i].supers);
            }
            i = i + 1;
        }
        Vec::new()
    }
}

/// A copy of every node of `v`, in order.
pub fn copy_refs(v: &Vec<TypeRef>) -> (out: Vec<TypeRef>)
    ensures
        views(out@) == views(v@),
{
    let mut out: Vec<TypeRef> = Vec::new();
    let mut i: usize = 0;
    while i < v.len()
        invariant
            i <= v@.len(),
            views(out@) == views(v@.take(i as int)),
        decreases v.len() - i,
    {
        let ghost prev = out@;
        out.push(v[i].duplicate());
        proof {
            assert(out@ =~= prev.push(out@.last()));
            assert(views(out@) =~= views(prev).push(v@[i as int]@));
            assert(v@.take(i + 1int) =~= v@.take(i as int).push(v@[i as int]));
            assert(views(v@.take(i + 1int)) =~= views(v@.take(i as int)).push(v@[i as int]@));
        }
        i = i + 1;
    }
    assert(v@.take(v@.len() as int) =~= v@);
    out
}

// ─── Depth-first walk ────────────────────────────────────────────────────────

pub open spec fn remaining_depth(depth: nat, max: nat) -> nat {
    if depth < max {
        (max - depth) as nat
    } else {
        0
    }
}

/// The depth-first walk below `node` (at `depth`), given the set of nodes
/// already visited: the visited set afterwards, and the nodes newly visited,
/// in visiting order.
pub open spec fn dfs(g: SupertypeGraph, node: Node, depth: nat, max: nat, visited: Set<Node>) -> (
    Set<Node>,
    Seq<Node>,
)
    decreases remaining_depth(depth, max), 1nat, 0nat,
{
    if depth >= max {
        (visited, Seq::empty())
    } else {
        let ts = targets(g, node);
        dfs_list(g, ts, 0, depth, max, visited)
    }
}

/// The walk over the supertypes `ts[i..]` of a node at `depth`.
pub open spec fn dfs_list(
    g: SupertypeGraph,
    ts: Seq<Node>,
    i: nat,
    depth: nat,
    max: nat,
    visited: Set<Node>,
) -> (Set<Node>, Seq<Node>)
    decreases remaining_depth(depth, max), 0nat, if i < ts.len() {
        (ts.len() - i) as nat
    } else {
        0
    },
{
    if i >= ts.len() || depth >= max {
        (visited, Seq::empty())
    } else {
        let s = ts[i as int];
        if visited.contains(s) {
            dfs_list(g, ts, i + 1, depth, max, visited)
        } else {
            let below = dfs(g, s, depth + 1, max, visited.insert(s));
            let rest = dfs_list(g, ts, i + 1, depth, max, below.0);
            (rest.0, seq![s] + below.1 + rest.1)
        }
    }
}

/// The nodes a depth-first walk from `start` visits, in order: each
/// supertype of a visited node not seen before, each followed by its own
/// walk, down to `max` hops.
pub open spec fn walk_spec(g: SupertypeGraph, start: Node, max: nat) -> Seq<Node> {
    dfs(g, start, 0, max, set![start]).1
}

pub open spec fn visited_set(v: Seq<TypeRef>) -> Set<Node> {
    views(v).to_set()
}

/// Whether `node` is among `visited`.
fn is_visited(visited: &Vec<TypeRef>, node: &TypeRef) -> (r: bool)
    ensures
        r == visited_set(visited@).contains(node@),
{
    let mut i: usize = 0;
    while i < visited.len()
        invariant
            i <= visited@.len(),
            forall|j: int| 0 <= j < i ==> visited@[j]@ != node@,
        decreases visited.len() - i,
    {
        if visited[i].same_as(node) {
            assert(views(visited@)[i as int] == node@);
            return true;
        }
        i = i + 1;
    }
    proof {
        if views(visited@).to_set().contains(node@) {
            let j = choose|j: int| 0 <= j < views(visited@).len() && views(visited@)[j] == node@;
            assert(visited@[j]@ == node@);
        }
    }
    false
}

proof fn lemma_visited_push(v: Seq<TypeRef>, w: Seq<TypeRef>, n: Node)
    requires
        w.len() == v.len() + 1,
        w.drop_last() == v,
        w.last()@ == n,
    ensures
        visited_set(w) == visited_set(v).insert(n),
{
    assert(w =~= v.push(w.last()));
    assert(views(w) =~= views(v).push(n));
    views(v).lemma_push_to_set_commute(n);
}

/// The state of one depth-first walk: the graph, the depth cap, the nodes
/// seen so far and the nodes collected, in visiting order.
pub struct HierarchyWalker<'a> {
    pub graph: &'a SupertypeGraph,
    pub max_depth: usize,
    pub visited: Vec<TypeRef>,
    pub items: Vec<TypeRef>,
}

impl<'a> HierarchyWalker<'a> {
    /// Walk below `class` (at `depth`): each supertype not seen before is
    /// marked seen, collected, and walked in turn (see [`dfs`]).
    pub fn recurse(&mut self, class: &TypeRef, depth: usize)
        ensures
            depth >= old(self).max_depth ==> *final(self) == *old(self),
            final(self).graph == old(self).graph,
            final(self).max_depth == old(self).max_depth,
            final(self).visited@.len() >= old(self).visited@.len(),
            final(self).visited@.take(old(self).visited@.len() as int) == old(self).visited@,
            ({
                let r = dfs(
                    *old(self).graph,
                    class@,
                    depth as nat,
                    old(self).max_depth as nat,
                    visited_set(old(self).visited@),
                );
                &&& visited_set(final(self).visited@) == r.0
                &&& views(final(self).items@) == views(old(self).items@) + r.1
            }),
        decreases remaining_depth(depth as nat, old(self).max_depth as nat), 1nat, 0nat,
    {
        if depth >= self.max_depth {
            assert(views(self.items@) =~= views(self.items@) + Seq::<Node>::empty());
            return;
        }
        let g = self.graph;
        let max_depth = self.max_depth;
        let supers = g.supertype_targets(class);
        let ghost ts = views(supers@);
        let ghost v0 = visited_set(self.visited@);
        let ghost items0 = views(self.items@);
        let mut i: usize = 0;
        while i < supers.len()
            invariant
                self.graph == g,
                self.max_depth == max_depth,
                max_depth == old(self).max_depth,
                depth < max_depth,
                ts == views(supers@),
                ts == targets(*g, class@),
                i <= supers@.len(),
                self.visited@.len() >= old(self).visited@.len(),
                self.visited@.take(old(self).visited@.len() as int) == old(self).visited@,
                ({
                    let tail = dfs_list(
                        *g,
                        ts,
                        i as nat,
                        depth as nat,
                        max_depth as nat,
                        visited_set(self.visited@),
                    );
                    let whole = dfs_list(*g, ts, 0, depth as nat, max_depth as nat, v0);
                    &&& whole.0 == tail.0
                    &&& items0 + whole.1 == views(self.items@) + tail.1
                }),
            decreases supers.len() - i,
        {
            let s = &supers[i];
            if !is_visited(&self.visited, s) {
                let ghost vis_before = visited_set(self.visited@);
                let ghost items_before = views(self.items@);
                let ghost vprev = self.visited@;
                self.visited.push(s.duplicate());
                proof {
                    assert(self.visited@.drop_last() =~= vprev);
                    assert(self.visited@.take(old(self).visited@.len() as int) =~= vprev.take(
                        old(self).visited@.len() as int,
                    ));
                    lemma_visited_push(vprev, self.visited@, ts[i as int]);
                }
                self.items.push(s.duplicate());
                proof {
                    assert(views(self.items@) =~= items_before.push(ts[i as int]));
                }
                let ghost vmid = self.visited@;
                self.recurse(s, depth + 1);
                proof {
                    assert(self.visited@.take(old(self).visited@.len() as int) =~= vmid.take(
                        old(self).visited@.len() as int,
                    ));
                    let below = dfs(
                        *g,
                        ts[i as int],
                        (depth + 1) as nat,
                        max_depth as nat,
                        vis_before.insert(ts[i as int]),
                    );
                    assert(views(self.items@) =~= items_before + seq![ts[i as int]] + below.1);
                }
            }
            i = i + 1;
        }
        proof {
            assert(views(self.items@) + Seq::<Node>::empty() =~= views(self.items@));
        }
    }
}

/// Walk the class hierarchy upward from `start_class` (declared in
/// `start_uri`), depth-first: every supertype reachable within `max_depth`
/// hops that has not been seen before, each followed by its own walk.
pub fn walk_hierarchy(g: &SupertypeGraph, start_class: &str, start_uri: &str, max_depth: usize) -> (out:
    Vec<TypeRef>)
    ensures
        views(out@) == walk_spec(*g, (start_class@, start_uri@), max_depth as nat),
{
    let start = TypeRef { name: start_class.to_owned(), uri: start_uri.to_owned() };
    let mut visited: Vec<TypeRef> = Vec::new();
    let ghost empty = visited@;
    visited.push(start.duplicate());
    proof {
        assert(visited@.drop_last() =~= empty);
        lemma_visited_push(empty, visited@, start@);
        assert(visited_set(empty) =~= Set::<Node>::empty());
        assert(visited_set(visited@) =~= set![start@]);
    }
    let mut walker = HierarchyWalker { graph: g, max_depth, visited, items: Vec::new() };
    walker.recurse(&start, 0);
    proof {
        assert(views(Seq::<TypeRef>::empty()) =~= Seq::<Node>::empty());
    }
    walker.items
}

/// Walk the class hierarchy depth-first from `start_class` (declared in
/// `start_uri`, see [`walk_hierarchy`]) and call `collect` on each supertype
/// the walk visits, in visiting order: the result is everything those calls
/// returned, concatenated.
pub fn walk_hierarchy_collecting<T, F: Fn(&TypeRef) -> Vec<T>>(
    g: &SupertypeGraph,
    start_class: &str,
    start_uri: &str,
    max_depth: usize,
    collect: F,
) -> (r: Vec<T>)
    requires
        forall|t: &TypeRef| collect.requires((t,)),
    ensures
        exists|outs: Seq<Vec<T>>|
            #[trigger] outputs_of(collect, walk_spec(*g, (start_class@, start_uri@), max_depth as nat), outs)
                && r@ == flatten_outputs(outs),
{
    let nodes = walk_hierarchy(g, start_class, start_uri, max_depth);
    let ghost ns = views(nodes@);
    let ghost mut outs: Seq<Vec<T>> = Seq::empty();
    let mut r: Vec<T> = Vec::new();
    let mut i: usize = 0;
    while i < nodes.len()
        invariant
            forall|t: &TypeRef| collect.requires((t,)),
            ns == views(nodes@),
            i <= nodes@.len(),
            outputs_of(collect, ns.take(i as int), outs),
            r@ == flatten_outputs(outs),
        decreases nodes.len() - i,
    {
        let mut out = collect(&nodes[i]);
        let ghost o = out;
        let ghost before = outs;
        r.append(&mut out);
        proof {
            outs = before.push(o);
            assert(output_of(collect, ns[i as int], o));
            assert(outs.drop_last() =~= before);
            assert forall|j: int| 0 <= j < ns.take(i + 1).len() implies #[trigger] output_of(
                collect,
                ns.take(i + 1)[j],
                outs[j],
            ) by {
                if j < i {
                    assert(ns.take(i + 1)[j] == ns.take(i as int)[j]);
                    assert(outs[j] == before[j]);
                }
            }
        }
        i = i + 1;
    }
    proof {
        assert(ns.take(nodes@.len() as int) =~= ns);
    }
    r
}

/// A collecting walk calls `collect` once for each supertype it visits, each
/// node once and never on the class it starts from: `outs` are the calls'
/// outputs, in call order, and its result is their concatenation. With no
/// hops allowed it calls nothing and collects nothing.
pub proof fn law_collecting_walk_calls_each_supertype_once<T, F: Fn(&TypeRef) -> Vec<T>>(
    g: SupertypeGraph,
    start: Node,
    max_depth: nat,
    collect: F,
    outs: Seq<Vec<T>>,
)
    requires
        outputs_of(collect, walk_spec(g, start, max_depth), outs),
    ensures
        outs.len() == walk_spec(g, start, max_depth).len(),
        walk_spec(g, start, max_depth).no_duplicates(),
        !walk_spec(g, start, max_depth).contains(start),
        forall|i: int|
            0 <= i < outs.len() ==> #[trigger] output_of(collect, walk_spec(g, start, max_depth)[i], outs[i]),
        max_depth == 0 ==> outs.len() == 0 && flatten_outputs(outs).len() == 0,
{
    law_walk_is_sound_and_duplicate_free(g, start, max_depth);
    if max_depth == 0 {
        assert(walk_spec(g, start, max_depth).len() == 0);
        assert(outs =~= Seq::<Vec<T>>::empty());
    }
}

/// Whether `target_type` appears among the names of the supertypes a
/// 12-hop walk from `candidate_type` reaches.
pub fn supertype_chain_contains(
    g: &SupertypeGraph,
    candidate_type: &str,
    candidate_uri: &str,
    target_type: &str,
) -> (r: bool)
    ensures
        r == exists|i: int|
            0 <= i < walk_spec(*g, (candidate_type@, candidate_uri@), 12).len() && #[trigger] walk_spec(
                *g,
                (candidate_type@, candidate_uri@),
                12,
            )[i].0 == target_type@,
{
    let walked = walk_hierarchy(g, candidate_type, candidate_uri, 12);
    let ghost w = walk_spec(*g, (candidate_type@, candidate_uri@), 12);
    let mut i: usize = 0;
    while i < walked.len()
        invariant
            views(walked@) == w,
            w == walk_spec(*g, (candidate_type@, candidate_uri@), 12),
            i <= walked@.len(),
            forall|j: int| 0 <= j < i ==> w[j].0 != target_type@,
        decreases walked.len() - i,
    {
        if str_eq(walked[i].name.as_str(), target_type) {
            assert(w[i as int].0 == target_type@);
            return true;
        }
        i = i + 1;
    }
    false
}

/// How a candidate receiver's type relates to a target (query) declaring type.
#[derive(PartialEq, Eq, Structural, Clone, Copy, Debug)]
pub enum ReceiverTypeAgreement {
    /// The same type.
    Exact,
    /// The target is one of the candidate's supertypes.
    Inherited,
    /// The candidate is indexed and the target is not among its supertypes.
    Unrelated,
    /// The candidate type itself is not indexed, so nothing can be proved.
    Unresolvable,
}

/// The receiver-type-agreement decision: exact match, else — only when the
/// candidate type is indexed (`candidate_indexed`), so that a negative
/// answer is trustworthy — an ascending supertype walk.
pub fn receiver_type_agreement(
    g: &SupertypeGraph,
    candidate_type: &str,
    candidate_uri: &str,
    target_type: &str,
    candidate_indexed: bool,
) -> (r: ReceiverTypeAgreement)
    ensures
        r == (if candidate_type@ == target_type@ {
            ReceiverTypeAgreement::Exact
        } else if !candidate_indexed {
            ReceiverTypeAgreement::Unresolvable
        } else if exists|i: int|
            0 <= i < walk_spec(*g, (candidate_type@, candidate_uri@), 12).len() && #[trigger] walk_spec(
                *g,
                (candidate_type@, candidate_uri@),
                12,
            )[i].0 == target_type@ {
            ReceiverTypeAgreement::Inherited
        } else {
            ReceiverTypeAgreement::Unrelated
        }),
{
    if str_eq(candidate_type, target_type) {
        return ReceiverTypeAgreement::Exact;
    }
    if !candidate_indexed {
        return ReceiverTypeAgreement::Unresolvable;
    }
    if supertype_chain_contains(g, candidate_type, candidate_uri, target_type) {
        ReceiverTypeAgreement::Inherited
    } else {
        ReceiverTypeAgreement::Unrelated
    }
}

// ─── Breadth-first walk ──────────────────────────────────────────────────────

/// The supertypes `ts`, in order, that are neither in `visited` nor repeated:
/// the visited set afterwards, and the new nodes.
pub open spec fn add_new(ts: Seq<Node>, visited: Set<Node>) -> (Set<Node>, Seq<Node>)
    decreases ts.len(),
{
    if ts.len() == 0 {
        (visited, Seq::empty())
    } else {
        let (v1, n1) = add_new(ts.drop_last(), visited);
        let t = ts.last();
        if v1.contains(t) {
            (v1, n1)
        } else {
            (v1.insert(t), n1.push(t))
        }
    }
}

/// The next level below `current`: the new supertypes of its nodes, node by
/// node, in order.
pub open spec fn expand_level(g: SupertypeGraph, current: Seq<Node>, visited: Set<Node>) -> (
    Set<Node>,
    Seq<Node>,
)
    decreases current.len(),
{
    if current.len() == 0 {
        (visited, Seq::empty())
    } else {
        let (v1, n1) = expand_level(g, current.drop_last(), visited);
        let (v2, n2) = add_new(targets(g, current.last()), v1);
        (v2, n1 + n2)
    }
}

/// The successive non-empty levels of a breadth-first walk from `current`,
/// at most `fuel` of them.
pub open spec fn bfs_levels(g: SupertypeGraph, current: Seq<Node>, visited: Set<Node>, fuel: nat) -> Seq<
    Seq<Node>,
>
    decreases fuel,
{
    if fuel == 0 {
        Seq::empty()
    } else {
        let (v, next) = expand_level(g, current, visited);
        if next.len() == 0 {
            Seq::empty()
        } else {
            seq![next] + bfs_levels(g, next, v, (fuel - 1) as nat)
        }
    }
}

/// The levels of the breadth-first walk from `start`, down to `max` hops.
pub open spec fn hierarchy_levels(g: SupertypeGraph, start: Node, max: nat) -> Seq<Seq<Node>> {
    bfs_levels(g, seq![start], set![start], max)
}

/// The concatenation of `outs`.
pub open spec fn flatten_outputs<T>(outs: Seq<Vec<T>>) -> Seq<T>
    decreases outs.len(),
{
    if outs.len() == 0 {
        Seq::empty()
    } else {
        flatten_outputs(outs.drop_last()) + outs.last()@
    }
}

/// `out` is an output `collect` can give for a node equal to `node`.
pub open spec fn output_of<T, F: Fn(&TypeRef) -> Vec<T>>(collect: F, node: Node, out: Vec<T>) -> bool {
    exists|t: &TypeRef| #![trigger call_ensures(collect, (t,), out)] t@ == node && call_ensures(collect, (t,), out)
}

/// `outs[i]` is an output `collect` can give for the node `nodes[i]`.
pub open spec fn outputs_of<T, F: Fn(&TypeRef) -> Vec<T>>(
    collect: F,
    nodes: Seq<Node>,
    outs: Seq<Vec<T>>,
) -> bool {
    &&& outs.len() == nodes.len()
    &&& forall|i: int| 0 <= i < nodes.len() ==> #[trigger] output_of(collect, nodes[i], outs[i])
}

/// `r` is what a breadth-first walk over `levels` collects, given the
/// outputs `outs` of the levels it inspected: every level before level `k`
/// collected nothing, and `r` is everything level `k` collected (nothing
/// when `k` is past the last level).
pub open spec fn bfs_collected<T, F: Fn(&TypeRef) -> Vec<T>>(
    collect: F,
    levels: Seq<Seq<Node>>,
    r: Seq<T>,
    k: int,
    outs: Seq<Seq<Vec<T>>>,
) -> bool {
    &&& 0 <= k <= levels.len()
    &&& outs.len() == (if k < levels.len() {
        k + 1
    } else {
        k
    })
    &&& forall|d: int| 0 <= d < outs.len() ==> outputs_of(collect, levels[d], #[trigger] outs[d])
    &&& forall|d: int| 0 <= d < k ==> flatten_outputs(#[trigger] outs[d]).len() == 0
    &&& k < levels.len() ==> flatten_outputs(outs[k]).len() > 0 && r == flatten_outputs(outs[k])
    &&& k == levels.len() ==> r.len() == 0
}

proof fn lemma_add_new_step(ts: Seq<Node>, visited: Set<Node>, j: int)
    requires
        0 <= j < ts.len(),
    ensures
        add_new(ts.take(j + 1), visited) == ({
            let (v1, n1) = add_new(ts.take(j), visited);
            if v1.contains(ts[j]) {
                (v1, n1)
            } else {
                (v1.insert(ts[j]), n1.push(ts[j]))
            }
        }),
{
    assert(ts.take(j + 1).drop_last() =~= ts.take(j));
}

/// Walk the class hierarchy upward from `start_class` breadth-first, level
/// by level, calling `collect` on each supertype not seen before, and return
/// what the nearest level with any result collected (see [`bfs_collected`]):
/// a nearer ancestor always wins over a farther one, and nothing from a
/// farther level is even collected once a nearer one has something.
pub fn walk_hierarchy_breadth_first<T, F: Fn(&TypeRef) -> Vec<T>>(
    g: &SupertypeGraph,
    start_class: &str,
    start_uri: &str,
    max_depth: usize,
    collect: F,
) -> (r: Vec<T>)
    requires
        forall|t: &TypeRef| collect.requires((t,)),
    ensures
        exists|k: int, outs: Seq<Seq<Vec<T>>>|
            #[trigger] bfs_collected(
                collect,
                hierarchy_levels(*g, (start_class@, start_uri@), max_depth as nat),
                r@,
                k,
                outs,
            ),
{
    let start = TypeRef { name: start_class.to_owned(), uri: start_uri.to_owned() };
    let ghost levels = hierarchy_levels(*g, start@, max_depth as nat);
    let mut visited: Vec<TypeRef> = Vec::new();
    let ghost empty = visited@;
    visited.push(start.duplicate());
    proof {
        assert(visited@.drop_last() =~= empty);
        lemma_visited_push(empty, visited@, start@);
        assert(visited_set(empty) =~= Set::<Node>::empty());
        assert(visited_set(visited@) =~= set![start@]);
    }
    let mut current: Vec<TypeRef> = Vec::new();
    current.push(start);
    assert(views(current@) =~= seq![start@]);
    let ghost mut done: Seq<Seq<Vec<T>>> = Seq::empty();
    let mut depth: usize = 0;
    while depth < max_depth
        invariant
            levels == hierarchy_levels(*g, (start_class@, start_uri@), max_depth as nat),
            forall|t: &TypeRef| collect.requires((t,)),
            depth <= max_depth,
            done.len() == depth,
            depth <= levels.len(),
            bfs_levels(*g, views(current@), visited_set(visited@), (max_depth - depth) as nat)
                == levels.skip(depth as int),
            forall|d: int| 0 <= d < depth ==> outputs_of(collect, levels[d], #[trigger] done[d]),
            forall|d: int| 0 <= d < depth ==> flatten_outputs(#[trigger] done[d]).len() == 0,
        decreases max_depth - depth,
    {
        let ghost vis0 = visited_set(visited@);
        let ghost cur = views(current@);
        let mut next: Vec<TypeRef> = Vec::new();
        let mut found: Vec<T> = Vec::new();
        let ghost mut outs: Seq<Vec<T>> = Seq::empty();
        let mut i: usize = 0;
        while i < current.len()
            invariant
                cur == views(current@),
                forall|t: &TypeRef| collect.requires((t,)),
                i <= current@.len(),
                (visited_set(visited@), views(next@)) == expand_level(*g, cur.take(i as int), vis0),
                outputs_of(collect, views(next@), outs),
                found@ == flatten_outputs(outs),
            decreases current.len() - i,
        {
            let supers = g.supertype_targets(&current[i]);
            let ghost ts = views(supers@);
            let ghost v1 = visited_set(visited@);
            let ghost n1 = views(next@);
            let mut j: usize = 0;
            proof {
                assert(ts.take(0) =~= Seq::<Node>::empty());
                assert(n1 + Seq::<Node>::empty() =~= n1);
            }
            while j < supers.len()
                invariant
                    ts == views(supers@),
                    forall|t: &TypeRef| collect.requires((t,)),
                    j <= supers@.len(),
                    ({
                        let (va, na) = add_new(ts.take(j as int), v1);
                        visited_set(visited@) == va && views(next@) == n1 + na
                    }),
                    outputs_of(collect, views(next@), outs),
                    found@ == flatten_outputs(outs),
                decreases supers.len() - j,
            {
                proof {
                    lemma_add_new_step(ts, v1, j as int);
                }
                let s = &supers[j];
                if !is_visited(&visited, s) {
                    let ghost vprev = visited@;
                    visited.push(s.duplicate());
                    proof {
                        assert(visited@.drop_last() =~= vprev);
                        lemma_visited_push(vprev, visited@, ts[j as int]);
                    }
                    let mut o = collect(s);
                    let ghost o_val = o;
                    let ghost found_before = found@;
                    let ghost next_before = views(next@);
                    let ghost outs_before = outs;
                    found.append(&mut o);
                    next.push(s.duplicate());
                    proof {
                        outs = outs.push(o_val);
                        assert(outs.drop_last() =~= outs_before);
                        assert(found@ =~= flatten_outputs(outs));
                        assert(views(next@) =~= next_before.push(ts[j as int]));
                        assert(output_of(collect, ts[j as int], o_val));
                        assert forall|k: int| 0 <= k < views(next@).len() implies #[trigger] output_of(
                            collect,
                            views(next@)[k],
                            outs[k],
                        ) by {
                            if k < next_before.len() {
                                assert(outs[k] == outs_before[k]);
                                assert(views(next@)[k] == next_before[k]);
                                assert(output_of(collect, next_before[k], outs_before[k]));
                            }
                        }
                        let (va, na) = add_new(ts.take(j + 1int), v1);
                        assert(views(next@) =~= n1 + na);
                        assert(outs.len() == views(next@).len());
                        assert(outputs_of(collect, views(next@), outs));
                    }
                }
                j = j + 1;
            }
            proof {
                assert(ts.take(ts.len() as int) =~= ts);
                assert(cur.take(i + 1int).drop_last() =~= cur.take(i as int));
                assert(cur.take(i + 1int).last() == cur[i as int]);
            }
            i = i + 1;
        }
        proof {
            assert(cur.take(cur.len() as int) =~= cur);
            assert(levels.skip(depth as int) == bfs_levels(
                *g,
                cur,
                vis0,
                (max_depth - depth) as nat,
            ));
        }
        if found.len() > 0 {
            proof {
                assert(levels.skip(depth as int)[0] == views(next@));
                assert(levels[depth as int] == views(next@));
                let all = done.push(outs);
                assert(bfs_collected(collect, levels, found@, depth as int, all));
            }
            return found;
        }
        if next.len() == 0 {
            proof {
                assert(levels.skip(depth as int).len() == 0);
                assert(levels.len() == depth);
                assert(bfs_collected(collect, levels, Seq::<T>::empty(), depth as int, done));
            }
            return Vec::new();
        }
        proof {
            assert(levels.skip(depth as int)[0] == views(next@));
            assert(levels[depth as int] == views(next@));
            assert(levels.skip(depth + 1int) =~= levels.skip(depth as int).skip(1));
            let old_done = done;
            done = done.push(outs);
            assert forall|d: int| 0 <= d < depth + 1 implies outputs_of(collect, levels[d], #[trigger] done[d]) by {
                if d < depth {
                    assert(done[d] == old_done[d]);
                }
            }
            assert forall|d: int| 0 <= d < depth + 1 implies flatten_outputs(#[trigger] done[d]).len() == 0 by {
                if d < depth {
                    assert(done[d] == old_done[d]);
                }
            }
        }
        current = next;
        depth = depth + 1;
    }
    proof {
        assert(levels.skip(depth as int).len() == 0);
        assert(bfs_collected(collect, levels, Seq::<T>::empty(), depth as int, done));
    }
    Vec::new()
}

proof fn lemma_add_new_facts(ts: Seq<Node>, visited: Set<Node>)
    ensures
        ({
            let (v2, n) = add_new(ts, visited);
            &&& forall|x: Node| #[trigger] v2.contains(x) <==> visited.contains(x) || n.contains(x)
            &&& forall|x: Node| n.contains(x) ==> !visited.contains(x)
            &&& n.no_duplicates()
        }),
    decreases ts.len(),
{
    if ts.len() > 0 {
        lemma_add_new_facts(ts.drop_last(), visited);
        let (v1, n1) = add_new(ts.drop_last(), visited);
        let t = ts.last();
        if !v1.contains(t) {
            let n = n1.push(t);
            assert forall|x: Node| n.contains(x) <==> n1.contains(x) || x == t by {
                if n.contains(x) {
                    let i = choose|i: int| 0 <= i < n.len() && n[i] == x;
                    if i < n1.len() {
                        assert(n1[i] == x);
                    }
                }
                if n1.contains(x) {
                    let i = choose|i: int| 0 <= i < n1.len() && n1[i] == x;
                    assert(n[i] == x);
                }
                if x == t {
                    assert(n[n1.len() as int] == x);
                }
            }
            assert forall|i: int, j: int| 0 <= i < j < n.len() implies n[i] != n[j] by {
                if j == n1.len() {
                    assert(n1.contains(n1[i]));
                }
            }
        }
    }
}

proof fn lemma_expand_level_facts(g: SupertypeGraph, current: Seq<Node>, visited: Set<Node>)
    ensures
        ({
            let (v2, n) = expand_level(g, current, visited);
            &&& forall|x: Node| #[trigger] v2.contains(x) <==> visited.contains(x) || n.contains(x)
            &&& forall|x: Node| n.contains(x) ==> !visited.contains(x)
            &&& n.no_duplicates()
        }),
    decreases current.len(),
{
    if current.len() > 0 {
        lemma_expand_level_facts(g, current.drop_last(), visited);
        let (v1, n1) = expand_level(g, current.drop_last(), visited);
        lemma_add_new_facts(targets(g, current.last()), v1);
        let (v2, n2) = add_new(targets(g, current.last()), v1);
        let n = n1 + n2;
        assert forall|x: Node| n.contains(x) <==> n1.contains(x) || n2.contains(x) by {
            if n.contains(x) {
                let i = choose|i: int| 0 <= i < n.len() && n[i] == x;
                if i < n1.len() {
                    assert(n1[i] == x);
                } else {
                    assert(n2[i - n1.len()] == x);
                }
            }
            if n1.contains(x) {
                let i = choose|i: int| 0 <= i < n1.len() && n1[i] == x;
                assert(n[i] == x);
            }
            if n2.contains(x) {
                let i = choose|i: int| 0 <= i < n2.len() && n2[i] == x;
                assert(n[n1.len() + i] == x);
            }
        }
        assert forall|i: int, j: int| 0 <= i < j < n.len() implies n[i] != n[j] by {
            if j >= n1.len() && i < n1.len() {
                assert(n1.contains(n[i]));
                assert(n2.contains(n[j]));
            } else if i >= n1.len() {
                assert(n[i] == n2[i - n1.len()]);
                assert(n[j] == n2[j - n1.len()]);
            }
        }
    }
}

proof fn lemma_bfs_levels_facts(g: SupertypeGraph, current: Seq<Node>, visited: Set<Node>, fuel: nat)
    ensures
        ({
            let levels = bfs_levels(g, current, visited, fuel);
            &&& forall|d: int, x: Node|
                0 <= d < levels.len() && #[trigger] levels[d].contains(x) ==> !visited.contains(x)
            &&& forall|d1: int, d2: int, x: Node|
                0 <= d1 < d2 < levels.len() && #[trigger] levels[d1].contains(x) ==> !(
                #[trigger] levels[d2]).contains(x)
            &&& forall|d: int| 0 <= d < levels.len() ==> (#[trigger] levels[d]).no_duplicates()
        }),
    decreases fuel,
{
    if fuel > 0 {
        lemma_expand_level_facts(g, current, visited);
        let (v, next) = expand_level(g, current, visited);
        if next.len() > 0 {
            lemma_bfs_levels_facts(g, next, v, (fuel - 1) as nat);
            let rest = bfs_levels(g, next, v, (fuel - 1) as nat);
            let levels = seq![next] + rest;
            assert forall|d: int, x: Node|
                0 <= d < levels.len() && #[trigger] levels[d].contains(x) implies !visited.contains(
                x,
            ) by {
                if d > 0 {
                    assert(levels[d] == rest[d - 1]);
                }
            }
            assert forall|d1: int, d2: int, x: Node|
                0 <= d1 < d2 < levels.len() && #[trigger] levels[d1].contains(x) implies !(
            #[trigger] levels[d2]).contains(x) by {
                assert(levels[d2] == rest[d2 - 1]);
                if d1 > 0 {
                    assert(levels[d1] == rest[d1 - 1]);
                } else {
                    assert(v.contains(x));
                }
            }
            assert forall|d: int| 0 <= d < levels.len() implies (#[trigger] levels[d]).no_duplicates() by {
                if d > 0 {
                    assert(levels[d] == rest[d - 1]);
                }
            }
        }
    }
}

/// A breadth-first walk visits each supertype at most once: no level holds
/// the start node or a node twice, and no node appears on two levels.
pub proof fn law_levels_are_disjoint(g: SupertypeGraph, start: Node, max_depth: nat)
    ensures
        ({
            let levels = hierarchy_levels(g, start, max_depth);
            &&& forall|d: int| 0 <= d < levels.len() ==> !(#[trigger] levels[d]).contains(start)
            &&& forall|d1: int, d2: int, x: Node|
                0 <= d1 < d2 < levels.len() && #[trigger] levels[d1].contains(x) ==> !(
                #[trigger] levels[d2]).contains(x)
            &&& forall|d: int| 0 <= d < levels.len() ==> (#[trigger] levels[d]).no_duplicates()
        }),
{
    lemma_bfs_levels_facts(g, seq![start], set![start], max_depth);
    let levels = hierarchy_levels(g, start, max_depth);
    assert forall|d: int| 0 <= d < levels.len() implies !(#[trigger] levels[d]).contains(start) by {
        if levels[d].contains(start) {
            assert(set![start].contains(start));
        }
    }
}

// ─── Laws ─────────────────────────────────────────────────────────────────────

/// `b` is a supertype of `a` within `k` hops.
pub open spec fn reaches(g: SupertypeGraph, a: Node, b: Node, k: nat) -> bool
    decreases k,
{
    k > 0 && (targets(g, a).contains(b) || exists|c: Node|
        #[trigger] targets(g, a).contains(c) && reaches(g, c, b, (k - 1) as nat))
}

proof fn lemma_reaches_mono(g: SupertypeGraph, a: Node, b: Node, k: nat, k2: nat)
    requires
        reaches(g, a, b, k),
        k <= k2,
    ensures
        reaches(g, a, b, k2),
    decreases k,
{
    if !targets(g, a).contains(b) {
        let c = choose|c: Node| #[trigger] targets(g, a).contains(c) && reaches(g, c, b, (k - 1) as nat);
        lemma_reaches_mono(g, c, b, (k - 1) as nat, (k2 - 1) as nat);
    }
}

/// Facts about one step of the walk: the visited set grows by exactly the
/// newly visited nodes, which are distinct, previously unvisited, and each
/// a real supertype of `node` within the remaining depth.
pub proof fn lemma_dfs_facts(g: SupertypeGraph, node: Node, depth: nat, max: nat, visited: Set<Node>)
    ensures
        ({
            let r = dfs(g, node, depth, max, visited);
            &&& r.0 == visited + r.1.to_set()
            &&& r.1.no_duplicates()
            &&& forall|x: Node| #[trigger] r.1.contains(x) ==> !visited.contains(x)
            &&& forall|x: Node| #[trigger] r.1.contains(x) ==> reaches(
                g,
                node,
                x,
                remaining_depth(depth, max),
            )
        }),
    decreases remaining_depth(depth, max), 1nat, 0nat,
{
    if depth >= max {
        assert(Seq::<Node>::empty().to_set() =~= Set::<Node>::empty());
        assert(visited + Set::<Node>::empty() =~= visited);
    } else {
        lemma_dfs_list_facts(g, node, targets(g, node), 0, depth, max, visited);
    }
}

pub proof fn lemma_dfs_list_facts(
    g: SupertypeGraph,
    node: Node,
    ts: Seq<Node>,
    i: nat,
    depth: nat,
    max: nat,
    visited: Set<Node>,
)
    requires
        ts == targets(g, node),
        depth < max,
    ensures
        ({
            let r = dfs_list(g, ts, i, depth, max, visited);
            &&& r.0 == visited + r.1.to_set()
            &&& r.1.no_duplicates()
            &&& forall|x: Node| #[trigger] r.1.contains(x) ==> !visited.contains(x)
            &&& forall|x: Node| #[trigger] r.1.contains(x) ==> reaches(
                g,
                node,
                x,
                remaining_depth(depth, max),
            )
        }),
    decreases remaining_depth(depth, max), 0nat, if i < ts.len() {
        (ts.len() - i) as nat
    } else {
        0
    },
{
    if i >= ts.len() {
        assert(Seq::<Node>::empty().to_set() =~= Set::<Node>::empty());
        assert(visited + Set::<Node>::empty() =~= visited);
    } else {
        let s = ts[i as int];
        if visited.contains(s) {
            lemma_dfs_list_facts(g, node, ts, i + 1, depth, max, visited);
        } else {
            let v1 = visited.insert(s);
            let below = dfs(g, s, depth + 1, max, v1);
            let rest = dfs_list(g, ts, i + 1, depth, max, below.0);
            lemma_dfs_facts(g, s, depth + 1, max, v1);
            lemma_dfs_list_facts(g, node, ts, i + 1, depth, max, below.0);
            let out = seq![s] + below.1 + rest.1;
            assert(ts.contains(s));
            assert forall|x: Node| #[trigger] out.contains(x) implies !visited.contains(x) && reaches(
                g,
                node,
                x,
                remaining_depth(depth, max),
            ) by {
                if x == s {
                } else if below.1.contains(x) {
                    assert(reaches(g, s, x, remaining_depth(depth + 1, max)));
                    assert(remaining_depth(depth + 1, max) == (remaining_depth(depth, max) - 1) as nat);
                } else {
                    let j = choose|j: int| 0 <= j < out.len() && out[j] == x;
                    assert(rest.1.contains(x)) by {
                        assert(out[j] == rest.1[j - 1 - below.1.len()]);
                    }
                }
            }
            assert(out.no_duplicates()) by {
                assert forall|a: int, b: int| 0 <= a < b < out.len() implies out[a] != out[b] by {
                    if a == 0 {
                        if b <= below.1.len() {
                            assert(below.1.contains(out[b]));
                        } else {
                            assert(rest.1.contains(out[b]));
                        }
                    } else if a <= below.1.len() {
                        if b > below.1.len() {
                            assert(below.1.contains(out[a]));
                            assert(rest.1.contains(out[b]));
                        }
                    }
                }
            }
            assert(rest.0 =~= visited + out.to_set()) by {
                assert forall|x: Node| rest.0.contains(x) == (visited + out.to_set()).contains(x) by {
                    assert(out[0] == s);
                    assert(rest.0.contains(x) == (visited.contains(x) || x == s || below.1.contains(x)
                        || rest.1.contains(x)));
                    if out.contains(x) {
                        let j = choose|j: int| 0 <= j < out.len() && out[j] == x;
                        if j == 0 {
                        } else if j <= below.1.len() {
                            assert(below.1.contains(x));
                        } else {
                            assert(rest.1.contains(out[j]));
                        }
                    }
                    if below.1.contains(x) {
                        let j = choose|j: int| 0 <= j < below.1.len() && below.1[j] == x;
                        assert(out[j + 1] == x);
                    }
                    if rest.1.contains(x) {
                        let j = choose|j: int| 0 <= j < rest.1.len() && rest.1[j] == x;
                        assert(out[j + 1 + below.1.len()] == x);
                    }
                }
            }
        }
    }
}

/// A depth-first walk never revisits a supertype, never returns the class it
/// started from, and returns only real supertypes within `max_depth` hops.
pub proof fn law_walk_is_sound_and_duplicate_free(g: SupertypeGraph, start: Node, max_depth: nat)
    ensures
        walk_spec(g, start, max_depth).no_duplicates(),
        !walk_spec(g, start, max_depth).contains(start),
        forall|x: Node| #[trigger]
            walk_spec(g, start, max_depth).contains(x) ==> reaches(g, start, x, max_depth),
{
    lemma_dfs_facts(g, start, 0, max_depth, set![start]);
}

} // verus!

verus! {

// ─── Supertypes as a file declares them ─────────────────────────────────────

/// The supertype names of `entries`, in order.
pub open spec fn super_entry_names(entries: Seq<(u32, String, Vec<String>)>) -> Seq<Seq<char>> {
    entries.map_values(|t: (u32, String, Vec<String>)| t.1@)
}

/// Supertype entry `i` belongs to the class whose identifier is on `line`.
pub open spec fn declared_on_line(entries: Seq<(u32, String, Vec<String>)>, line: u32) -> spec_fn(int) -> bool {
    |i: int| entries[i].0 == line
}

/// The supertype names `file` declares for the class `class_name`: those
/// recorded on the line of the first symbol of that name; all of the file's
/// when the name is empty or no symbol has it.
pub open spec fn super_names(file: FileData, class_name: Seq<char>) -> Seq<Seq<char>> {
    let k = first_named(file.symbols@, class_name);
    if class_name.len() == 0 || k == -1 {
        super_entry_names(file.supers@)
    } else {
        let line = file.symbols@[k].selection_range.start.line;
        super_entry_names(pick(file.supers@, declared_on_line(file.supers@, line), file.supers@.len() as int))
    }
}

/// The supertype names `file` declares for `class_name` (see [`super_names`]).
pub fn super_names_for_class(file: &FileData, class_name: &str) -> (out: Vec<String>)
    ensures
        out.deep_view() == super_names(*file, class_name@),
{
    let line: Option<u32> = if class_name.unicode_len() == 0 {
        None
    } else {
        match first_named_index(&file.symbols, class_name) {
            Some(k) => Some(file.symbols[k].selection_range.start.line),
            None => None,
        }
    };
    let ghost keep = match line {
        Some(l) => declared_on_line(file.supers@, l),
        None => |i: int| true,
    };
    let mut out: Vec<String> = Vec::new();
    let mut i: usize = 0;
    while i < file.supers.len()
        invariant
            i <= file.supers@.len(),
            keep == (match line {
                Some(l) => declared_on_line(file.supers@, l),
                None => |i: int| true,
            }),
            out.deep_view() == super_entry_names(pick(file.supers@, keep, i as int)),
        decreases file.supers.len() - i,
    {
        let hit = match line {
            Some(l) => file.supers[i].0 == l,
            None => true,
        };
        assert(hit == keep(i as int));
        let ghost before = out.deep_view();
        if hit {
            out.push(file.supers[i].1.clone());
        }
        proof {
            let p = pick(file.supers@, keep, i + 1int);
            if hit {
                assert(out.deep_view() =~= before.push(file.supers@[i as int].1@));
                assert(super_entry_names(p) =~= super_entry_names(pick(file.supers@, keep, i as int)).push(
                    file.supers@[i as int].1@,
                ));
            }
        }
        i = i + 1;
    }
    proof {
        if line is None {
            lemma_pick_all(file.supers@, keep, file.supers@.len() as int);
        }
    }
    out
}

/// Picking with a predicate that holds everywhere picks everything.
proof fn lemma_pick_all<T>(s: Seq<T>, keep: spec_fn(int) -> bool, n: int)
    requires
        0 <= n <= s.len(),
        forall|i: int| 0 <= i < n ==> #[trigger] keep(i),
    ensures
        pick(s, keep, n) == s.take(n),
    decreases n,
{
    if n > 0 {
        lemma_pick_all(s, keep, n - 1);
        assert(s.take(n) =~= s.take(n - 1).push(s[n - 1]));
    }
}

/// How a supertype spelling is resolved: always by its leaf (the simple
/// name after the last dot); a dotted spelling first names a package, an
/// outermost type and the nested types inside it.
pub struct SupertypeSpelling {
    /// The simple name the supertype is known by.
    pub leaf: String,
    /// For a dotted spelling whose segments include a type name: the
    /// package (the leading lowercase segments joined, when there are any),
    /// the outermost type, and the nested type names after it.
    pub qualified: Option<(Option<String>, String, Vec<String>)>,
}

/// How [`supertype_spelling`] reads `name`: the leaf is its last segment;
/// when it has a dot and a segment starting uppercase, the segments before
/// the first such one are the package, that one is the outermost type, and
/// the rest are nested types.
pub open spec fn spelling_of(name: Seq<char>, s: SupertypeSpelling) -> bool {
    let segs = split_char(name, '.');
    let start = first_type_segment(segs);
    &&& s.leaf@ == last_segment(name)
    &&& if name.contains('.') && start != -1 {
        s.qualified matches Some((pkg, outer, nested)) && outer@ == segs[start] && nested.deep_view()
            == segs.skip(start + 1) && match pkg {
            Some(p) => start > 0 && p@ == join_char(segs.take(start), '.'),
            None => start == 0,
        }
    } else {
        s.qualified is None
    }
}

/// Read a supertype as the file spells it (`Base`, `com.lib.Base`,
/// `Outer.Inner`, `com.lib.Outer.Inner`; see [`spelling_of`]).
pub fn supertype_spelling(name: &str) -> (r: SupertypeSpelling)
    ensures
        spelling_of(name@, r),
{
    let leaf = last_segment_str(name).to_owned();
    let qualified = match dotted_type_path(name) {
        None => None,
        Some(d) => {
            let ghost segs = d.segments.deep_view();
            let start = d.start;
            let mut segments = d.segments;
            let mut nested = segments.split_off(start + 1);
            let outer = segments.pop().unwrap();
            proof {
                assert(segments.deep_view() =~= segs.take(start as int));
                assert(nested.deep_view() =~= segs.skip(start + 1int));
                assert(outer@ == segs[start as int]);
            }
            let pkg = if start > 0 {
                proof {
                    reveal_strlit(".");
                }
                Some(join_strings(&segments, "."))
            } else {
                None
            };
            Some((pkg, outer, nested))
        },
    };
    SupertypeSpelling { leaf, qualified }
}

// ─── Supertype edges through the ambiguity-safe tail ───────────────────────

/// One supertype a class declares, as spelled in its declaration, with the
/// same-named definitions among which an ambiguity-safe resolution of its
/// simple name must choose.
pub struct SupertypeCandidates {
    pub spelling: String,
    pub candidates: Vec<Candidate>,
}

/// The supertype nodes chosen for the first `n` declared supertypes: for
/// each, in order, the node (its simple name, the chosen file) of every
/// candidate the ambiguity-safe tail keeps (at most one; none when the name
/// stays ambiguous).
pub open spec fn chosen_supertypes(supers: Seq<SupertypeCandidates>, origin: TieBreakOrigin, n: int) -> Seq<Node>
    decreases n,
{
    if n <= 0 {
        Seq::empty()
    } else {
        chosen_supertypes(supers, origin, n - 1) + tail_spec(origin, supers[n - 1].candidates@).map_values(
            |c: Candidate| (last_segment(supers[n - 1].spelling@), c.location.uri@),
        )
    }
}

fn copy_candidates(v: &Vec<Candidate>) -> (r: Vec<Candidate>)
    ensures
        r@ == v@,
{
    let mut r: Vec<Candidate> = Vec::new();
    let mut i: usize = 0;
    while i < v.len()
        invariant
            i <= v@.len(),
            r@ == v@.take(i as int),
        decreases v.len() - i,
    {
        r.push(v[i].duplicate());
        assert(v@.take(i + 1int) =~= v@.take(i as int).push(v@[i as int]));
        i = i + 1;
    }
    assert(v@.take(v@.len() as int) =~= v@);
    r
}

/// The supertype edges of `class` when each declared supertype (`supers`)
/// is resolved by the ambiguity-safe tail over its candidates (see
/// [`chosen_supertypes`]): a same-named decoy in a denylisted package, or
/// one outside the calling module's dependencies, never becomes an edge
/// when a better candidate exists, and a name that stays ambiguous gives no
/// edge at all.
pub fn supertype_edges(class: TypeRef, supers: &Vec<SupertypeCandidates>, origin: &TieBreakOrigin) -> (e: SupertypeEdges)
    ensures
        e.class@ == class@,
        views(e.supers@) == chosen_supertypes(supers@, *origin, supers@.len() as int),
{
    let mut out: Vec<TypeRef> = Vec::new();
    let mut i: usize = 0;
    while i < supers.len()
        invariant
            i <= supers@.len(),
            views(out@) == chosen_supertypes(supers@, *origin, i as int),
        decreases supers.len() - i,
    {
        let leaf = last_segment_str(supers[i].spelling.as_str());
        let chosen = ambiguity_safe_tail_with_denylist(origin, copy_candidates(&supers[i].candidates));
        let ghost before = views(out@);
        let mut k: usize = 0;
        while k < chosen.len()
            invariant
                k <= chosen@.len(),
                leaf@ == last_segment(supers@[i as int].spelling@),
                views(out@) == before + chosen@.take(k as int).map_values(
                    |c: Candidate| (last_segment(supers@[i as int].spelling@), c.location.uri@),
                ),
            decreases chosen.len() - k,
        {
            let ghost prev = views(out@);
            out.push(TypeRef { name: leaf.to_string(), uri: chosen[k].location.uri.clone() });
            assert(chosen@.take(k + 1int) =~= chosen@.take(k as int).push(chosen@[k as int]));
            assert(views(out@) =~= prev.push((leaf@, chosen@[k as int].location.uri@)));
            assert(views(out@) =~= before + chosen@.take(k + 1int).map_values(
                |c: Candidate| (last_segment(supers@[i as int].spelling@), c.location.uri@),
            ));
            k = k + 1;
        }
        assert(chosen@.take(chosen@.len() as int) =~= chosen@);
        i = i + 1;
    }
    SupertypeEdges { class, supers: out }
}

/// Every supertype edge chosen through the ambiguity-safe tail is one of
/// the candidates of its declared supertype; and when that name had two or
/// more candidates, it is not in a denylisted package, and it is one of the
/// calling module's dependencies whenever dependency data exists and names
/// an admissible candidate.
pub proof fn law_chosen_supertypes_respect_the_tie_breaks(
    supers: Seq<SupertypeCandidates>,
    origin: TieBreakOrigin,
    n: int,
    node: Node,
)
    requires
        0 <= n <= supers.len(),
        chosen_supertypes(supers, origin, n).contains(node),
    ensures
        exists|i: int, c: Candidate|
            #![trigger supers[i].candidates@.contains(c)]
            0 <= i < n && supers[i].candidates@.contains(c) && node == (last_segment(supers[i].spelling@), c.location.uri@)
                && (supers[i].candidates@.len() >= 2 ==> !is_denylisted(c)) && (supers[i].candidates@.len() >= 2
                && origin.module_data_known && (exists|y: Candidate|
                supers[i].candidates@.contains(y) && !is_denylisted(y) && y.module_dependency) ==> c.module_dependency),
    decreases n,
{
    let front = chosen_supertypes(supers, origin, n - 1);
    let t = tail_spec(origin, supers[n - 1].candidates@);
    let last = t.map_values(|c: Candidate| (last_segment(supers[n - 1].spelling@), c.location.uri@));
    assert(chosen_supertypes(supers, origin, n) == front + last);
    let j = choose|j: int| 0 <= j < (front + last).len() && (front + last)[j] == node;
    if j < front.len() {
        assert(front[j] == node);
        assert(front.contains(node));
        law_chosen_supertypes_respect_the_tie_breaks(supers, origin, n - 1, node);
        let (i, c) = choose|i: int, c: Candidate|
            #![trigger supers[i].candidates@.contains(c)]
            0 <= i < n - 1 && supers[i].candidates@.contains(c) && node == (last_segment(supers[i].spelling@), c.location.uri@)
                && (supers[i].candidates@.len() >= 2 ==> !is_denylisted(c)) && (supers[i].candidates@.len() >= 2
                && origin.module_data_known && (exists|y: Candidate|
                supers[i].candidates@.contains(y) && !is_denylisted(y) && y.module_dependency) ==> c.module_dependency);
        assert(supers[i].candidates@.contains(c));
    } else {
        let k = j - front.len();
        let c = t[k];
        assert(last[k] == node);
        assert(t.contains(c));
        law_tail_member_facts(origin, supers[n - 1].candidates@, c);
        assert(supers[n - 1].candidates@.contains(c));
    }
}

} // verus!
