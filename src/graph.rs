use vstd::prelude::*;
use crate::dirty::SceneDirtyFlags;
use crate::node::{children, children_of, filter_accepts, Node, NodeFilter, NodeId};
use crate::subscription::{entry_is, has_entry, Callback, Event, Subscription};

verus! {

/// A request to the subscription registry of one node.
#[derive(Clone, Copy, Debug, PartialEq, Eq, Structural)]
pub enum EventMessage {
    HasSubscription { node_id: NodeId, event: Event },
    Subscribe { node_id: NodeId, event: Event, callback: Callback },
    Unsubscribe { node_id: NodeId, event: Event },
}

#[derive(Clone, Copy, Debug, PartialEq, Eq, Structural)]
pub enum EventResponse {
    HasSubscription(bool),
}

/// A node together with the subscriptions it publishes to.
pub struct NodeEntry {
    pub node: Node,
    pub subscription: Subscription,
}

/// The arena of nodes, addressed by id. A removed node leaves an empty slot, so
/// ids are never reused.
pub struct Graph {
    pub slots: Vec<Option<NodeEntry>>,
}

/// How many slots a traversal has not entered yet.
pub open spec fn unvisited(v: Seq<bool>) -> nat
    decreases v.len(),
{
    if v.len() == 0 {
        0
    } else {
        unvisited(v.drop_last()) + if v.last() {
            0nat
        } else {
            1nat
        }
    }
}

proof fn lemma_unvisited_mark(v: Seq<bool>, i: int)
    requires
        0 <= i < v.len(),
        !v[i],
    ensures
        unvisited(v.update(i, true)) + 1 == unvisited(v),
    decreases v.len(),
{
    let w = v.update(i, true);
    if i < v.len() - 1 {
        assert(w.drop_last() == v.drop_last().update(i, true));
        lemma_unvisited_mark(v.drop_last(), i);
    } else {
        assert(w.drop_last() == v.drop_last());
    }
}

proof fn lemma_unvisited_monotone(v: Seq<bool>, w: Seq<bool>)
    requires
        v.len() == w.len(),
        forall|k: int| 0 <= k < v.len() && #[trigger] v[k] ==> w[k],
    ensures
        unvisited(w) <= unvisited(v),
    decreases v.len(),
{
    if v.len() > 0 {
        assert forall|k: int| 0 <= k < v.drop_last().len() && #[trigger] v.drop_last()[k] implies w.drop_last()[k] by {
            assert(v.drop_last()[k] == v[k] && w.drop_last()[k] == w[k]);
        }
        lemma_unvisited_monotone(v.drop_last(), w.drop_last());
    }
}

/// `to` can be reached from `from` by following at most `n` input references
/// between nodes of `g`.
pub open spec fn reaches(g: Graph, from: NodeId, to: NodeId, n: nat) -> bool
    decreases n,
{
    from == to || (n > 0 && g.contains(from) && exists|c: NodeId|
        #![trigger children(&g.node(from)).contains(c)]
        children(&g.node(from)).contains(c) && g.contains(c) && reaches(g, c, to, (n - 1) as nat))
}

pub open spec fn reachable(g: Graph, from: NodeId, to: NodeId) -> bool {
    exists|n: nat| #[trigger] reaches(g, from, to, n)
}

proof fn lemma_reach_step(g: Graph, from: NodeId, c: NodeId, to: NodeId)
    requires
        g.contains(from),
        children(&g.node(from)).contains(c),
        g.contains(c),
        reachable(g, c, to),
    ensures
        reachable(g, from, to),
{
    let n = choose|n: nat| #[trigger] reaches(g, c, to, n);
    assert(reaches(g, from, to, n + 1));
}

proof fn lemma_reaches_extend(g: Graph, a: NodeId, b: NodeId, c: NodeId, n: nat)
    requires
        reaches(g, a, b, n),
        g.contains(b),
        children(&g.node(b)).contains(c),
        g.contains(c),
    ensures
        reaches(g, a, c, n + 1),
    decreases n,
{
    assert(reaches(g, c, c, n));
    if a != b {
        let d = choose|d: NodeId|
            #![trigger children(&g.node(a)).contains(d)]
            children(&g.node(a)).contains(d) && g.contains(d) && reaches(g, d, b, (n - 1) as nat);
        lemma_reaches_extend(g, d, b, c, (n - 1) as nat);
        assert(reaches(g, d, c, n));
    }
}

/// A path to `b` continues through any node `b` reads.
proof fn lemma_reach_extend(g: Graph, a: NodeId, b: NodeId, c: NodeId)
    requires
        reachable(g, a, b),
        g.contains(b),
        children(&g.node(b)).contains(c),
        g.contains(c),
    ensures
        reachable(g, a, c),
{
    let n = choose|n: nat| #[trigger] reaches(g, a, b, n);
    lemma_reaches_extend(g, a, b, c, n);
}

/// From position `from` on, each node of `out` comes after every accepted node it
/// reads, unless that node reads it back (a cycle).
pub open spec fn children_first(g: Graph, filter: NodeFilter, out: Seq<NodeId>, from: int) -> bool {
    forall|k: int, c: NodeId|
        from <= k < out.len() && #[trigger] children(&g.node(out[k])).contains(c) && g.contains(c)
            && filter_accepts(filter, &g.node(c)) ==> (exists|j: int| 0 <= j < k && out[j] == c) || reachable(
            g,
            c,
            out[k],
        )
}

/// Marks closed under input references cover everything reachable from a marked node.
proof fn lemma_closed_covers_reach(
    g: Graph,
    filter: NodeFilter,
    seen: Seq<bool>,
    out: Seq<NodeId>,
    a: NodeId,
    x: NodeId,
    n: nat,
)
    requires
        seen.len() == g.slots@.len(),
        forall|k: int| 0 <= k < g.slots@.len() ==> #[trigger] g.traversal_closed(filter, none_seen(g.slots@.len()), seen, out, k),
        g.contains(a),
        seen[a.0 as int],
        reaches(g, a, x, n),
    ensures
        seen[x.0 as int],
    decreases n,
{
    if a != x {
        let c = choose|c: NodeId|
            #![trigger children(&g.node(a)).contains(c)]
            children(&g.node(a)).contains(c) && g.contains(c) && reaches(g, c, x, (n - 1) as nat);
        assert(g.traversal_closed(filter, none_seen(g.slots@.len()), seen, out, a.0 as int));
        assert(NodeId(a.0 as int as usize) == a);
        assert(seen[c.0 as int]);
        lemma_closed_covers_reach(g, filter, seen, out, c, x, (n - 1) as nat);
    }
}

/// Reachability depends only on which nodes exist and what they read.
pub proof fn lemma_reachable_same_children(g1: Graph, g2: Graph, a: NodeId, b: NodeId)
    requires
        forall|id: NodeId| #[trigger] g1.contains(id) == g2.contains(id),
        forall|id: NodeId| g1.contains(id) ==> #[trigger] children(&g1.node(id)) == children(&g2.node(id)),
    ensures
        reachable(g1, a, b) == reachable(g2, a, b),
{
    if reachable(g1, a, b) {
        let n = choose|n: nat| #[trigger] reaches(g1, a, b, n);
        lemma_reaches_same_children(g1, g2, a, b, n);
        assert(reaches(g2, a, b, n));
    }
    if reachable(g2, a, b) {
        let n = choose|n: nat| #[trigger] reaches(g2, a, b, n);
        lemma_reaches_same_children(g1, g2, a, b, n);
        assert(reaches(g1, a, b, n));
    }
}

proof fn lemma_reaches_same_children(g1: Graph, g2: Graph, a: NodeId, b: NodeId, n: nat)
    requires
        forall|id: NodeId| #[trigger] g1.contains(id) == g2.contains(id),
        forall|id: NodeId| g1.contains(id) ==> #[trigger] children(&g1.node(id)) == children(&g2.node(id)),
    ensures
        reaches(g1, a, b, n) == reaches(g2, a, b, n),
    decreases n,
{
    if n > 0 && g1.contains(a) {
        assert(children(&g1.node(a)) == children(&g2.node(a)));
        assert forall|c: NodeId| #[trigger] children(&g1.node(a)).contains(c) implies reaches(g1, c, b, (n - 1) as nat)
            == reaches(g2, c, b, (n - 1) as nat) by {
            lemma_reaches_same_children(g1, g2, c, b, (n - 1) as nat);
        }
        if reaches(g1, a, b, n) && a != b {
            let c = choose|c: NodeId|
                #![trigger children(&g1.node(a)).contains(c)]
                children(&g1.node(a)).contains(c) && g1.contains(c) && reaches(g1, c, b, (n - 1) as nat);
            assert(children(&g2.node(a)).contains(c));
            assert(g2.contains(c));
        }
        if reaches(g2, a, b, n) && a != b {
            let c = choose|c: NodeId|
                #![trigger children(&g2.node(a)).contains(c)]
                children(&g2.node(a)).contains(c) && g2.contains(c) && reaches(g2, c, b, (n - 1) as nat);
            assert(children(&g1.node(a)).contains(c));
            assert(g1.contains(c));
        }
    }
}

/// A traversal's marks before it starts.
pub open spec fn none_seen(n: nat) -> Seq<bool> {
    Seq::new(n, |i: int| false)
}

/// Every subscriber that a notification of `event` from `publisher` reached in
/// `before`: a scene node ends fully dirty, any other node has lost its subscription.
pub open spec fn notified_all(before: Graph, after: Graph, publisher: NodeId, event: Event) -> bool {
    forall|k: int|
        0 <= k < crate::subscription::notified(before.entry(publisher).subscription@, event).len() ==> {
            let s = (#[trigger] crate::subscription::notified(before.entry(publisher).subscription@, event)[k]).0;
            &&& before.contains(s) && before.node(s) is Scene ==> after.node(s) is Scene && after.node(
                s,
            )->Scene_0.dirty.is_all()
            &&& !(before.contains(s) && before.node(s) is Scene) ==> !has_entry(
                after.entry(publisher).subscription@,
                s,
                event,
            )
        }
}

/// Notification facts carry over to an earlier graph that differs only in ways
/// that keep the publisher's subscriptions and which nodes are scene nodes.
pub proof fn lemma_notified_from_earlier(g0: Graph, g1: Graph, g2: Graph, publisher: NodeId, event: Event)
    requires
        notified_all(g1, g2, publisher, event),
        g0.entry(publisher).subscription == g1.entry(publisher).subscription,
        forall|id: NodeId| #[trigger] g0.contains(id) == g1.contains(id),
        forall|id: NodeId| g0.contains(id) ==> ((#[trigger] g0.node(id) is Scene) <==> g1.node(id) is Scene),
    ensures
        notified_all(g0, g2, publisher, event),
{
    assert forall|k: int|
        0 <= k < crate::subscription::notified(g0.entry(publisher).subscription@, event).len() implies {
        let s = (#[trigger] crate::subscription::notified(g0.entry(publisher).subscription@, event)[k]).0;
        &&& g0.contains(s) && g0.node(s) is Scene ==> g2.node(s) is Scene && g2.node(s)->Scene_0.dirty.is_all()
        &&& !(g0.contains(s) && g0.node(s) is Scene) ==> !has_entry(g2.entry(publisher).subscription@, s, event)
    } by {
        let s = crate::subscription::notified(g1.entry(publisher).subscription@, event)[k].0;
        assert(g0.contains(s) == g1.contains(s));
        if g0.contains(s) {
            assert(g0.node(s) is Scene <==> g1.node(s) is Scene);
        }
    }
}

/// `after` is `before` with its dirty flags set, when it is a scene node.
pub open spec fn same_but_dirty(before: Node, after: Node) -> bool {
    after == before || (before is Scene && after is Scene && after->Scene_0.data == before->Scene_0.data
        && after->Scene_0.inner_scene == before->Scene_0.inner_scene && after->Scene_0.tracked_nodes
        == before->Scene_0.tracked_nodes && after->Scene_0.dirty.is_all())
}

impl Graph {
    pub open spec fn contains(&self, id: NodeId) -> bool {
        id.0 < self.slots@.len() && self.slots@[id.0 as int] is Some
    }

    pub open spec fn entry(&self, id: NodeId) -> NodeEntry {
        self.slots@[id.0 as int]->Some_0
    }

    pub open spec fn node(&self, id: NodeId) -> Node {
        self.entry(id).node
    }

    pub open spec fn wf(&self) -> bool {
        forall|i: int|
            0 <= i < self.slots@.len() && (#[trigger] self.slots@[i]) is Some
                ==> self.slots@[i]->Some_0.subscription.wf()
    }

    pub fn new() -> (r: Self)
        ensures
            r.wf(),
            r.slots@.len() == 0,
    {
        Graph { slots: Vec::new() }
    }

    pub fn len(&self) -> (r: usize)
        ensures
            r == self.slots@.len(),
    {
        self.slots.len()
    }

    pub fn contains_node(&self, id: NodeId) -> (r: bool)
        ensures
            r == self.contains(id),
    {
        id.0 < self.slots.len() && self.slots[id.0].is_some()
    }

    /// Adds a node with no subscriptions under a fresh id.
    pub fn insert_node(&mut self, node: Node) -> (r: NodeId)
        requires
            old(self).wf(),
        ensures
            final(self).wf(),
            r.0 == old(self).slots@.len(),
            final(self).contains(r),
            final(self).node(r) == node,
            final(self).entry(r).subscription@.len() == 0,
            final(self).slots@ == old(self).slots@.push(final(self).slots@[r.0 as int]),
    {
        let id = NodeId(self.slots.len());
        self.slots.push(Some(NodeEntry { node, subscription: Subscription::new() }));
        id
    }

    /// Empties the slot of `id`; the caller severs its connections first.
    pub fn remove_node(&mut self, id: NodeId)
        requires
            old(self).wf(),
        ensures
            final(self).wf(),
            !final(self).contains(id),
            forall|other: NodeId|
                other != id ==> final(self).contains(other) == old(self).contains(other),
            forall|other: NodeId|
                #![trigger final(self).entry(other)]
                other != id && old(self).contains(other) ==> final(self).entry(other) == old(self).entry(other),
    {
        if id.0 < self.slots.len() {
            self.slots.set(id.0, None);
        }
    }

    pub fn get_node(&self, id: NodeId) -> (r: Option<&Node>)
        ensures
            r is Some <==> self.contains(id),
            r is Some ==> *r->Some_0 == self.node(id),
    {
        if id.0 < self.slots.len() {
            match &self.slots[id.0] {
                Some(e) => Some(&e.node),
                None => None,
            }
        } else {
            None
        }
    }

    /// Every node newly entered by a traversal was kept if the filter accepts it,
    /// and every node it reads from has been entered too.
    pub open spec fn traversal_closed(
        &self,
        filter: NodeFilter,
        before: Seq<bool>,
        after: Seq<bool>,
        out: Seq<NodeId>,
        k: int,
    ) -> bool {
        !before[k] && after[k] ==> {
            &&& self.contains(NodeId(k as usize))
            &&& filter_accepts(filter, &self.node(NodeId(k as usize))) ==> out.contains(NodeId(k as usize))
            &&& forall|c: NodeId|
                #![trigger children(&self.node(NodeId(k as usize))).contains(c)]
                children(&self.node(NodeId(k as usize))).contains(c) && self.contains(c) ==> after[c.0 as int]
        }
    }

    /// Depth-first, children before the node itself; a node already entered is not
    /// entered again, so shared and cyclic references are harmless.
    fn collect_from(
        &self,
        id: NodeId,
        filter: NodeFilter,
        visited: &mut Vec<bool>,
        out: &mut Vec<NodeId>,
    )
        requires
            old(visited)@.len() == self.slots@.len(),
            old(out)@.no_duplicates(),
            forall|k: int|
                0 <= k < old(out)@.len() ==> self.contains(#[trigger] old(out)@[k]) && old(visited)@[old(out)@[k].0 as int],
            self.contains(id) ==> forall|v: NodeId|
                self.contains(v) && old(visited)@[v.0 as int] && filter_accepts(filter, &self.node(v)) && !old(out)@.contains(v) ==> #[trigger] reachable(*self, v, id),
        ensures
            children_first(*self, filter, final(out)@, old(out)@.len() as int),
            self.contains(id) && !old(visited)@[id.0 as int] && filter_accepts(filter, &self.node(id)) ==> final(out)@.len() > old(out)@.len() && final(out)@.last() == id,
            final(visited)@.len() == self.slots@.len(),
            forall|k: int| 0 <= k < old(visited)@.len() && #[trigger] old(visited)@[k] ==> final(visited)@[k],
            final(out)@.no_duplicates(),
            final(out)@.len() >= old(out)@.len(),
            final(out)@.take(old(out)@.len() as int) == old(out)@,
            forall|k: int|
                old(out)@.len() <= k < final(out)@.len() ==> {
                    let e = #[trigger] final(out)@[k];
                    &&& self.contains(e)
                    &&& filter_accepts(filter, &self.node(e))
                    &&& !old(visited)@[e.0 as int]
                },
            forall|k: int|
                0 <= k < final(out)@.len() ==> self.contains(#[trigger] final(out)@[k]) && final(visited)@[final(out)@[k].0 as int],
            self.contains(id) ==> final(visited)@[id.0 as int],
            !self.contains(id) ==> final(out)@ == old(out)@,
            forall|k: int|
                old(out)@.len() <= k < final(out)@.len() ==> reachable(*self, id, #[trigger] final(out)@[k]),
            forall|k: int|
                0 <= k < self.slots@.len() ==> #[trigger] self.traversal_closed(
                    filter,
                    old(visited)@,
                    final(visited)@,
                    final(out)@,
                    k,
                ),
        decreases unvisited(old(visited)@),
    {
        if !self.contains_node(id) || visited[id.0] {
            assert(final(out)@.take(old(out)@.len() as int) =~= old(out)@);
            return;
        }
        let ghost v0 = visited@;
        visited.set(id.0, true);
        proof {
            lemma_unvisited_mark(v0, id.0 as int);
        }
        let ghost v1 = visited@;
        let ghost out0 = out@;
        let kids = children_of(self.node_ref(id));
        let mut j: usize = 0;
        while j < kids.len()
            invariant
                0 <= j <= kids@.len(),
                kids@ == children(&self.node(id)),
                self.contains(id),
                v0 == old(visited)@,
                v0.len() == self.slots@.len(),
                out0 == old(out)@,
                visited@.len() == self.slots@.len(),
                v1 == v0.update(id.0 as int, true),
                visited@[id.0 as int],
                !v0[id.0 as int],
                unvisited(visited@) < unvisited(v0),
                forall|k: int| 0 <= k < v1.len() && #[trigger] v1[k] ==> visited@[k],
                out@.no_duplicates(),
                !out@.contains(id),
                out@.len() >= out0.len(),
                out@.take(out0.len() as int) == out0,
                forall|k: int|
                    out0.len() <= k < out@.len() ==> {
                        let e = #[trigger] out@[k];
                        &&& self.contains(e)
                        &&& filter_accepts(filter, &self.node(e))
                        &&& !v0[e.0 as int]
                    },
                forall|k: int|
                    0 <= k < out@.len() ==> self.contains(#[trigger] out@[k]) && visited@[out@[k].0 as int],
                forall|k: int|
                    0 <= k < self.slots@.len() && k != id.0 ==> #[trigger] self.traversal_closed(
                        filter,
                        v0,
                        visited@,
                        out@,
                        k,
                    ),
                forall|i: int|
                    0 <= i < j && self.contains(#[trigger] kids@[i]) ==> visited@[kids@[i].0 as int],
                forall|k: int| out0.len() <= k < out@.len() ==> reachable(*self, id, #[trigger] out@[k]),
                forall|v: NodeId|
                    self.contains(v) && v0[v.0 as int] && filter_accepts(filter, &self.node(v)) && !out0.contains(v)
                        ==> #[trigger] reachable(*self, v, id),
                children_first(*self, filter, out@, out0.len() as int),
            decreases kids@.len() - j,
        {
            let ghost vb = visited@;
            let ghost ob = out@;
            let c = kids[j];
            proof {
                lemma_unvisited_monotone(v1, vb);
                if self.contains(c) {
                    assert(children(&self.node(id)).contains(c)) by {
                        assert(kids@[j as int] == c);
                    }
                    assert forall|v: NodeId|
                        self.contains(v) && vb[v.0 as int] && filter_accepts(filter, &self.node(v)) && !ob.contains(v)
                            implies #[trigger] reachable(*self, v, c) by {
                        if v == id {
                            assert(reaches(*self, c, c, 0));
                            assert(reaches(*self, id, c, 1));
                        } else if v0[v.0 as int] {
                            assert(!out0.contains(v)) by {
                                if out0.contains(v) {
                                    let m = choose|m: int| 0 <= m < out0.len() && out0[m] == v;
                                    assert(ob.take(out0.len() as int)[m] == ob[m]);
                                }
                            }
                            assert(reachable(*self, v, id));
                            lemma_reach_extend(*self, v, id, c);
                        } else {
                            assert(v.0 != id.0);
                            assert(self.traversal_closed(filter, v0, vb, ob, v.0 as int));
                            assert(NodeId(v.0 as int as usize) == v);
                        }
                    }
                }
            }
            self.collect_from(c, filter, visited, out);
            proof {
                let va = visited@;
                let oa = out@;
                lemma_unvisited_monotone(vb, va);
                assert forall|k: int, cc: NodeId|
                    out0.len() <= k < oa.len() && #[trigger] children(&self.node(oa[k])).contains(cc) && self.contains(cc)
                        && filter_accepts(filter, &self.node(cc)) implies (exists|jj: int| 0 <= jj < k && oa[jj] == cc)
                        || reachable(*self, cc, oa[k]) by {
                    if k < ob.len() {
                        assert(oa.take(ob.len() as int)[k] == oa[k]);
                        assert(oa[k] == ob[k]);
                        if exists|jj: int| 0 <= jj < k && ob[jj] == cc {
                            let jj = choose|jj: int| 0 <= jj < k && ob[jj] == cc;
                            assert(oa.take(ob.len() as int)[jj] == oa[jj]);
                        }
                    }
                }
                assert forall|k: int| 0 <= k < v1.len() && #[trigger] v1[k] implies va[k] by {
                    assert(vb[k]);
                }
                assert forall|k: int| 0 <= k < ob.len() implies oa[k] == #[trigger] ob[k] by {
                    assert(oa.take(ob.len() as int)[k] == oa[k]);
                }
                assert(oa.take(out0.len() as int) =~= out0) by {
                    assert forall|k: int| 0 <= k < out0.len() implies oa[k] == out0[k] by {
                        assert(ob.take(out0.len() as int)[k] == ob[k]);
                        assert(oa[k] == ob[k]);
                    }
                }
                assert forall|k: int| out0.len() <= k < oa.len() implies {
                    let e = #[trigger] oa[k];
                    &&& self.contains(e)
                    &&& filter_accepts(filter, &self.node(e))
                    &&& !v0[e.0 as int]
                } by {
                    if k < ob.len() {
                        assert(oa[k] == ob[k]);
                    } else {
                        assert(!vb[oa[k].0 as int]);
                        if v0[oa[k].0 as int] {
                            assert(v1[oa[k].0 as int]);
                        }
                    }
                }
                assert(!oa.contains(id)) by {
                    if oa.contains(id) {
                        let k = choose|k: int| 0 <= k < oa.len() && oa[k] == id;
                        if k < ob.len() {
                            assert(oa[k] == ob[k]);
                        } else {
                            assert(!vb[id.0 as int]);
                        }
                    }
                }
                assert forall|k: int|
                    0 <= k < self.slots@.len() && k != id.0 implies #[trigger] self.traversal_closed(
                        filter,
                        v0,
                        va,
                        oa,
                        k,
                    ) by {
                    if !v0[k] && va[k] {
                        if vb[k] {
                            assert(self.traversal_closed(filter, v0, vb, ob, k));
                            if filter_accepts(filter, &self.node(NodeId(k as usize))) {
                                let m = choose|m: int| 0 <= m < ob.len() && ob[m] == NodeId(k as usize);
                                assert(oa[m] == ob[m]);
                            }
                            assert forall|c: NodeId|
                                #![trigger children(&self.node(NodeId(k as usize))).contains(c)]
                                children(&self.node(NodeId(k as usize))).contains(c) && self.contains(c)
                                implies va[c.0 as int] by {
                                assert(vb[c.0 as int]);
                            }
                        } else {
                            assert(self.traversal_closed(filter, vb, va, oa, k));
                        }
                    }
                }
                assert forall|i: int|
                    0 <= i < j + 1 && self.contains(#[trigger] kids@[i]) implies va[kids@[i].0 as int] by {
                    if i < j {
                        assert(vb[kids@[i].0 as int]);
                    }
                }
                assert forall|k: int| out0.len() <= k < oa.len() implies reachable(*self, id, #[trigger] oa[k]) by {
                    if k < ob.len() {
                        assert(oa[k] == ob[k]);
                    } else {
                        assert(self.contains(c));
                        assert(kids@[j as int] == c);
                        assert(children(&self.node(id)).contains(c));
                        lemma_reach_step(*self, id, c, oa[k]);
                    }
                }
            }
            j += 1;
        }
        let ghost vf = visited@;
        let ghost ob = out@;
        if filter.accepts(self.node_ref(id)) {
            out.push(id);
        }
        proof {
            let oa = out@;
            assert forall|k: int| 0 <= k < ob.len() implies oa[k] == #[trigger] ob[k] by {}
            assert forall|k: int, cc: NodeId|
                out0.len() <= k < oa.len() && #[trigger] children(&self.node(oa[k])).contains(cc) && self.contains(cc)
                    && filter_accepts(filter, &self.node(cc)) implies (exists|jj: int| 0 <= jj < k && oa[jj] == cc)
                    || reachable(*self, cc, oa[k]) by {
                if k < ob.len() {
                    assert(oa[k] == ob[k]);
                    if exists|jj: int| 0 <= jj < k && ob[jj] == cc {
                        let jj = choose|jj: int| 0 <= jj < k && ob[jj] == cc;
                        assert(oa[jj] == ob[jj]);
                    }
                } else {
                    assert(oa[k] == id);
                    let i = choose|i: int| 0 <= i < kids@.len() && kids@[i] == cc;
                    assert(vf[cc.0 as int]);
                    if cc == id {
                        assert(reaches(*self, id, id, 0));
                    } else if ob.contains(cc) {
                        let jj = choose|jj: int| 0 <= jj < ob.len() && ob[jj] == cc;
                        assert(oa[jj] == cc);
                    } else if v0[cc.0 as int] {
                        assert(!out0.contains(cc)) by {
                            if out0.contains(cc) {
                                let m = choose|m: int| 0 <= m < out0.len() && out0[m] == cc;
                                assert(ob.take(out0.len() as int)[m] == ob[m]);
                            }
                        }
                        assert(reachable(*self, cc, id));
                    } else {
                        assert(cc.0 != id.0);
                        assert(self.traversal_closed(filter, v0, vf, ob, cc.0 as int));
                        assert(NodeId(cc.0 as int as usize) == cc);
                    }
                }
            }
            assert(oa.take(out0.len() as int) =~= out0) by {
                assert forall|k: int| 0 <= k < out0.len() implies oa[k] == out0[k] by {
                    assert(ob.take(out0.len() as int)[k] == ob[k]);
                }
            }
            assert forall|k: int| 0 <= k < v0.len() && #[trigger] v0[k] implies vf[k] by {
                assert(v1[k]);
            }
            assert forall|k: int| out0.len() <= k < oa.len() implies reachable(*self, id, #[trigger] oa[k]) by {
                if k < ob.len() {
                    assert(oa[k] == ob[k]);
                } else {
                    assert(oa[k] == id);
                    assert(reaches(*self, id, id, 0));
                }
            }
            assert forall|k: int|
                0 <= k < self.slots@.len() implies #[trigger] self.traversal_closed(filter, v0, vf, oa, k) by {
                if k == id.0 {
                    assert(NodeId(k as usize) == id);
                    if filter_accepts(filter, &self.node(id)) {
                        assert(oa[oa.len() - 1] == id);
                    }
                    assert forall|c: NodeId|
                        #![trigger children(&self.node(NodeId(k as usize))).contains(c)]
                        children(&self.node(NodeId(k as usize))).contains(c) && self.contains(c)
                        implies vf[c.0 as int] by {
                        let i = choose|i: int| 0 <= i < kids@.len() && kids@[i] == c;
                    }
                } else if !v0[k] && vf[k] {
                    assert(self.traversal_closed(filter, v0, vf, ob, k));
                    if filter_accepts(filter, &self.node(NodeId(k as usize))) {
                        let m = choose|m: int| 0 <= m < ob.len() && ob[m] == NodeId(k as usize);
                        assert(oa[m] == ob[m]);
                    }
                }
            }
        }
    }

    /// The nodes that `root` reads from, directly or through others, that `filter`
    /// accepts: each once, in depth-first order, each node after the accepted nodes
    /// it reads (unless they read it back), `root` itself last if it is accepted.
    pub fn collect(&self, root: Option<NodeId>, filter: NodeFilter) -> (r: Vec<NodeId>)
        ensures
            r@.no_duplicates(),
            forall|k: int|
                0 <= k < r@.len() ==> self.contains(#[trigger] r@[k]) && filter_accepts(
                    filter,
                    &self.node(r@[k]),
                ),
            root is Some && self.contains(root->Some_0) && filter_accepts(filter, &self.node(root->Some_0))
                ==> r@.contains(root->Some_0),
            root is None ==> r@.len() == 0,
            children_first(*self, filter, r@, 0),
            root is Some && self.contains(root->Some_0) && filter_accepts(filter, &self.node(root->Some_0))
                ==> r@.len() > 0 && r@.last() == root->Some_0,
            root is Some ==> forall|k: int| 0 <= k < r@.len() ==> reachable(*self, root->Some_0, #[trigger] r@[k]),
            root is Some && self.contains(root->Some_0) ==> forall|x: NodeId|
                self.contains(x) && #[trigger] reachable(*self, root->Some_0, x) && filter_accepts(filter, &self.node(x))
                    ==> r@.contains(x),
    {
        let mut visited: Vec<bool> = Vec::new();
        let mut i: usize = 0;
        while i < self.slots.len()
            invariant
                0 <= i <= self.slots@.len(),
                visited@ == none_seen(i as nat),
            decreases self.slots@.len() - i,
        {
            visited.push(false);
            i += 1;
            assert(visited@ =~= none_seen(i as nat));
        }
        let mut out: Vec<NodeId> = Vec::new();
        match root {
            Some(id) => {
                proof {
                    assert(visited@ == none_seen(self.slots@.len()));
                }
                self.collect_from(id, filter, &mut visited, &mut out);
                proof {
                    if self.contains(id) {
                        assert forall|x: NodeId|
                            self.contains(x) && #[trigger] reachable(*self, id, x) && filter_accepts(
                                filter,
                                &self.node(x),
                            ) implies out@.contains(x) by {
                            let n = choose|n: nat| #[trigger] reaches(*self, id, x, n);
                            assert(visited@ =~= visited@);
                            lemma_closed_covers_reach(*self, filter, visited@, out@, id, x, n);
                            assert(self.traversal_closed(
                                filter,
                                none_seen(self.slots@.len()),
                                visited@,
                                out@,
                                x.0 as int,
                            ));
                            assert(NodeId(x.0 as int as usize) == x);
                        }
                    }
                    if self.contains(id) && filter_accepts(filter, &self.node(id)) {
                        assert(self.traversal_closed(
                            filter,
                            none_seen(self.slots@.len()),
                            visited@,
                            out@,
                            id.0 as int,
                        ));
                        assert(NodeId(id.0) == id);
                    }
                }
            },
            None => {},
        }
        out
    }

    /// Mutable access to one slot's entry; every other slot stays as it is.
    pub fn entry_mut(&mut self, id: NodeId) -> (r: &mut NodeEntry)
        requires
            old(self).contains(id),
        ensures
            *r == old(self).entry(id),
            final(self).slots@ == old(self).slots@.update(id.0 as int, Some(*final(r))),
    {
        match &mut self.slots[id.0] {
            Some(e) => e,
            None => unreached(),
        }
    }

    pub fn has_subscription(&self, publisher: NodeId, subscriber: NodeId, event: Event) -> (r: bool)
        requires
            self.contains(publisher),
        ensures
            r == has_entry(self.entry(publisher).subscription@, subscriber, event),
    {
        match &self.slots[publisher.0] {
            Some(e) => e.subscription.has_subscription(subscriber, event),
            None => unreached(),
        }
    }

    /// Serves one registry request addressed to `target`.
    pub fn handle_event(&mut self, target: NodeId, msg: EventMessage) -> (r: Option<EventResponse>)
        requires
            old(self).wf(),
            old(self).contains(target),
        ensures
            final(self).wf(),
            forall|id: NodeId| #[trigger] final(self).contains(id) == old(self).contains(id),
            forall|id: NodeId|
                #![trigger final(self).node(id)]
                old(self).contains(id) ==> final(self).node(id) == old(self).node(id),
            match msg {
                EventMessage::HasSubscription { node_id, event } => r == Some(
                    EventResponse::HasSubscription(has_entry(old(self).entry(target).subscription@, node_id, event)),
                ) && final(self).slots@ == old(self).slots@,
                EventMessage::Subscribe { node_id, event, callback } => r is None
                    && final(self).entry(target).subscription@ == crate::subscription::subscribed(
                    old(self).entry(target).subscription@,
                    node_id,
                    event,
                    callback,
                ),
                EventMessage::Unsubscribe { node_id, event } => r is None && !has_entry(
                    final(self).entry(target).subscription@,
                    node_id,
                    event,
                ) && (!has_entry(old(self).entry(target).subscription@, node_id, event) ==> final(self).entry(
                    target,
                ).subscription@ == old(self).entry(target).subscription@) && (has_entry(
                    old(self).entry(target).subscription@,
                    node_id,
                    event,
                ) ==> exists|k: int|
                    0 <= k < old(self).entry(target).subscription@.len() && entry_is(
                        #[trigger] old(self).entry(target).subscription@[k],
                        node_id,
                        event,
                    ) && final(self).entry(target).subscription@ == old(self).entry(target).subscription@.remove(k)),
            },
    {
        match msg {
            EventMessage::HasSubscription { node_id, event } => Some(
                EventResponse::HasSubscription(self.has_subscription(target, node_id, event)),
            ),
            EventMessage::Subscribe { node_id, event, callback } => {
                self.subscribe(target, node_id, event, callback);
                None
            },
            EventMessage::Unsubscribe { node_id, event } => {
                self.unsubscribe(target, node_id, event);
                None
            },
        }
    }

    /// Subscribes `subscriber` to `event` of `publisher`, once.
    pub fn subscribe(&mut self, publisher: NodeId, subscriber: NodeId, event: Event, callback: Callback)
        requires
            old(self).wf(),
            old(self).contains(publisher),
        ensures
            final(self).wf(),
            final(self).slots@.len() == old(self).slots@.len(),
            forall|id: NodeId| #[trigger] final(self).contains(id) == old(self).contains(id),
            forall|id: NodeId|
                #![trigger final(self).node(id)]
                old(self).contains(id) ==> final(self).node(id) == old(self).node(id),
            forall|id: NodeId|
                #![trigger final(self).entry(id)]
                old(self).contains(id) && id != publisher ==> final(self).entry(id) == old(self).entry(id),
            final(self).entry(publisher).subscription@ == crate::subscription::subscribed(
                old(self).entry(publisher).subscription@,
                subscriber,
                event,
                callback,
            ),
    {
        let ghost g0 = *self;
        let e = self.entry_mut(publisher);
        e.subscription.subscribe(subscriber, event, callback);
        proof {
            assert forall|i: int|
                0 <= i < self.slots@.len() && (#[trigger] self.slots@[i]) is Some implies self.slots@[
                    i
                ]->Some_0.subscription.wf() by {
                if i != publisher.0 {
                    assert(self.slots@[i] == g0.slots@[i]);
                }
            }
        }
    }

    /// Drops the subscription of `subscriber` to `event` of `publisher`, if any.
    pub fn unsubscribe(&mut self, publisher: NodeId, subscriber: NodeId, event: Event)
        requires
            old(self).wf(),
            old(self).contains(publisher),
        ensures
            final(self).wf(),
            final(self).slots@.len() == old(self).slots@.len(),
            forall|id: NodeId| #[trigger] final(self).contains(id) == old(self).contains(id),
            forall|id: NodeId|
                #![trigger final(self).node(id)]
                old(self).contains(id) ==> final(self).node(id) == old(self).node(id),
            forall|id: NodeId|
                #![trigger final(self).entry(id)]
                old(self).contains(id) && id != publisher ==> final(self).entry(id) == old(self).entry(id),
            !has_entry(final(self).entry(publisher).subscription@, subscriber, event),
            forall|s2: NodeId, e2: Event|
                !has_entry(old(self).entry(publisher).subscription@, s2, e2) ==> !has_entry(
                    #[trigger] final(self).entry(publisher).subscription@,
                    s2,
                    e2,
                ),
            !has_entry(old(self).entry(publisher).subscription@, subscriber, event) ==> final(self).entry(
                publisher,
            ).subscription@ == old(self).entry(publisher).subscription@,
            has_entry(old(self).entry(publisher).subscription@, subscriber, event) ==> exists|k: int|
                0 <= k < old(self).entry(publisher).subscription@.len() && entry_is(
                    #[trigger] old(self).entry(publisher).subscription@[k],
                    subscriber,
                    event,
                ) && final(self).entry(publisher).subscription@ == old(self).entry(publisher).subscription@.remove(k),
    {
        let ghost g0 = *self;
        let e = self.entry_mut(publisher);
        e.subscription.unsubscribe(subscriber, event);
        proof {
            let before = g0.entry(publisher).subscription@;
            assert forall|s2: NodeId, e2: Event| !has_entry(before, s2, e2) implies !has_entry(
                #[trigger] self.entry(publisher).subscription@,
                s2,
                e2,
            ) by {
                if has_entry(before, subscriber, event) {
                    let k = choose|k: int|
                        0 <= k < before.len() && entry_is(#[trigger] before[k], subscriber, event)
                            && self.entry(publisher).subscription@ == before.remove(k);
                    Subscription::lemma_remove_keeps_absent(before, k, s2, e2);
                }
            }
            assert forall|i: int|
                0 <= i < self.slots@.len() && (#[trigger] self.slots@[i]) is Some implies self.slots@[
                    i
                ]->Some_0.subscription.wf() by {
                if i != publisher.0 {
                    assert(self.slots@[i] == g0.slots@[i]);
                }
            }
        }
    }

    /// Sets the dirty flags of a scene node; other nodes are left alone.
    pub fn mark_scene_dirty(&mut self, id: NodeId, flags: SceneDirtyFlags) -> (r: bool)
        requires
            old(self).wf(),
        ensures
            final(self).wf(),
            r == (old(self).contains(id) && old(self).node(id) is Scene),
            final(self).slots@.len() == old(self).slots@.len(),
            forall|other: NodeId| #[trigger] final(self).contains(other) == old(self).contains(other),
            forall|other: NodeId|
                #![trigger final(self).entry(other)]
                old(self).contains(other) && other != id ==> final(self).entry(other) == old(self).entry(other),
            r ==> final(self).node(id) is Scene,
            r ==> final(self).node(id)->Scene_0.dirty == flags,
            r ==> final(self).node(id)->Scene_0.data == old(self).node(id)->Scene_0.data,
            r ==> final(self).node(id)->Scene_0.inner_scene == old(self).node(id)->Scene_0.inner_scene,
            r ==> final(self).node(id)->Scene_0.tracked_nodes == old(self).node(id)->Scene_0.tracked_nodes,
            r ==> final(self).entry(id).subscription == old(self).entry(id).subscription,
            !r ==> final(self).slots@ == old(self).slots@,
    {
        if !self.contains_node(id) {
            return false;
        }
        let ghost g0 = *self;
        let e = self.entry_mut(id);
        let r = match &mut e.node {
            Node::Scene(s) => {
                s.dirty = flags;
                true
            },
            _ => false,
        };
        proof {
            assert forall|i: int|
                0 <= i < self.slots@.len() && (#[trigger] self.slots@[i]) is Some implies self.slots@[
                    i
                ]->Some_0.subscription.wf() by {
                if i != id.0 {
                    assert(self.slots@[i] == g0.slots@[i]);
                }
            }
            if !r {
                assert(self.slots@ =~= g0.slots@);
            }
        }
        r
    }

    /// Delivers `event` of `publisher` to its subscribers, in order of subscription
    /// (their effect is stated by `notified_all`):
    /// a scene node is marked fully dirty; a subscriber that is no longer a scene
    /// node loses its subscription.
    pub fn notify(&mut self, publisher: NodeId, event: Event)
        requires
            old(self).wf(),
            old(self).contains(publisher),
        ensures
            final(self).wf(),
            final(self).slots@.len() == old(self).slots@.len(),
            forall|id: NodeId| #[trigger] final(self).contains(id) == old(self).contains(id),
            forall|k: int|
                0 <= k < crate::subscription::notified(old(self).entry(publisher).subscription@, event).len()
                    ==> {
                    let s = (#[trigger] crate::subscription::notified(
                        old(self).entry(publisher).subscription@,
                        event,
                    )[k]).0;
                    old(self).contains(s) && old(self).node(s) is Scene ==> final(self).node(s) is Scene
                        && final(self).node(s)->Scene_0.dirty.is_all()
                },
            forall|id: NodeId|
                #![trigger final(self).node(id)]
                old(self).contains(id) ==> same_but_dirty(old(self).node(id), final(self).node(id)),
            notified_all(*old(self), *final(self), publisher, event),
            forall|k: int|
                0 <= k < crate::subscription::notified(old(self).entry(publisher).subscription@, event).len()
                    ==> {
                    let s = (#[trigger] crate::subscription::notified(
                        old(self).entry(publisher).subscription@,
                        event,
                    )[k]).0;
                    !(old(self).contains(s) && old(self).node(s) is Scene) ==> !has_entry(
                        final(self).entry(publisher).subscription@,
                        s,
                        event,
                    )
                },
    {
        let targets = match &self.slots[publisher.0] {
            Some(e) => e.subscription.notify(event),
            None => unreached(),
        };
        let ghost g0 = *self;
        let mut i: usize = 0;
        while i < targets.len()
            invariant
                0 <= i <= targets@.len(),
                targets@ == crate::subscription::notified(g0.entry(publisher).subscription@, event),
                self.wf(),
                self.contains(publisher),
                self.slots@.len() == g0.slots@.len(),
                forall|id: NodeId| #[trigger] self.contains(id) == g0.contains(id),
                forall|id: NodeId|
                    #![trigger self.node(id)]
                    g0.contains(id) && g0.node(id) is Scene ==> self.node(id) is Scene,
                forall|id: NodeId|
                    #![trigger self.node(id)]
                    g0.contains(id) ==> same_but_dirty(g0.node(id), self.node(id)),
                forall|k: int|
                    0 <= k < i ==> {
                        let s = (#[trigger] targets@[k]).0;
                        !(g0.contains(s) && g0.node(s) is Scene) ==> !has_entry(
                            self.entry(publisher).subscription@,
                            s,
                            event,
                        )
                    },
                forall|k: int|
                    0 <= k < i ==> {
                        let s = (#[trigger] targets@[k]).0;
                        g0.contains(s) && g0.node(s) is Scene ==> self.node(s)->Scene_0.dirty.is_all()
                    },
            decreases targets@.len() - i,
        {
            let (subscriber, callback) = targets[i];
            let ghost gb = *self;
            match callback {
                Callback::MarkSceneDirty => {
                    let marked = self.mark_scene_dirty(subscriber, SceneDirtyFlags::all());
                    if !marked {
                        self.unsubscribe(publisher, subscriber, event);
                    }
                    proof {
                        assert forall|id: NodeId|
                            #![trigger self.node(id)]
                            g0.contains(id) && g0.node(id) is Scene implies self.node(id) is Scene by {
                            assert(gb.node(id) is Scene);
                            if marked {
                                if id != subscriber {
                                    assert(self.entry(id) == gb.entry(id));
                                }
                            } else {
                                assert(gb.contains(id));
                            }
                        }
                        assert forall|id: NodeId|
                            #![trigger self.node(id)]
                            g0.contains(id) implies same_but_dirty(g0.node(id), self.node(id)) by {
                            assert(same_but_dirty(g0.node(id), gb.node(id)));
                            if marked {
                                if id != subscriber {
                                    assert(self.entry(id) == gb.entry(id));
                                }
                            } else {
                                assert(gb.contains(id));
                            }
                        }
                        assert forall|k: int|
                            0 <= k < i + 1 implies {
                                let s = (#[trigger] targets@[k]).0;
                                !(g0.contains(s) && g0.node(s) is Scene) ==> !has_entry(
                                    self.entry(publisher).subscription@,
                                    s,
                                    event,
                                )
                            } by {
                            let s = targets@[k].0;
                            if !(g0.contains(s) && g0.node(s) is Scene) {
                                if k == i {
                                    assert(s == subscriber);
                                    if marked {
                                        assert(gb.node(s) is Scene);
                                        assert(same_but_dirty(g0.node(s), gb.node(s)));
                                    }
                                } else if marked {
                                    assert(self.entry(publisher).subscription == gb.entry(publisher).subscription);
                                }
                            }
                        }
                        assert forall|k: int|
                            0 <= k < i + 1 implies {
                                let s = (#[trigger] targets@[k]).0;
                                g0.contains(s) && g0.node(s) is Scene ==> self.node(s)->Scene_0.dirty.is_all()
                            } by {
                            let s = targets@[k].0;
                            if g0.contains(s) && g0.node(s) is Scene {
                                assert(gb.node(s) is Scene);
                                if s == subscriber {
                                    assert(marked);
                                } else if marked {
                                    assert(self.entry(s) == gb.entry(s));
                                } else {
                                    assert(self.node(s) == gb.node(s));
                                }
                            }
                        }
                    }
                },
            }
            i += 1;
        }
    }

    pub fn node_ref(&self, id: NodeId) -> (r: &Node)
        requires
            self.contains(id),
        ensures
            *r == self.node(id),
    {
        match &self.slots[id.0] {
            Some(e) => &e.node,
            None => unreached(),
        }
    }
}

} // verus!
