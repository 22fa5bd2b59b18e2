//! The wait-for graph: which threads wait for which other threads.
//!
//! An edge `A -> B` means that thread `A` waits for a resource held by
//! thread `B`. Before an edge is added, the graph checks whether `B`
//! already reaches `A`; if it does, the new edge would close a cycle,
//! that is a deadlock, and the path from `B` to `A` is reported instead.
//!
//! The graph keeps the forward edges and, for cleanup in time proportional
//! to the neighbours of a thread, the reverse edges as well.
use vstd::prelude::*;
use std::collections::VecDeque;
use fxhash::FxHashMap;
use crate::fx;
use crate::paths::{acyclic, lemma_insert_keeps_acyclic, lemma_subset_keeps_acyclic, drop_node, drop_out_edges, is_path_between, reachable, closed_under, lemma_closed_contains_path, lemma_push_contains, lemma_tail_contains};
use crate::relation::{Relation, pairs, image, finite_keys, no_empty, rel_insert, rel_touch, rel_remove, rel_contains, rel_image};
use crate::types::ThreadId;

verus! {

broadcast use vstd::std_specs::vecdeque::group_vec_dequeue_axioms, crate::relation::lemma_pairs_image;

/// A directed graph of thread wait relationships.
pub struct WaitForGraph {
    /// Maps a thread to the threads it waits for (outgoing edges).
    pub edges: Relation,
    /// Maps a thread to the threads waiting for it (incoming edges).
    pub incoming_edges: Relation,
}

impl View for WaitForGraph {
    type V = Set<(ThreadId, ThreadId)>;

    /// The set of edges `(waiter, holder)`.
    open spec fn view(&self) -> Set<(ThreadId, ThreadId)> {
        pairs(self.edges)
    }
}

impl WaitForGraph {
    /// The forward and reverse edges describe the same graph.
    pub open spec fn wf(&self) -> bool {
        &&& finite_keys(self.edges)
        &&& finite_keys(self.incoming_edges)
        &&& no_empty(self.incoming_edges)
        &&& forall|a: ThreadId, b: ThreadId|
            #[trigger] pairs(self.edges).contains((a, b)) <==> pairs(self.incoming_edges).contains((b, a))
        &&& acyclic(pairs(self.edges))
    }

    /// The view after adding the edge `from -> to`, if that closes no cycle
    /// and the edge is not there yet.
    pub open spec fn spec_add_edge(g: Set<(ThreadId, ThreadId)>, from: ThreadId, to: ThreadId) -> Set<(ThreadId, ThreadId)> {
        if g.contains((from, to)) || reachable(g, to, from) {
            g
        } else {
            g.insert((from, to))
        }
    }

    /// Creates an empty wait-for graph.
    pub fn new() -> (r: WaitForGraph)
        ensures
            r.wf(),
            r@ == Set::<(ThreadId, ThreadId)>::empty(),
    {
        let r = WaitForGraph { edges: fx::map_new(), incoming_edges: fx::map_new() };
        assert(r@ =~= Set::<(ThreadId, ThreadId)>::empty());
        assert(pairs(r.incoming_edges) =~= Set::<(ThreadId, ThreadId)>::empty());
        r
    }

    /// Makes sure `thread_id` has an entry for its outgoing edges; the edges do not change.
    pub fn add_node(&mut self, thread_id: ThreadId)
        requires
            old(self).wf(),
        ensures
            final(self).wf(),
            final(self)@ == old(self)@,
            final(self).edges@.contains_key(thread_id),
    {
        rel_touch(&mut self.edges, thread_id);
        assert(self@ =~= old(self)@);
    }

    /// Proposes the edge `from -> to`: `from` waits for `to`.
    ///
    /// When the edge is there already, nothing happens and `None` comes back.
    /// When `to` already reaches `from`, the edge would close a cycle: the graph
    /// is left as it is and a shortest path from `to` to `from` is returned. Otherwise
    /// the edge is added and `None` comes back.
    pub fn add_edge(&mut self, from: ThreadId, to: ThreadId) -> (r: Option<Vec<ThreadId>>)
        requires
            old(self).wf(),
        ensures
            final(self).wf(),
            final(self)@ == Self::spec_add_edge(old(self)@, from, to),
            r is Some <==> (!old(self)@.contains((from, to)) && reachable(old(self)@, to, from)),
            match r {
                Some(p) => is_path_between(old(self)@, p@, to, from)
                    && forall|q: Seq<ThreadId>| #[trigger] is_path_between(old(self)@, q, to, from) ==> p@.len() <= q.len(),
                None => true,
            },
    {
        if rel_contains(&self.edges, from, to) {
            return None;
        }
        match self.find_path(to, from) {
            Some(path) => {
                return Some(path);
            },
            None => {},
        }
        let ghost g0 = self@;
        rel_insert(&mut self.edges, from, to);
        rel_insert(&mut self.incoming_edges, to, from);
        proof {
            lemma_insert_keeps_acyclic(g0, from, to);
        }
        assert forall|a: ThreadId, b: ThreadId|
            #[trigger] pairs(self.edges).contains((a, b)) <==> pairs(self.incoming_edges).contains((b, a)) by {
            assert(pairs(old(self).edges).contains((a, b)) == pairs(old(self).incoming_edges).contains((b, a)));
        }
        None
    }

    /// Removes every edge leaving `thread_id`: the thread no longer waits.
    pub fn clear_wait_edges(&mut self, thread_id: ThreadId)
        requires
            old(self).wf(),
        ensures
            final(self).wf(),
            final(self)@ == drop_out_edges(old(self)@, thread_id),
    {
        let ghost g0 = self@;
        let ghost inc0 = pairs(self.incoming_edges);
        match fx::map_remove(&mut self.edges, thread_id) {
            Some(targets_set) => {
                let targets = fx::set_to_vec(&targets_set);
                let mut i: usize = 0;
                while i < targets.len()
                    invariant
                        0 <= i <= targets.len(),
                        targets@.to_set() == targets_set@,
                        finite_keys(self.edges),
                        finite_keys(self.incoming_edges),
                        no_empty(self.incoming_edges),
                        self.edges@ == old(self).edges@.remove(thread_id),
                        inc0 == pairs(old(self).incoming_edges),
                        forall|e: (ThreadId, ThreadId)| #[trigger] pairs(self.incoming_edges).contains(e)
                            == (inc0.contains(e) && !(e.1 == thread_id && targets@.subrange(0, i as int).contains(e.0))),
                    decreases targets.len() - i,
                {
                    let target = targets[i];
                    let ghost before = pairs(self.incoming_edges);
                    rel_remove(&mut self.incoming_edges, target, thread_id);
                    assert forall|e: (ThreadId, ThreadId)| #[trigger] pairs(self.incoming_edges).contains(e)
                        == (inc0.contains(e) && !(e.1 == thread_id && targets@.subrange(0, i + 1).contains(e.0))) by {
                        assert(targets@.subrange(0, i + 1) == targets@.subrange(0, i as int).push(target));
                        if targets@.subrange(0, i as int).contains(e.0) {
                            let k = choose|k: int| 0 <= k < i && targets@.subrange(0, i as int)[k] == e.0;
                            assert(targets@.subrange(0, i + 1)[k] == e.0);
                        }
                        if targets@.subrange(0, i + 1).contains(e.0) && e.0 != target {
                            let ip: int = i + 1;
                            let k = choose|k: int| 0 <= k < ip && #[trigger] targets@.subrange(0, ip)[k] == e.0;
                            assert(targets@.subrange(0, i as int)[k] == e.0);
                        }
                        if e.0 == target {
                            assert(targets@.subrange(0, i + 1)[i as int] == target);
                        }
                    }
                    i = i + 1;
                }
                assert(targets@.subrange(0, targets@.len() as int) == targets@);
                assert forall|a: ThreadId, b: ThreadId|
                    #[trigger] pairs(self.edges).contains((a, b)) <==> pairs(self.incoming_edges).contains((b, a)) by {
                    assert(pairs(old(self).edges).contains((a, b)) == inc0.contains((b, a)));
                    if a == thread_id {
                        if inc0.contains((b, a)) {
                            assert(targets_set@.contains(b));
                            assert(targets@.contains(b));
                        }
                    }
                }
            },
            None => {},
        }
        assert(self@ =~= drop_out_edges(g0, thread_id));
        proof { lemma_subset_keeps_acyclic(self@, g0); }
    }

    /// Removes the edge `from -> to`, if present.
    pub fn remove_edge(&mut self, from: ThreadId, to: ThreadId)
        requires
            old(self).wf(),
        ensures
            final(self).wf(),
            final(self)@ == old(self)@.remove((from, to)),
    {
        let ghost g0 = self@;
        if rel_contains(&self.edges, from, to) {
            rel_remove(&mut self.edges, from, to);
            rel_remove(&mut self.incoming_edges, to, from);
            assert forall|a: ThreadId, b: ThreadId|
                #[trigger] pairs(self.edges).contains((a, b)) <==> pairs(self.incoming_edges).contains((b, a)) by {
                assert(pairs(old(self).edges).contains((a, b)) == pairs(old(self).incoming_edges).contains((b, a)));
            }
        }
        assert(self@ =~= g0.remove((from, to)));
        proof { lemma_subset_keeps_acyclic(self@, g0); }
    }

    /// Removes every edge that leaves or enters `thread_id` (the thread exits).
    pub fn remove_thread(&mut self, thread_id: ThreadId)
        requires
            old(self).wf(),
        ensures
            final(self).wf(),
            final(self)@ == drop_node(old(self)@, thread_id),
    {
        self.clear_wait_edges(thread_id);
        let ghost g1 = self@;
        let ghost s1 = *self;
        match fx::map_remove(&mut self.incoming_edges, thread_id) {
            Some(waiters_set) => {
                let waiters = fx::set_to_vec(&waiters_set);
                let mut i: usize = 0;
                while i < waiters.len()
                    invariant
                        0 <= i <= waiters.len(),
                        waiters@.to_set() == waiters_set@,
                        finite_keys(self.edges),
                        finite_keys(self.incoming_edges),
                        no_empty(self.incoming_edges),
                        self.incoming_edges@ == s1.incoming_edges@.remove(thread_id),
                        g1 == pairs(s1.edges),
                        forall|e: (ThreadId, ThreadId)| #[trigger] pairs(self.edges).contains(e)
                            == (g1.contains(e) && !(e.1 == thread_id && waiters@.subrange(0, i as int).contains(e.0))),
                    decreases waiters.len() - i,
                {
                    let waiter = waiters[i];
                    rel_remove(&mut self.edges, waiter, thread_id);
                    assert forall|e: (ThreadId, ThreadId)| #[trigger] pairs(self.edges).contains(e)
                        == (g1.contains(e) && !(e.1 == thread_id && waiters@.subrange(0, i + 1).contains(e.0))) by {
                        assert(waiters@.subrange(0, i + 1) == waiters@.subrange(0, i as int).push(waiter));
                        if waiters@.subrange(0, i as int).contains(e.0) {
                            let k = choose|k: int| 0 <= k < i && waiters@.subrange(0, i as int)[k] == e.0;
                            assert(waiters@.subrange(0, i + 1)[k] == e.0);
                        }
                        if waiters@.subrange(0, i + 1).contains(e.0) && e.0 != waiter {
                            let ip: int = i + 1;
                            let k = choose|k: int| 0 <= k < ip && #[trigger] waiters@.subrange(0, ip)[k] == e.0;
                            assert(waiters@.subrange(0, i as int)[k] == e.0);
                        }
                        if e.0 == waiter {
                            assert(waiters@.subrange(0, i + 1)[i as int] == waiter);
                        }
                    }
                    i = i + 1;
                }
                assert(waiters@.subrange(0, waiters@.len() as int) == waiters@);
                assert forall|a: ThreadId, b: ThreadId|
                    #[trigger] pairs(self.edges).contains((a, b)) <==> pairs(self.incoming_edges).contains((b, a)) by {
                    assert(g1.contains((a, b)) == pairs(s1.incoming_edges).contains((b, a)));
                    if b == thread_id {
                        if g1.contains((a, b)) {
                            assert(waiters_set@.contains(a));
                            assert(waiters@.contains(a));
                        }
                    }
                }
                assert(self@ =~= g1.filter(|e: (ThreadId, ThreadId)| e.1 != thread_id));
            },
            None => {
                assert forall|a: ThreadId| !g1.contains((a, thread_id)) by {
                    if g1.contains((a, thread_id)) {
                        assert(pairs(s1.incoming_edges).contains((thread_id, a)));
                    }
                }
                assert(self@ =~= g1.filter(|e: (ThreadId, ThreadId)| e.1 != thread_id));
            },
        }
        assert(self@ =~= drop_node(old(self)@, thread_id));
        proof { lemma_subset_keeps_acyclic(self@, old(self)@); }
    }

    /// Finds a shortest path from `start` to `target` by breadth-first search.
    fn find_path(&self, start: ThreadId, target: ThreadId) -> (r: Option<Vec<ThreadId>>)
        requires
            self.wf(),
        ensures
            match r {
                Some(p) => is_path_between(self@, p@, start, target)
                    && forall|q: Seq<ThreadId>| #[trigger] is_path_between(self@, q, start, target) ==> p@.len() <= q.len(),
                None => !reachable(self@, start, target),
            },
    {
        if start == target {
            let p = vec![start];
            assert(is_path_between(self@, p@, start, target));
            return Some(p);
        }
        let ghost g = self@;
        let ghost universe = self.incoming_edges@.dom().insert(start);
        let mut queue: VecDeque<ThreadId> = VecDeque::new();
        let mut visited = fx::set_new();
        let mut parent: FxHashMap<ThreadId, ThreadId> = fx::map_new();
        let ghost mut depth: Map<ThreadId, nat> = Map::empty().insert(start, 0);
        let ghost mut level: nat = 0;
        queue.push_back(start);
        fx::set_insert(&mut visited, start);
        assert(parent@.dom() =~= visited@.remove(start));
        assert(queue@[0] == start);
        assert(queue@.no_duplicates());
        while queue.len() > 0
            invariant
                self.wf(),
                g == self@,
                start != target,
                universe == self.incoming_edges@.dom().insert(start),
                universe.finite(),
                visited@.subset_of(universe),
                visited@.contains(start),
                queue@.no_duplicates(),
                forall|i: int| 0 <= i < queue@.len() ==> visited@.contains(#[trigger] queue@[i]),
                forall|x: ThreadId, y: ThreadId|
                    visited@.contains(x) && !queue@.contains(x) && #[trigger] g.contains((x, y)) ==> visited@.contains(y),
                visited@.contains(target) ==> queue@.contains(target),
                parent@.dom() == visited@.remove(start),
                forall|x: ThreadId| #[trigger] parent@.contains_key(x) ==>
                    visited@.contains(parent@[x]) && g.contains((parent@[x], x))
                        && depth.contains_key(parent@[x]) && depth[x] == depth[parent@[x]] + 1,
                forall|x: ThreadId| visited@.contains(x) ==> #[trigger] depth.contains_key(x),
                depth.contains_key(start),
                depth[start] == 0,
                forall|i: int| 0 <= i < queue@.len() ==> level <= #[trigger] depth[queue@[i]] <= level + 1,
                forall|i: int, j: int| 0 <= i <= j < queue@.len() ==> #[trigger] depth[queue@[i]] <= #[trigger] depth[queue@[j]],
                forall|x: ThreadId| visited@.contains(x) && !queue@.contains(x) ==> #[trigger] depth[x] <= level,
                forall|y: ThreadId, p: Seq<ThreadId>| #[trigger] is_path_between(g, p, start, y) && p.len() <= level + 1
                    ==> visited@.contains(y),
                forall|x: ThreadId, p: Seq<ThreadId>| visited@.contains(x) && #[trigger] is_path_between(g, p, start, x)
                    ==> p.len() >= depth[x] + 1,
            decreases universe.difference(visited@).len(), queue@.len(),
        {
            let ghost q_before = queue@;
            let current = queue.pop_front().unwrap();
            proof {
                lemma_tail_contains(q_before);
                assert(q_before[0] == current);
                assert(queue@ =~= q_before.drop_first());
                let dc = depth[current];
                if dc == level + 1 {
                    assert forall|y: ThreadId, p: Seq<ThreadId>| #[trigger] is_path_between(g, p, start, y) && p.len() <= dc + 1
                        implies visited@.contains(y) by {
                        if p.len() == dc + 1 {
                            let pre = p.drop_last();
                            let pred = p[p.len() - 2];
                            assert(is_path_between(g, pre, start, pred)) by {
                                assert forall|i: int| 0 <= i < pre.len() - 1 implies #[trigger] g.contains((pre[i], pre[i + 1])) by {
                                    assert(g.contains((p[i], p[i + 1])));
                                }
                            }
                            assert(visited@.contains(pred));
                            assert(depth[pred] <= level);
                            assert(!q_before.contains(pred)) by {
                                if q_before.contains(pred) {
                                    let k = choose|k: int| 0 <= k < q_before.len() && q_before[k] == pred;
                                    assert(depth[q_before[0]] <= depth[q_before[k]]);
                                }
                            }
                            assert(g.contains((p[p.len() - 2], p[p.len() - 1])));
                        }
                    }
                }
                assert(level <= dc);
                level = dc;
                assert forall|i: int| 0 <= i < queue@.len() implies level <= #[trigger] depth[queue@[i]] <= level + 1 by {
                    assert(queue@[i] == q_before[i + 1]);
                    assert(depth[q_before[0]] <= depth[q_before[i + 1]]);
                }
                assert forall|i: int, j: int| 0 <= i <= j < queue@.len() implies #[trigger] depth[queue@[i]] <= #[trigger] depth[queue@[j]] by {
                    assert(queue@[i] == q_before[i + 1]);
                    assert(queue@[j] == q_before[j + 1]);
                }
            }
            if current == target {
                let r = Self::trace_back(Ghost(g), start, target, &parent, Ghost(visited@), Ghost(depth));
                return Some(r);
            }
            let neighbors = rel_image(&self.edges, current);
            let ghost u0 = universe.difference(visited@).len();
            let ghost q0 = queue@.len();
            let mut j: usize = 0;
            while j < neighbors.len()
                invariant
                    self.wf(),
                    g == self@,
                    start != target,
                    current != target,
                    universe == self.incoming_edges@.dom().insert(start),
                    universe.finite(),
                    visited@.subset_of(universe),
                    visited@.contains(start),
                    visited@.contains(current),
                    0 <= j <= neighbors.len(),
                    neighbors@.to_set() == image(self.edges, current),
                    queue@.no_duplicates(),
                    forall|i: int| 0 <= i < queue@.len() ==> visited@.contains(#[trigger] queue@[i]),
                    forall|x: ThreadId, y: ThreadId|
                        visited@.contains(x) && !queue@.contains(x) && x != current && #[trigger] g.contains((x, y)) ==> visited@.contains(y),
                    forall|k: int| 0 <= k < j ==> visited@.contains(#[trigger] neighbors@[k]),
                    !queue@.contains(current),
                    visited@.contains(target) ==> queue@.contains(target),
                    parent@.dom() == visited@.remove(start),
                    forall|x: ThreadId| #[trigger] parent@.contains_key(x) ==>
                        visited@.contains(parent@[x]) && g.contains((parent@[x], x))
                            && depth.contains_key(parent@[x]) && depth[x] == depth[parent@[x]] + 1,
                    forall|x: ThreadId| visited@.contains(x) ==> #[trigger] depth.contains_key(x),
                    depth.contains_key(start),
                    universe.difference(visited@).len() + queue@.len() == u0 + q0,
                    universe.difference(visited@).len() <= u0,
                    depth[start] == 0,
                    depth[current] == level,
                    forall|i: int| 0 <= i < queue@.len() ==> level <= #[trigger] depth[queue@[i]] <= level + 1,
                    forall|i: int, j: int| 0 <= i <= j < queue@.len() ==> #[trigger] depth[queue@[i]] <= #[trigger] depth[queue@[j]],
                    forall|x: ThreadId| visited@.contains(x) && !queue@.contains(x) ==> #[trigger] depth[x] <= level,
                    forall|y: ThreadId, p: Seq<ThreadId>| #[trigger] is_path_between(g, p, start, y) && p.len() <= level + 1
                        ==> visited@.contains(y),
                    forall|x: ThreadId, p: Seq<ThreadId>| visited@.contains(x) && #[trigger] is_path_between(g, p, start, x)
                        ==> p.len() >= depth[x] + 1,
                decreases neighbors.len() - j,
            {
                let nb = neighbors[j];
                assert(neighbors@.to_set().contains(nb)) by { assert(neighbors@.contains(nb)); }
                assert(g.contains((current, nb)));
                assert(universe.contains(nb)) by {
                    assert(pairs(self.incoming_edges).contains((nb, current)));
                }
                let ghost vis_before = visited@;
                let ghost q_mid = queue@;
                if fx::set_insert(&mut visited, nb) {
                    fx::map_insert(&mut parent, nb, current);
                    proof {
                        depth = depth.insert(nb, depth[current] + 1);
                        universe.lemma_set_insert_diff_decreases(vis_before, nb);
                        assert(universe.difference(visited@).len() == universe.difference(vis_before).len() - 1) by {
                            assert(universe.difference(vis_before).remove(nb) =~= universe.difference(visited@));
                        }
                        assert(parent@.dom() =~= visited@.remove(start));
                        assert(!q_mid.contains(nb)) by {
                            if q_mid.contains(nb) {
                                let k = choose|k: int| 0 <= k < q_mid.len() && q_mid[k] == nb;
                                assert(vis_before.contains(q_mid[k]));
                            }
                        }
                        assert forall|p: Seq<ThreadId>| #[trigger] is_path_between(g, p, start, nb)
                            implies p.len() >= depth[nb] + 1 by {
                            if p.len() <= level + 1 {
                                assert(vis_before.contains(nb));
                            }
                        }
                    }
                    queue.push_back(nb);
                    proof {
                        lemma_push_contains(q_mid, nb);
                        assert(queue@.no_duplicates()) by {
                            assert forall|a: int, b: int| 0 <= a < b < queue@.len() implies queue@[a] != queue@[b] by {
                                if b == q_mid.len() {
                                    assert(q_mid.contains(q_mid[a]));
                                }
                            }
                        }
                    }
                } else {
                    assert(visited@ =~= vis_before);
                }
                j = j + 1;
            }
            proof {
                assert forall|x: ThreadId, y: ThreadId|
                    visited@.contains(x) && !queue@.contains(x) && #[trigger] g.contains((x, y)) implies visited@.contains(y) by {
                    if x == current {
                        assert(image(self.edges, current).contains(y));
                        assert(neighbors@.to_set().contains(y));
                        let k = choose|k: int| 0 <= k < neighbors@.len() && neighbors@[k] == y;
                    }
                }
            }
        }
        proof {
            assert(closed_under(g, visited@)) by {
                assert forall|x: ThreadId, y: ThreadId| visited@.contains(x) && #[trigger] g.contains((x, y)) implies visited@.contains(y) by {
                    assert(!queue@.contains(x));
                }
            }
            if reachable(g, start, target) {
                let p = choose|p: Seq<ThreadId>| is_path_between(g, p, start, target);
                lemma_closed_contains_path(g, visited@, p);
                assert(visited@.contains(p[p.len() - 1]));
                assert(!queue@.contains(target));
            }
        }
        None
    }

    /// Follows the parent links back from `target` to `start` and returns the
    /// path from `start` to `target`.
    fn trace_back(
        Ghost(g): Ghost<Set<(ThreadId, ThreadId)>>,
        start: ThreadId,
        target: ThreadId,
        parent: &FxHashMap<ThreadId, ThreadId>,
        Ghost(visited): Ghost<Set<ThreadId>>,
        Ghost(depth): Ghost<Map<ThreadId, nat>>,
    ) -> (r: Vec<ThreadId>)
        requires
            visited.contains(target),
            parent@.dom() == visited.remove(start),
            forall|x: ThreadId| #[trigger] parent@.contains_key(x) ==>
                visited.contains(parent@[x]) && g.contains((parent@[x], x))
                    && depth.contains_key(parent@[x]) && depth[x] == depth[parent@[x]] + 1,
            forall|x: ThreadId| visited.contains(x) ==> #[trigger] depth.contains_key(x),
            depth.contains_key(start),
            depth[start] == 0,
        ensures
            is_path_between(g, r@, start, target),
            r@.len() == depth[target] + 1,
    {
        let mut back: Vec<ThreadId> = Vec::new();
        let mut curr = target;
        back.push(curr);
        loop
            invariant
                visited.contains(curr),
                parent@.dom() == visited.remove(start),
                forall|x: ThreadId| #[trigger] parent@.contains_key(x) ==>
                    visited.contains(parent@[x]) && g.contains((parent@[x], x))
                        && depth.contains_key(parent@[x]) && depth[x] == depth[parent@[x]] + 1,
                forall|x: ThreadId| visited.contains(x) ==> #[trigger] depth.contains_key(x),
                back@.len() >= 1,
                back@[0] == target,
                back@[back@.len() - 1] == curr,
                forall|i: int| 0 <= i < back@.len() - 1 ==> #[trigger] g.contains((back@[i + 1], back@[i])),
                depth.contains_key(start),
                depth[start] == 0,
                depth.contains_key(target),
                back@.len() + depth[curr] == depth[target] + 1,
            ensures
                curr == start,
                back@.len() == depth[target] + 1,
                back@.len() >= 1,
                back@[0] == target,
                back@[back@.len() - 1] == start,
                forall|i: int| 0 <= i < back@.len() - 1 ==> #[trigger] g.contains((back@[i + 1], back@[i])),
            decreases depth[curr],
        {
            match fx::map_get(parent, curr) {
                Some(p) => {
                    let p = *p;
                    let ghost b0 = back@;
                    back.push(p);
                    assert(g.contains((back@[b0.len() as int], back@[b0.len() - 1])));
                    curr = p;
                },
                None => {
                    break;
                },
            }
        }
        let mut path: Vec<ThreadId> = Vec::new();
        let mut k: usize = back.len();
        while k > 0
            invariant
                0 <= k <= back@.len(),
                back@.len() >= 1,
                path@.len() == back@.len() - k,
                forall|i: int| 0 <= i < path@.len() ==> path@[i] == back@[back@.len() - 1 - i],
            decreases k,
        {
            k = k - 1;
            path.push(back[k]);
        }
        assert forall|i: int| 0 <= i < path@.len() - 1 implies #[trigger] g.contains((path@[i], path@[i + 1])) by {
            let j = back@.len() - 2 - i;
            assert(g.contains((back@[j + 1], back@[j])));
        }
        path
    }

    /// The threads `thread_id` waits for, in increasing order.
    pub fn outgoing(&self, thread_id: ThreadId) -> (r: Vec<ThreadId>)
        ensures
            r@.to_set() == image(self.edges, thread_id),
            r@.no_duplicates(),
            forall|i: int, j: int| 0 <= i < j < r@.len() ==> r@[i] < r@[j],
    {
        let items = rel_image(&self.edges, thread_id);
        crate::sorting::sorted_unique(&items)
    }
}

} // verus!
