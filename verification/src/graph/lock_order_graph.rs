//! The lock order graph: in which order locks have been acquired.
//!
//! When a thread holds lock `A` and then acquires lock `B`, the edge
//! `A -> B` records that `A` was taken before `B`. Recording `B -> A` while
//! the graph already leads from `A` to `B` would close a cycle in the order:
//! a potential deadlock, even if no thread blocks.
//!
//! Results of the cycle check are cached per pair `(before, after)`
//! together with the generation (the number of edges added so far, modulo
//! 2^64) in which they were computed; a cached result is reused while the
//! generation is unchanged.
use vstd::prelude::*;
use std::collections::VecDeque;
use fxhash::{FxHashMap, FxHashSet};
use crate::fx;
use crate::paths::{acyclic, lemma_insert_keeps_acyclic, lemma_subset_keeps_acyclic, drop_node, is_path_between, reachable, closed_under, lemma_closed_contains_path, lemma_push_contains, lemma_tail_contains};
use crate::relation::{Relation, pairs, image, finite_keys, rel_insert, rel_remove_keep, rel_contains, rel_image};
use crate::types::LockId;

verus! {

broadcast use vstd::std_specs::vecdeque::group_vec_dequeue_axioms, crate::relation::lemma_pairs_image;

/// A directed edge of the lock order graph.
#[derive(Debug, Clone, Copy, PartialEq, Eq, Hash, Structural)]
pub struct LockOrderEdge {
    /// Lock acquired first.
    pub before: LockId,
    /// Lock acquired while `before` was held.
    pub after: LockId,
}

/// A cached cycle check.
#[derive(Debug)]
pub struct CacheEntry {
    /// Generation in which the check was made.
    pub generation: u64,
    /// The cycle that was found, if any.
    pub result: Option<Vec<LockId>>,
}

/// Largest number of cache entries kept after an edge is added.
pub const CACHE_LIMIT: usize = 1000;

/// Lock order graph that tracks lock acquisition ordering.
#[derive(Debug)]
pub struct LockOrderGraph {
    /// Maps each lock to the locks acquired after it.
    pub edges: Relation,
    /// Maps each lock to the locks acquired before it.
    pub reverse_edges: Relation,
    /// Every recorded edge.
    pub all_edges: FxHashSet<LockOrderEdge>,
    /// Cached cycle checks, keyed by `(before, after)`.
    pub cycle_cache: FxHashMap<(LockId, LockId), CacheEntry>,
    /// Incremented (modulo 2^64) each time an edge is added.
    pub generation: u64,
}

/// `FxHashSet::default()` of edges: no members. In this and the next
/// functions, edges are told apart by `Eq` and `Hash` as `derive` writes them
/// for `LockOrderEdge`: field by field, so two edges are the same member
/// exactly when both their locks agree.
#[verifier::external_body]
fn edge_set_new() -> (r: FxHashSet<LockOrderEdge>)
    ensures
        r@ == Set::<LockOrderEdge>::empty(),
{
    FxHashSet::default()
}

/// `HashSet::insert` of an edge; true when it was not yet a member.
#[verifier::external_body]
fn edge_set_insert(s: &mut FxHashSet<LockOrderEdge>, e: LockOrderEdge) -> (r: bool)
    ensures
        final(s)@ == old(s)@.insert(e),
        r == !old(s)@.contains(e),
{
    s.insert(e)
}

/// `HashSet::remove` of an edge.
#[verifier::external_body]
fn edge_set_remove(s: &mut FxHashSet<LockOrderEdge>, e: LockOrderEdge) -> (r: bool)
    ensures
        final(s)@ == old(s)@.remove(e),
        r == old(s)@.contains(e),
{
    s.remove(&e)
}

/// `HashSet::clear` of the edge set.
#[verifier::external_body]
fn edge_set_clear(s: &mut FxHashSet<LockOrderEdge>)
    ensures
        final(s)@ == Set::<LockOrderEdge>::empty(),
{
    s.clear()
}

/// The view of an optional list of locks.
pub open spec fn opt_seq(o: Option<Vec<LockId>>) -> Option<Seq<LockId>> {
    match o {
        Some(v) => Some(v@),
        None => None,
    }
}

/// A cached check as plain values: its generation and its result.
pub open spec fn entry_view(e: CacheEntry) -> (u64, Option<Seq<LockId>>) {
    (e.generation, opt_seq(e.result))
}

/// `c` is what the cycle check for a new edge `before -> after` reports:
/// a path from `after` to `before` in `g`, followed by `after` again.
pub open spec fn is_order_cycle(g: Set<(LockId, LockId)>, c: Seq<LockId>, before: LockId, after: LockId) -> bool {
    &&& c.len() >= 2
    &&& is_path_between(g, c.drop_last(), after, before)
    &&& c[c.len() - 1] == after
}

/// A cached check for the edge `k.0 -> k.1` agrees with the graph `g`: a
/// cycle is an order cycle of `g` (so `k.1` reaches `k.0`), and no cycle
/// means the edge is in `g` and `k.1` does not reach `k.0`.
pub open spec fn cache_agrees(g: Set<(LockId, LockId)>, k: (LockId, LockId), res: Option<Seq<LockId>>) -> bool {
    match res {
        Some(c) => reachable(g, k.1, k.0) && is_order_cycle(g, c, k.0, k.1),
        None => g.contains(k) && !reachable(g, k.1, k.0),
    }
}

/// A reported order cycle for the edge `before -> after` starts and ends at
/// `after` and reaches `after` again from `before`.
pub open spec fn cycle_shape(r: Option<Seq<LockId>>, before: LockId, after: LockId) -> bool {
    match r {
        Some(c) => c.len() >= 2 && c[0] == after && c[c.len() - 1] == after && c[c.len() - 2] == before,
        None => true,
    }
}

/// `gs[0]`, `gs[1]`, ... are the graphs along the additions of the edges
/// `hs[0] -> lock_id`, `hs[1] -> lock_id`, ... in turn: each addition but the
/// last reported no cycle, and the last reported `r` (`None` when `hs` is empty).
pub open spec fn adds_edges_via(gs: Seq<LockOrderGraph>, hs: Seq<LockId>, lock_id: LockId,
    r: Option<Seq<LockId>>) -> bool
    decreases hs.len(),
{
    &&& gs.len() == hs.len() + 1
    &&& if hs.len() == 0 {
        r is None
    } else {
        &&& adds_edges_via(gs.drop_last(), hs.drop_last(), lock_id, None)
        &&& gs[gs.len() - 2].adds_edge(hs.last(), lock_id, gs.last(), r)
    }
}

/// Adding the edges `hs[0] -> lock_id`, `hs[1] -> lock_id`, ... in turn,
/// each after the previous ones reported no cycle, leads from `g0` to `g1`,
/// and the last addition reported `r` (`None` when `hs` is empty).
pub open spec fn adds_edges(g0: LockOrderGraph, hs: Seq<LockId>, lock_id: LockId, g1: LockOrderGraph,
    r: Option<Seq<LockId>>) -> bool {
    exists|gs: Seq<LockOrderGraph>| #[trigger] adds_edges_via(gs, hs, lock_id, r) && gs[0] == g0 && gs.last() == g1
}

/// No addition leaves the graph as it is.
pub proof fn lemma_adds_edges_none(g0: LockOrderGraph, lock_id: LockId)
    ensures
        adds_edges(g0, Seq::<LockId>::empty(), lock_id, g0, None),
{
    assert(adds_edges_via(seq![g0], Seq::<LockId>::empty(), lock_id, None));
}

/// One more addition extends a run of additions.
pub proof fn lemma_adds_edges_push(g0: LockOrderGraph, hs: Seq<LockId>, h: LockId, lock_id: LockId,
    gm: LockOrderGraph, g1: LockOrderGraph, r: Option<Seq<LockId>>)
    requires
        adds_edges(g0, hs, lock_id, gm, None),
        gm.adds_edge(h, lock_id, g1, r),
    ensures
        adds_edges(g0, hs.push(h), lock_id, g1, r),
{
    let gs = choose|gs: Seq<LockOrderGraph>| #[trigger] adds_edges_via(gs, hs, lock_id, None) && gs[0] == g0 && gs.last() == gm;
    let gs2 = gs.push(g1);
    assert(gs2.drop_last() =~= gs);
    assert(hs.push(h).drop_last() =~= hs);
    assert(adds_edges_via(gs2, hs.push(h), lock_id, r));
}

/// The edges from the locks of `held` to `lock_id` are added one lock at a
/// time, in some order that takes each lock once, up to the first addition
/// that reports a cycle: that leads from `g0` to `g1` and reports `r`.
pub open spec fn adds_edges_from(g0: LockOrderGraph, held: Set<LockId>, lock_id: LockId, g1: LockOrderGraph,
    r: Option<Seq<LockId>>) -> bool {
    exists|hs: Seq<LockId>, k: int| {
        &&& hs.to_set() == held
        &&& hs.no_duplicates()
        &&& 0 <= k <= hs.len()
        &&& (r is None ==> k == hs.len())
        &&& #[trigger] adds_edges(g0, hs.take(k), lock_id, g1, r)
    }
}

impl View for LockOrderGraph {
    type V = Set<(LockId, LockId)>;

    /// The set of edges `(before, after)`.
    open spec fn view(&self) -> Set<(LockId, LockId)> {
        pairs(self.edges)
    }
}

fn copy_locks(v: &Vec<LockId>) -> (r: Vec<LockId>)
    ensures
        r@ == v@,
{
    let mut r: Vec<LockId> = Vec::new();
    let mut i: usize = 0;
    while i < v.len()
        invariant
            0 <= i <= v.len(),
            r@ == v@.subrange(0, i as int),
        decreases v.len() - i,
    {
        r.push(v[i]);
        i = i + 1;
    }
    r
}

impl LockOrderGraph {
    /// The edge maps, the reverse maps and the edge set describe the same graph.
    pub open spec fn wf(&self) -> bool {
        &&& finite_keys(self.edges)
        &&& finite_keys(self.reverse_edges)
        &&& forall|a: LockId, b: LockId|
            #[trigger] pairs(self.edges).contains((a, b)) <==> pairs(self.reverse_edges).contains((b, a))
        &&& forall|e: LockOrderEdge| #[trigger] self.all_edges@.contains(e) <==> pairs(self.edges).contains((e.before, e.after))
        &&& forall|k: (LockId, LockId)| #[trigger] self.cycle_cache@.contains_key(k) ==>
            cycle_shape(opt_seq(self.cycle_cache@[k].result), k.0, k.1)
        &&& acyclic(pairs(self.edges))
        &&& forall|k: (LockId, LockId)| #[trigger] self.cycle_cache@.contains_key(k) ==> {
            &&& self.cycle_cache@[k].generation <= self.generation
            &&& self.cycle_cache@[k].generation == self.generation
                ==> cache_agrees(pairs(self.edges), k, opt_seq(self.cycle_cache@[k].result))
        }
    }

    /// The cache as plain values.
    pub open spec fn cache(&self) -> Map<(LockId, LockId), (u64, Option<Seq<LockId>>)> {
        self.cycle_cache@.map_values(|e: CacheEntry| entry_view(e))
    }

    /// A cached check for `(before, after)` that is still valid.
    pub open spec fn cache_hit(&self, before: LockId, after: LockId) -> bool {
        self.cycle_cache@.contains_key((before, after))
            && self.cycle_cache@[(before, after)].generation == self.generation
    }

    /// What adding the edge `before -> after` does (see [`LockOrderGraph::add_edge`]):
    /// `after_graph` is the graph afterwards and `r` the cycle reported.
    pub open spec fn adds_edge(&self, before: LockId, after: LockId, after_graph: LockOrderGraph,
        r: Option<Seq<LockId>>) -> bool {
        &&& cycle_shape(r, before, after)
        &&& before == after ==> r is None && after_graph == *self
        &&& before != after ==> {
            &&& (r is Some <==> reachable(self@, after, before))
            &&& (r matches Some(c) ==> is_order_cycle(self@, c, before, after))
            &&& after_graph@ == (if r is None { self@.insert((before, after)) } else { self@ })
        }
        &&& before != after && self.cache_hit(before, after) ==> {
            &&& r == self.cache()[(before, after)].1
            &&& after_graph == *self
        }
        &&& before != after && !self.cache_hit(before, after) ==> {
            &&& (r is Some <==> reachable(self@, after, before))
            &&& (r matches Some(c) ==> is_order_cycle(self@, c, before, after))
            &&& after_graph@ == (if r is None { self@.insert((before, after)) } else { self@ })
            &&& after_graph.generation == (if r is None && !self@.contains((before, after)) {
                    self.generation.wrapping_add(1)
                } else {
                    self.generation
                })
            &&& after_graph.cache() == (if r is None && !self@.contains((before, after))
                    && (self.generation == u64::MAX
                        || self.cycle_cache@.dom().insert((before, after)).len() > CACHE_LIMIT) {
                    Map::empty()
                } else {
                    self.cache().insert((before, after), (self.generation, r))
                })
        }
    }

    /// Creates an empty lock order graph.
    pub fn new() -> (r: LockOrderGraph)
        ensures
            r.wf(),
            r@ == Set::<(LockId, LockId)>::empty(),
            r.cycle_cache@.dom() == Set::<(LockId, LockId)>::empty(),
            r.generation == 0,
    {
        let r = LockOrderGraph {
            edges: fx::map_new(),
            reverse_edges: fx::map_new(),
            all_edges: edge_set_new(),
            cycle_cache: fx::pmap_new(),
            generation: 0,
        };
        assert(r@ =~= Set::<(LockId, LockId)>::empty());
        assert(pairs(r.reverse_edges) =~= Set::<(LockId, LockId)>::empty());
        r
    }

    /// Records that `before` was held while `after` was acquired.
    ///
    /// A self-edge is ignored (`None`). A still valid cached result for the
    /// pair is returned as it is. Otherwise the graph is searched for a path
    /// from `after` to `before`: if there is one, the edge would close a cycle
    /// and that path followed by `after` is returned; if there is none, the
    /// edge is recorded and `None` comes back. The result is cached under the
    /// current generation; adding a new edge starts a new generation and empties
    /// the cache once it holds more than `CACHE_LIMIT` entries.
    pub fn add_edge(&mut self, before: LockId, after: LockId) -> (r: Option<Vec<LockId>>)
        requires
            old(self).wf(),
        ensures
            final(self).wf(),
            old(self).adds_edge(before, after, *final(self), opt_seq(r)),
    {
        if before == after {
            return None;
        }
        match fx::pmap_get(&self.cycle_cache, (before, after)) {
            Some(cached) => {
                if cached.generation == self.generation {
                    let res = match &cached.result {
                        Some(c) => Some(copy_locks(c)),
                        None => None,
                    };
                    assert(cycle_shape(opt_seq(self.cycle_cache@[(before, after)].result), before, after));
                    assert(self.cycle_cache@.contains_key((before, after)));
                    assert(cache_agrees(self@, (before, after), opt_seq(self.cycle_cache@[(before, after)].result)));
                    assert(opt_seq(res) == opt_seq(self.cycle_cache@[(before, after)].result));
                    proof {
                        if res is None {
                            assert(self@.insert((before, after)) =~= self@);
                        }
                    }
                    return res;
                }
            },
            None => {},
        }
        let cycle_result = match self.find_path(after, before) {
            Some(cycle) => {
                let mut full_cycle = cycle;
                full_cycle.push(after);
                proof {
                    assert(full_cycle@.drop_last() == cycle@);
                }
                Some(full_cycle)
            },
            None => None,
        };
        let stored = match &cycle_result {
            Some(c) => Some(copy_locks(c)),
            None => None,
        };
        let ghost cache_dom0 = self.cycle_cache@.dom();
        fx::pmap_insert(&mut self.cycle_cache, (before, after), CacheEntry { generation: self.generation, result: stored });
        proof {
            assert(self.cache() =~= old(self).cache().insert((before, after), (old(self).generation, opt_seq(cycle_result))));
            assert(cycle_shape(opt_seq(cycle_result), before, after)) by {
                if cycle_result is Some {
                    let c = cycle_result->0@;
                    assert(c.drop_last()[0] == after);
                    assert(c.drop_last()[c.len() - 2] == before);
                }
            }
            assert forall|k: (LockId, LockId)| #[trigger] self.cycle_cache@.contains_key(k) implies
                cycle_shape(opt_seq(self.cycle_cache@[k].result), k.0, k.1) by {
                if k != (before, after) {
                    assert(old(self).cycle_cache@.contains_key(k));
                }
            }
        }
        if cycle_result.is_none() {
            let edge = LockOrderEdge { before, after };
            if edge_set_insert(&mut self.all_edges, edge) {
                rel_insert(&mut self.edges, before, after);
                rel_insert(&mut self.reverse_edges, after, before);
                proof {
                    lemma_insert_keeps_acyclic(pairs(old(self).edges), before, after);
                }
                if self.generation == u64::MAX {
                    fx::pmap_clear(&mut self.cycle_cache);
                    assert(self.cache() =~= Map::empty());
                }
                self.generation = self.generation.wrapping_add(1);
                if fx::pmap_len(&self.cycle_cache) > CACHE_LIMIT {
                    fx::pmap_clear(&mut self.cycle_cache);
                    assert(self.cache() =~= Map::empty());
                }
                proof {
                    assert forall|a: LockId, b: LockId|
                        #[trigger] pairs(self.edges).contains((a, b)) <==> pairs(self.reverse_edges).contains((b, a)) by {
                        assert(pairs(old(self).edges).contains((a, b)) == pairs(old(self).reverse_edges).contains((b, a)));
                    }
                    assert forall|e: LockOrderEdge| #[trigger] self.all_edges@.contains(e) <==> pairs(self.edges).contains((e.before, e.after)) by {
                        assert(old(self).all_edges@.contains(e) == pairs(old(self).edges).contains((e.before, e.after)));
                    }
                    assert(!old(self)@.contains((before, after))) by {
                        assert(!old(self).all_edges@.contains(edge));
                    }
                }
            } else {
                proof {
                    assert(old(self).all_edges@.contains(edge));
                    assert(old(self)@.contains((before, after)));
                    assert(self@ =~= old(self)@.insert((before, after)));
                    assert(self.all_edges@ =~= old(self).all_edges@);
                }
            }
        }
        cycle_result
    }

    /// Breadth-first search for a path from `start` to `end`, stopping as soon
    /// as `end` is discovered.
    fn find_path(&self, start: LockId, end: LockId) -> (r: Option<Vec<LockId>>)
        requires
            self.wf(),
        ensures
            match r {
                Some(p) => is_path_between(self@, p@, start, end),
                None => !reachable(self@, start, end),
            },
    {
        if start == end {
            let p = vec![start];
            assert(is_path_between(self@, p@, start, end));
            return Some(p);
        }
        if !fx::map_contains(&self.edges, start) {
            proof {
                if reachable(self@, start, end) {
                    let p = choose|p: Seq<LockId>| is_path_between(self@, p, start, end);
                    assert(p.len() >= 2);
                    let z: int = 0;
                    assert(self@.contains((p[z], p[z + 1])));
                }
            }
            return None;
        }
        let ghost g = self@;
        let ghost universe = self.reverse_edges@.dom().insert(start);
        let mut queue: VecDeque<LockId> = VecDeque::new();
        let mut visited = fx::set_new();
        let mut parent: FxHashMap<LockId, LockId> = fx::map_new();
        let ghost mut depth: Map<LockId, nat> = Map::empty().insert(start, 0);
        queue.push_back(start);
        fx::set_insert(&mut visited, start);
        assert(parent@.dom() =~= visited@.remove(start));
        assert(queue@[0] == start);
        assert(queue@.no_duplicates());
        while queue.len() > 0
            invariant
                self.wf(),
                g == self@,
                start != end,
                universe == self.reverse_edges@.dom().insert(start),
                universe.finite(),
                visited@.subset_of(universe),
                visited@.contains(start),
                !visited@.contains(end),
                queue@.no_duplicates(),
                forall|i: int| 0 <= i < queue@.len() ==> visited@.contains(#[trigger] queue@[i]),
                forall|x: LockId, y: LockId|
                    visited@.contains(x) && !queue@.contains(x) && #[trigger] g.contains((x, y)) ==> visited@.contains(y),
                parent@.dom() == visited@.remove(start),
                forall|x: LockId| #[trigger] parent@.contains_key(x) ==>
                    visited@.contains(parent@[x]) && g.contains((parent@[x], x))
                        && depth.contains_key(parent@[x]) && depth[x] == depth[parent@[x]] + 1,
                forall|x: LockId| visited@.contains(x) ==> #[trigger] depth.contains_key(x),
                depth.contains_key(start),
            decreases universe.difference(visited@).len(), queue@.len(),
        {
            let ghost q_before = queue@;
            let current = queue.pop_front().unwrap();
            proof {
                lemma_tail_contains(q_before);
            }
            let neighbors = rel_image(&self.edges, current);
            let ghost u0 = universe.difference(visited@).len();
            let ghost q0 = queue@.len();
            let mut j: usize = 0;
            while j < neighbors.len()
                invariant
                    self.wf(),
                    g == self@,
                    start != end,
                    universe == self.reverse_edges@.dom().insert(start),
                    universe.finite(),
                    visited@.subset_of(universe),
                    visited@.contains(start),
                    visited@.contains(current),
                    !visited@.contains(end),
                    0 <= j <= neighbors.len(),
                    neighbors@.to_set() == image(self.edges, current),
                    queue@.no_duplicates(),
                    forall|i: int| 0 <= i < queue@.len() ==> visited@.contains(#[trigger] queue@[i]),
                    forall|x: LockId, y: LockId|
                        visited@.contains(x) && !queue@.contains(x) && x != current && #[trigger] g.contains((x, y)) ==> visited@.contains(y),
                    forall|k: int| 0 <= k < j ==> visited@.contains(#[trigger] neighbors@[k]),
                    !queue@.contains(current),
                    parent@.dom() == visited@.remove(start),
                    forall|x: LockId| #[trigger] parent@.contains_key(x) ==>
                        visited@.contains(parent@[x]) && g.contains((parent@[x], x))
                            && depth.contains_key(parent@[x]) && depth[x] == depth[parent@[x]] + 1,
                    forall|x: LockId| visited@.contains(x) ==> #[trigger] depth.contains_key(x),
                    depth.contains_key(start),
                    universe.difference(visited@).len() + queue@.len() == u0 + q0,
                    universe.difference(visited@).len() <= u0,
                decreases neighbors.len() - j,
            {
                let neighbor = neighbors[j];
                assert(neighbors@.to_set().contains(neighbor)) by { assert(neighbors@.contains(neighbor)); }
                assert(g.contains((current, neighbor)));
                assert(universe.contains(neighbor)) by {
                    assert(pairs(self.reverse_edges).contains((neighbor, current)));
                }
                let ghost vis_before = visited@;
                let ghost q_mid = queue@;
                if !fx::set_contains(&visited, neighbor) {
                    fx::set_insert(&mut visited, neighbor);
                    fx::map_insert(&mut parent, neighbor, current);
                    proof {
                        depth = depth.insert(neighbor, depth[current] + 1);
                        assert(parent@.dom() =~= visited@.remove(start));
                    }
                    if neighbor == end {
                        return Some(Self::trace_back(Ghost(g), start, end, &parent, Ghost(visited@), Ghost(depth)));
                    }
                    proof {
                        universe.lemma_set_insert_diff_decreases(vis_before, neighbor);
                        assert(universe.difference(visited@).len() == universe.difference(vis_before).len() - 1) by {
                            assert(universe.difference(vis_before).remove(neighbor) =~= universe.difference(visited@));
                        }
                        assert(!q_mid.contains(neighbor)) by {
                            if q_mid.contains(neighbor) {
                                let k = choose|k: int| 0 <= k < q_mid.len() && q_mid[k] == neighbor;
                                assert(vis_before.contains(q_mid[k]));
                            }
                        }
                    }
                    queue.push_back(neighbor);
                    proof {
                        lemma_push_contains(q_mid, neighbor);
                        assert(queue@.no_duplicates()) by {
                            assert forall|a: int, b: int| 0 <= a < b < queue@.len() implies queue@[a] != queue@[b] by {
                                if b == q_mid.len() {
                                    assert(q_mid.contains(q_mid[a]));
                                }
                            }
                        }
                    }
                }
                j = j + 1;
            }
            proof {
                assert forall|x: LockId, y: LockId|
                    visited@.contains(x) && !queue@.contains(x) && #[trigger] g.contains((x, y)) implies visited@.contains(y) by {
                    if x == current {
                        assert(image(self.edges, current).contains(y));
                        assert(neighbors@.to_set().contains(y));
                        let k = choose|k: int| 0 <= k < neighbors@.len() && neighbors@[k] == y;
                    }
                }
            }
        }
        proof {
            assert(closed_under(g, visited@)) by {
                assert forall|x: LockId, y: LockId| visited@.contains(x) && #[trigger] g.contains((x, y)) implies visited@.contains(y) by {
                    assert(!queue@.contains(x));
                }
            }
            if reachable(g, start, end) {
                let p = choose|p: Seq<LockId>| is_path_between(g, p, start, end);
                lemma_closed_contains_path(g, visited@, p);
                assert(visited@.contains(p[p.len() - 1]));
            }
        }
        None
    }

    /// Follows the parent links back from `end` to `start` and returns the
    /// path from `start` to `end`.
    fn trace_back(
        Ghost(g): Ghost<Set<(LockId, LockId)>>,
        start: LockId,
        end: LockId,
        parent: &FxHashMap<LockId, LockId>,
        Ghost(visited): Ghost<Set<LockId>>,
        Ghost(depth): Ghost<Map<LockId, nat>>,
    ) -> (r: Vec<LockId>)
        requires
            visited.contains(end),
            parent@.dom() == visited.remove(start),
            forall|x: LockId| #[trigger] parent@.contains_key(x) ==>
                visited.contains(parent@[x]) && g.contains((parent@[x], x))
                    && depth.contains_key(parent@[x]) && depth[x] == depth[parent@[x]] + 1,
            forall|x: LockId| visited.contains(x) ==> #[trigger] depth.contains_key(x),
        ensures
            is_path_between(g, r@, start, end),
    {
        let mut back: Vec<LockId> = Vec::new();
        let mut node = end;
        back.push(node);
        loop
            invariant
                visited.contains(node),
                parent@.dom() == visited.remove(start),
                forall|x: LockId| #[trigger] parent@.contains_key(x) ==>
                    visited.contains(parent@[x]) && g.contains((parent@[x], x))
                        && depth.contains_key(parent@[x]) && depth[x] == depth[parent@[x]] + 1,
                forall|x: LockId| visited.contains(x) ==> #[trigger] depth.contains_key(x),
                back@.len() >= 1,
                back@[0] == end,
                back@[back@.len() - 1] == node,
                forall|i: int| 0 <= i < back@.len() - 1 ==> #[trigger] g.contains((back@[i + 1], back@[i])),
            ensures
                node == start,
                back@.len() >= 1,
                back@[0] == end,
                back@[back@.len() - 1] == start,
                forall|i: int| 0 <= i < back@.len() - 1 ==> #[trigger] g.contains((back@[i + 1], back@[i])),
            decreases depth[node],
        {
            match fx::map_get(parent, node) {
                Some(prev) => {
                    let prev = *prev;
                    let ghost b0 = back@;
                    back.push(prev);
                    assert(g.contains((back@[b0.len() as int], back@[b0.len() - 1])));
                    node = prev;
                },
                None => {
                    break;
                },
            }
        }
        let mut path: Vec<LockId> = Vec::new();
        let mut k: usize = back.len();
        while k > 0
            invariant
                0 <= k <= back@.len(),
                back@.len() >= 1,
                path@.len() == back@.len() - k,
                forall|i: int| 0 <= i < path@.len() ==> path@[i] == back@[back@.len() - 1 - i],
            decreases k,
        {
            k = k - 1;
            path.push(back[k]);
        }
        assert forall|i: int| 0 <= i < path@.len() - 1 implies #[trigger] g.contains((path@[i], path@[i + 1])) by {
            let j = back@.len() - 2 - i;
            assert(g.contains((back@[j + 1], back@[j])));
        }
        path
    }

    /// Removes every edge that involves `lock_id` (the lock is destroyed).
    /// The cache and the generation are left as they are.
    pub fn remove_lock(&mut self, lock_id: LockId)
        requires
            old(self).wf(),
        ensures
            final(self).wf(),
            final(self)@ == drop_node(old(self)@, lock_id),
            final(self).cycle_cache@.dom() == Set::<(LockId, LockId)>::empty(),
            final(self).generation == old(self).generation,
    {
        let ghost g0 = self@;
        match fx::map_remove(&mut self.edges, lock_id) {
            Some(successors_set) => {
                let successors = fx::set_to_vec(&successors_set);
                let mut i: usize = 0;
                while i < successors.len()
                    invariant
                        0 <= i <= successors.len(),
                        successors@.to_set() == successors_set@,
                        finite_keys(self.edges),
                        finite_keys(self.reverse_edges),
                        self.edges@ == old(self).edges@.remove(lock_id),
                        old(self).wf(),
                        self.cycle_cache == old(self).cycle_cache,
                        self.generation == old(self).generation,
                        forall|e: (LockId, LockId)| #[trigger] pairs(self.reverse_edges).contains(e)
                            == (pairs(old(self).reverse_edges).contains(e) && !(e.1 == lock_id && successors@.subrange(0, i as int).contains(e.0))),
                        forall|e: LockOrderEdge| #[trigger] self.all_edges@.contains(e)
                            == (old(self).all_edges@.contains(e) && !(e.before == lock_id && successors@.subrange(0, i as int).contains(e.after))),
                    decreases successors.len() - i,
                {
                    let successor = successors[i];
                    rel_remove_keep(&mut self.reverse_edges, successor, lock_id);
                    edge_set_remove(&mut self.all_edges, LockOrderEdge { before: lock_id, after: successor });
                    proof {
                        let ip: int = i + 1;
                        assert(successors@.subrange(0, ip) == successors@.subrange(0, i as int).push(successor));
                        lemma_push_contains(successors@.subrange(0, i as int), successor);
                    }
                    i = i + 1;
                }
                assert(successors@.subrange(0, successors@.len() as int) == successors@);
                assert forall|e: (LockId, LockId)| #[trigger] pairs(self.reverse_edges).contains(e)
                    == (pairs(old(self).reverse_edges).contains(e) && e.1 != lock_id) by {
                    if e.1 == lock_id && pairs(old(self).reverse_edges).contains(e) {
                        assert(pairs(old(self).edges).contains((e.1, e.0)));
                        assert(successors_set@.contains(e.0));
                        assert(successors@.to_set().contains(e.0));
                    }
                }
                assert forall|e: LockOrderEdge| #[trigger] self.all_edges@.contains(e)
                    == (old(self).all_edges@.contains(e) && e.before != lock_id) by {
                    if e.before == lock_id && old(self).all_edges@.contains(e) {
                        assert(pairs(old(self).edges).contains((e.before, e.after)));
                        assert(successors_set@.contains(e.after));
                        assert(successors@.to_set().contains(e.after));
                    }
                }
            },
            None => {
                assert forall|e: (LockId, LockId)| #[trigger] pairs(self.reverse_edges).contains(e)
                    == (pairs(old(self).reverse_edges).contains(e) && e.1 != lock_id) by {
                    if e.1 == lock_id && pairs(old(self).reverse_edges).contains(e) {
                        assert(pairs(old(self).edges).contains((e.1, e.0)));
                    }
                }
                assert forall|e: LockOrderEdge| #[trigger] self.all_edges@.contains(e)
                    == (old(self).all_edges@.contains(e) && e.before != lock_id) by {
                    if e.before == lock_id && old(self).all_edges@.contains(e) {
                        assert(pairs(old(self).edges).contains((e.before, e.after)));
                    }
                }
            },
        }
        assert forall|e: (LockId, LockId)| #[trigger] pairs(self.edges).contains(e)
            == (pairs(old(self).edges).contains(e) && e.0 != lock_id) by {
            if e.0 != lock_id {
                assert(self.edges@.contains_key(e.0) == old(self).edges@.contains_key(e.0));
            }
        }
        let ghost s1 = *self;
        match fx::map_remove(&mut self.reverse_edges, lock_id) {
            Some(predecessors_set) => {
                let predecessors = fx::set_to_vec(&predecessors_set);
                let mut i: usize = 0;
                while i < predecessors.len()
                    invariant
                        0 <= i <= predecessors.len(),
                        predecessors@.to_set() == predecessors_set@,
                        finite_keys(self.edges),
                        finite_keys(self.reverse_edges),
                        self.reverse_edges@ == s1.reverse_edges@.remove(lock_id),
                        self.cycle_cache == old(self).cycle_cache,
                        self.generation == old(self).generation,
                        forall|e: (LockId, LockId)| #[trigger] pairs(self.edges).contains(e)
                            == (pairs(s1.edges).contains(e) && !(e.1 == lock_id && predecessors@.subrange(0, i as int).contains(e.0))),
                        forall|e: LockOrderEdge| #[trigger] self.all_edges@.contains(e)
                            == (s1.all_edges@.contains(e) && !(e.after == lock_id && predecessors@.subrange(0, i as int).contains(e.before))),
                    decreases predecessors.len() - i,
                {
                    let predecessor = predecessors[i];
                    rel_remove_keep(&mut self.edges, predecessor, lock_id);
                    edge_set_remove(&mut self.all_edges, LockOrderEdge { before: predecessor, after: lock_id });
                    proof {
                        let ip: int = i + 1;
                        assert(predecessors@.subrange(0, ip) == predecessors@.subrange(0, i as int).push(predecessor));
                        lemma_push_contains(predecessors@.subrange(0, i as int), predecessor);
                    }
                    i = i + 1;
                }
                assert(predecessors@.subrange(0, predecessors@.len() as int) == predecessors@);
                assert forall|e: (LockId, LockId)| #[trigger] pairs(self.edges).contains(e)
                    == (pairs(s1.edges).contains(e) && e.1 != lock_id) by {
                    if e.1 == lock_id && pairs(s1.edges).contains(e) {
                        assert(pairs(old(self).edges).contains(e));
                        assert(pairs(old(self).reverse_edges).contains((e.1, e.0)));
                        assert(pairs(s1.reverse_edges).contains((e.1, e.0)));
                        assert(predecessors_set@.contains(e.0));
                        assert(predecessors@.to_set().contains(e.0));
                    }
                }
                assert forall|e: LockOrderEdge| #[trigger] self.all_edges@.contains(e)
                    == (s1.all_edges@.contains(e) && e.after != lock_id) by {
                    if e.after == lock_id && s1.all_edges@.contains(e) {
                        assert(old(self).all_edges@.contains(e));
                        assert(pairs(old(self).edges).contains((e.before, e.after)));
                        assert(pairs(old(self).reverse_edges).contains((e.after, e.before)));
                        assert(pairs(s1.reverse_edges).contains((e.after, e.before)));
                        assert(predecessors_set@.contains(e.before));
                        assert(predecessors@.to_set().contains(e.before));
                    }
                }
            },
            None => {
                assert forall|e: (LockId, LockId)| #[trigger] pairs(self.edges).contains(e)
                    == (pairs(s1.edges).contains(e) && e.1 != lock_id) by {
                    if e.1 == lock_id && pairs(s1.edges).contains(e) {
                        assert(pairs(old(self).edges).contains(e));
                        assert(pairs(old(self).reverse_edges).contains((e.1, e.0)));
                        assert(pairs(s1.reverse_edges).contains((e.1, e.0)));
                    }
                }
                assert forall|e: LockOrderEdge| #[trigger] self.all_edges@.contains(e)
                    == (s1.all_edges@.contains(e) && e.after != lock_id) by {
                    if e.after == lock_id && s1.all_edges@.contains(e) {
                        assert(old(self).all_edges@.contains(e));
                        assert(pairs(old(self).edges).contains((e.before, e.after)));
                        assert(pairs(old(self).reverse_edges).contains((e.after, e.before)));
                        assert(pairs(s1.reverse_edges).contains((e.after, e.before)));
                    }
                }
            },
        }
        assert forall|e: (LockId, LockId)| #[trigger] pairs(self.reverse_edges).contains(e)
            == (pairs(s1.reverse_edges).contains(e) && e.0 != lock_id) by {
            if e.0 != lock_id {
                assert(self.reverse_edges@.contains_key(e.0) == s1.reverse_edges@.contains_key(e.0));
            }
        }
        proof {
            assert forall|a: LockId, b: LockId|
                #[trigger] pairs(self.edges).contains((a, b)) <==> pairs(self.reverse_edges).contains((b, a)) by {
                assert(pairs(old(self).edges).contains((a, b)) == pairs(old(self).reverse_edges).contains((b, a)));
                assert(pairs(s1.edges).contains((a, b)) == (pairs(old(self).edges).contains((a, b)) && a != lock_id));
                assert(pairs(s1.reverse_edges).contains((b, a)) == (pairs(old(self).reverse_edges).contains((b, a)) && a != lock_id));
            }
            assert forall|e: LockOrderEdge| #[trigger] self.all_edges@.contains(e) <==> pairs(self.edges).contains((e.before, e.after)) by {
                assert(old(self).all_edges@.contains(e) == pairs(old(self).edges).contains((e.before, e.after)));
            }
            assert(self@ =~= drop_node(g0, lock_id));
            lemma_subset_keeps_acyclic(self@, g0);
        }
        fx::pmap_clear(&mut self.cycle_cache);
    }

    /// Every recorded edge.
    pub fn get_all_edges(&self) -> (r: &FxHashSet<LockOrderEdge>)
        ensures
            r == &self.all_edges,
    {
        &self.all_edges
    }

    /// Whether `before -> after` is an edge.
    pub fn has_edge(&self, before: LockId, after: LockId) -> (r: bool)
        ensures
            r == self@.contains((before, after)),
    {
        rel_contains(&self.edges, before, after)
    }

    /// Removes every edge, empties the cache and restarts the generation count.
    pub fn clear(&mut self)
        requires
            old(self).wf(),
        ensures
            final(self).wf(),
            final(self)@ == Set::<(LockId, LockId)>::empty(),
            final(self).cycle_cache@.dom() == Set::<(LockId, LockId)>::empty(),
            final(self).generation == 0,
    {
        fx::map_clear(&mut self.edges);
        fx::map_clear(&mut self.reverse_edges);
        edge_set_clear(&mut self.all_edges);
        fx::pmap_clear(&mut self.cycle_cache);
        self.generation = 0;
        assert(self@ =~= Set::<(LockId, LockId)>::empty());
        assert(pairs(self.reverse_edges) =~= Set::<(LockId, LockId)>::empty());
    }
}

} // verus!

verus! {

/// Law: recording an acquisition order never makes the lock order graph
/// cyclic. Whatever the cache holds, the edge `before -> after` (between two
/// different locks) is refused, with an order cycle through the graph,
/// exactly when `after` already reaches `before`; otherwise it is recorded.
pub proof fn law_add_edge_keeps_order_acyclic(g0: LockOrderGraph, before: LockId, after: LockId,
    g1: LockOrderGraph, r: Option<Seq<LockId>>)
    requires
        g0.wf(),
        g0.adds_edge(before, after, g1, r),
    ensures
        acyclic(g1@),
        before != after ==> (r is Some <==> reachable(g0@, after, before)),
        r matches Some(c) ==> is_order_cycle(g0@, c, before, after) && g1@ == g0@,
        r is None ==> g1@ == (if before == after { g0@ } else { g0@.insert((before, after)) }),
{
    if before != after && r is None {
        lemma_insert_keeps_acyclic(g0@, before, after);
    }
}

} // verus!
