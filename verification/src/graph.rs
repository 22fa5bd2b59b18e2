//! Directed graphs over thread and lock identifiers used for deadlock detection.
//!
//! This file holds the simple wait-for graph, which records every edge it
//! is given and finds cycles by depth-first search on request; its
//! submodules hold the wait-for graph that checks each edge as it is
//! proposed, and the lock order graph.

pub mod lock_order_graph;
pub mod wait_for_graph;

use vstd::prelude::*;
use std::collections::{HashMap, HashSet};
use crate::paths::{is_path_between, reachable, is_cycle, on_cycle, reaches_cycle, lemma_no_cycle_from_successors, lemma_reachable_refl};
use crate::types::ThreadId;

verus! {

broadcast use vstd::std_specs::hash::group_hash_axioms;

/// A directed graph of thread wait relationships: an edge `A -> B` means that
/// thread `A` waits for a lock held by thread `B`.
pub struct WaitForGraph {
    /// Maps a thread to all the threads it is waiting for.
    pub edges: HashMap<ThreadId, HashSet<ThreadId>>,
}

/// The pairs `(a, b)` with `b` in the set of `a`.
pub open spec fn edge_pairs(m: Map<ThreadId, HashSet<ThreadId>>) -> Set<(ThreadId, ThreadId)> {
    Set::new(|e: (ThreadId, ThreadId)| m.contains_key(e.0) && m[e.0]@.contains(e.1))
}

impl View for WaitForGraph {
    type V = Set<(ThreadId, ThreadId)>;

    /// The set of edges `(waiter, holder)`.
    open spec fn view(&self) -> Set<(ThreadId, ThreadId)> {
        edge_pairs(self.edges@)
    }
}

/// The keys of a map, collected.
fn keys_of(m: &HashMap<ThreadId, HashSet<ThreadId>>) -> (r: Vec<ThreadId>)
    ensures
        r@.to_set() == m@.dom(),
        r@.no_duplicates(),
{
    let mut r: Vec<ThreadId> = Vec::new();
    let ghost all = vstd::std_specs::iter::IteratorSpec::remaining(&m.keys());
    for k in it: m.keys()
        invariant
            it.seq() == all,
            all.unref().to_set() == m@.dom(),
            all.no_duplicates(),
            r@ == all.unref().take(it.index()),
    {
        r.push(*k);
    }
    assert(all.unref().take(all.len() as int) == all.unref());
    assert(r@.no_duplicates()) by {
        assert forall|i: int, j: int| 0 <= i < r@.len() && 0 <= j < r@.len() && i != j implies r@[i] != r@[j] by {
            assert(all[i] != all[j]);
        }
    }
    r
}

impl WaitForGraph {
    /// Every thread that is waited for also has an entry.
    pub open spec fn wf(&self) -> bool {
        forall|a: ThreadId, b: ThreadId| #[trigger] edge_pairs(self.edges@).contains((a, b)) ==> self.edges@.contains_key(b)
    }
}

/// The members of a set, collected.
fn members_of(s: &HashSet<ThreadId>) -> (r: Vec<ThreadId>)
    ensures
        r@.to_set() == s@,
        r@.no_duplicates(),
{
    let mut r: Vec<ThreadId> = Vec::new();
    let ghost all = vstd::std_specs::iter::IteratorSpec::remaining(&s.iter());
    for k in it: s.iter()
        invariant
            it.seq() == all,
            all.unref().to_set() == s@,
            all.no_duplicates(),
            r@ == all.unref().take(it.index()),
    {
        r.push(*k);
    }
    assert(all.unref().take(all.len() as int) == all.unref());
    assert(r@.no_duplicates()) by {
        assert forall|i: int, j: int| 0 <= i < r@.len() && 0 <= j < r@.len() && i != j implies r@[i] != r@[j] by {
            assert(all[i] != all[j]);
        }
    }
    r
}

impl WaitForGraph {
    /// Creates an empty wait-for graph.
    pub fn new() -> (r: WaitForGraph)
        ensures
            r.wf(),
            r@ == Set::<(ThreadId, ThreadId)>::empty(),
    {
        let r = WaitForGraph { edges: HashMap::new() };
        assert(r@ =~= Set::<(ThreadId, ThreadId)>::empty());
        r
    }

    /// Adds the edge `from -> to` (`from` waits for `to`); `to` gets an entry too.
    pub fn add_edge(&mut self, from: ThreadId, to: ThreadId)
        requires
            old(self).wf(),
        ensures
            final(self).wf(),
            final(self)@ == old(self)@.insert((from, to)),
            final(self).edges@.dom() == old(self).edges@.dom().insert(from).insert(to),
    {
        let mut targets = match self.edges.remove(&from) {
            Some(t) => t,
            None => HashSet::new(),
        };
        targets.insert(to);
        self.edges.insert(from, targets);
        if !self.edges.contains_key(&to) {
            self.edges.insert(to, HashSet::new());
        }
        assert(self@ =~= old(self)@.insert((from, to))) by {
            assert forall|e: (ThreadId, ThreadId)| self@.contains(e) == old(self)@.insert((from, to)).contains(e) by {
                if e.0 != from {
                    assert(self.edges@.contains_key(e.0) ==> (e.0 == to && !old(self).edges@.contains_key(to)) || self.edges@[e.0] == old(self).edges@[e.0]);
                }
            }
        }
        assert(self.edges@.dom() =~= old(self).edges@.dom().insert(from).insert(to));
    }

    /// Removes every edge that leaves or enters `thread_id`, and its entry.
    pub fn remove_thread(&mut self, thread_id: ThreadId)
        requires
            old(self).wf(),
        ensures
            final(self).wf(),
            final(self)@ == old(self)@.filter(|e: (ThreadId, ThreadId)| e.0 != thread_id && e.1 != thread_id),
            final(self).edges@.dom() == old(self).edges@.dom().remove(thread_id),
    {
        self.edges.remove(&thread_id);
        let keys = keys_of(&self.edges);
        let ghost m1 = self.edges@;
        let mut i: usize = 0;
        while i < keys.len()
            invariant
                0 <= i <= keys.len(),
                keys@.to_set() == m1.dom(),
                keys@.no_duplicates(),
                m1 == old(self).edges@.remove(thread_id),
                self.edges@.dom() == m1.dom(),
                forall|k: ThreadId| #[trigger] self.edges@.contains_key(k) && !keys@.subrange(0, i as int).contains(k)
                    ==> self.edges@[k] == m1[k],
                forall|k: ThreadId| #[trigger] self.edges@.contains_key(k) && keys@.subrange(0, i as int).contains(k)
                    ==> self.edges@[k]@ == m1[k]@.remove(thread_id),
            decreases keys.len() - i,
        {
            let k = keys[i];
            assert(keys@.to_set().contains(k)) by { assert(keys@.contains(k)); }
            let mut set = self.edges.remove(&k).unwrap();
            set.remove(&thread_id);
            self.edges.insert(k, set);
            proof {
                let ip: int = i + 1;
                assert(keys@.subrange(0, ip) == keys@.subrange(0, i as int).push(k));
                crate::paths::lemma_push_contains(keys@.subrange(0, i as int), k);
                assert(!keys@.subrange(0, i as int).contains(k)) by {
                    if keys@.subrange(0, i as int).contains(k) {
                        let j = choose|j: int| 0 <= j < i && keys@.subrange(0, i as int)[j] == k;
                        assert(keys@[j] == keys@[i as int]);
                    }
                }
                assert(self.edges@.dom() =~= m1.dom());
            }
            i = i + 1;
        }
        proof {
            assert(keys@.subrange(0, keys@.len() as int) == keys@);
            assert forall|k: ThreadId| #[trigger] self.edges@.contains_key(k) implies self.edges@[k]@ == m1[k]@.remove(thread_id) by {
                assert(keys@.to_set().contains(k));
                assert(keys@.contains(k));
            }
            assert(self@ =~= old(self)@.filter(|e: (ThreadId, ThreadId)| e.0 != thread_id && e.1 != thread_id));
            assert(self.edges@.dom() =~= old(self).edges@.dom().remove(thread_id));
        }
    }

    /// Looks for a cycle among the threads reachable from `start`, by depth-first search.
    ///
    /// Returns `Some(cycle)`, a cycle whose first thread `start` reaches, exactly
    /// when some thread reachable from `start` lies on a cycle.
    pub fn detect_cycle_from(&self, start: ThreadId) -> (r: Option<Vec<ThreadId>>)
        requires
            self.wf(),
        ensures
            r is Some <==> reaches_cycle(self@, start),
            match r {
                Some(c) => is_cycle(self@, c@) && reachable(self@, start, c@[0]),
                None => true,
            },
    {
        if !self.edges.contains_key(&start) {
            proof {
                if reaches_cycle(self@, start) {
                    let y = choose|y: ThreadId| #[trigger] reachable(self@, start, y) && on_cycle(self@, y);
                    let p = choose|p: Seq<ThreadId>| is_path_between(self@, p, start, y);
                    if p.len() > 1 {
                        let z0: int = 0;
                        assert(self@.contains((p[z0], p[z0 + 1])));
                    } else {
                        let z = choose|z: ThreadId| #[trigger] self@.contains((y, z)) && reachable(self@, z, y);
                    }
                }
            }
            return None;
        }
        let mut visited: HashSet<ThreadId> = HashSet::new();
        let mut path: Vec<ThreadId> = Vec::new();
        let mut path_set: HashSet<ThreadId> = HashSet::new();
        assert(path@.to_set() =~= path_set@);
        let r = self.dfs(start, &mut visited, &mut path, &mut path_set, Ghost(start));
        proof {
            if r is Some {
                let c = r->0;
                crate::paths::lemma_cycle_on_cycle(self@, c@);
                assert(reaches_cycle(self@, start));
            }
        }
        r
    }

    /// Depth-first search step at `current`; `path` holds the threads on the
    /// current search path from `root`, `visited` every thread searched so far.
    fn dfs(
        &self,
        current: ThreadId,
        visited: &mut HashSet<ThreadId>,
        path: &mut Vec<ThreadId>,
        path_set: &mut HashSet<ThreadId>,
        Ghost(root): Ghost<ThreadId>,
    ) -> (r: Option<Vec<ThreadId>>)
        requires
            self.wf(),
            old(visited)@.subset_of(self.edges@.dom()),
            self.edges@.contains_key(current),
            old(path)@.to_set() == old(path_set)@,
            old(path)@.no_duplicates(),
            old(path_set)@.subset_of(old(visited)@),
            old(path)@.len() == 0 ==> current == root,
            old(path)@.len() > 0 ==> is_path_between(self@, old(path)@, root, old(path)@[old(path)@.len() - 1])
                && self@.contains((old(path)@[old(path)@.len() - 1], current)),
            forall|b: ThreadId| old(visited)@.contains(b) && !old(path_set)@.contains(b) ==> !#[trigger] reaches_cycle(self@, b),
        ensures
            match r {
                Some(c) => is_cycle(self@, c@) && reachable(self@, root, c@[0]),
                None => {
                    &&& final(path)@ == old(path)@
                    &&& final(path_set)@ == old(path_set)@
                    &&& old(visited)@.subset_of(final(visited)@)
                    &&& final(visited)@.subset_of(self.edges@.dom())
                    &&& final(visited)@.contains(current)
                    &&& forall|b: ThreadId| final(visited)@.contains(b) && !final(path_set)@.contains(b) ==> !#[trigger] reaches_cycle(self@, b)
                    &&& !reaches_cycle(self@, current)
                },
            },
        decreases self.edges@.dom().difference(old(visited)@).len(),
    {
        let ghost g = self@;
        let ghost universe = self.edges@.dom();
        if path_set.contains(&current) {
            assert(path@.to_set().contains(current));
            let mut pos: usize = 0;
            while pos < path.len() && path[pos] != current
                invariant
                    0 <= pos <= path@.len(),
                    path@.contains(current),
                    forall|k: int| 0 <= k < pos ==> path@[k] != current,
                decreases path@.len() - pos,
            {
                pos = pos + 1;
            }
            assert(pos < path@.len()) by {
                if pos >= path@.len() {
                    let k = choose|k: int| 0 <= k < path@.len() && path@[k] == current;
                }
            }
            let mut cycle: Vec<ThreadId> = Vec::new();
            let mut k: usize = pos;
            while k < path.len()
                invariant
                    pos <= k <= path@.len(),
                    cycle@ == path@.subrange(pos as int, k as int),
                decreases path@.len() - k,
            {
                cycle.push(path[k]);
                k = k + 1;
            }
            proof {
                let n = path@.len();
                assert(n > 0);
                assert forall|i: int| 0 <= i < cycle@.len() - 1 implies #[trigger] g.contains((cycle@[i], cycle@[i + 1])) by {
                    assert(g.contains((path@[pos + i], path@[pos + i + 1])));
                }
                assert(cycle@[0] == current);
                assert(g.contains((cycle@[cycle@.len() - 1], cycle@[0])));
                let pre = path@.subrange(0, pos + 1);
                assert(is_path_between(g, pre, root, current)) by {
                    assert forall|i: int| 0 <= i < pre.len() - 1 implies #[trigger] g.contains((pre[i], pre[i + 1])) by {
                        assert(g.contains((path@[i], path@[i + 1])));
                    }
                }
            }
            return Some(cycle);
        }
        if visited.contains(&current) {
            return None;
        }
        let ghost visited0 = visited@;
        let ghost path0 = path@;
        let ghost path_set0 = path_set@;
        visited.insert(current);
        path.push(current);
        path_set.insert(current);
        proof {
            crate::paths::lemma_push_contains(path0, current);
            assert(path@.to_set() =~= path_set@);
            assert(!path0.contains(current)) by {
                if path0.contains(current) { assert(path0.to_set().contains(current)); }
            }
            assert(path@.no_duplicates()) by {
                assert forall|a: int, b: int| 0 <= a < b < path@.len() implies path@[a] != path@[b] by {
                    if b == path0.len() { assert(path0.contains(path0[a])); }
                }
            }
            assert(is_path_between(g, path@, root, current)) by {
                assert forall|i: int| 0 <= i < path@.len() - 1 implies #[trigger] g.contains((path@[i], path@[i + 1])) by {
                    if i < path0.len() - 1 {
                        assert(g.contains((path0[i], path0[i + 1])));
                    }
                }
            }
            universe.lemma_set_insert_diff_decreases(visited0, current);
        }
        let neighbors = members_of(self.edges.get(&current).unwrap());
        let mut j: usize = 0;
        while j < neighbors.len()
            invariant
                self.wf(),
                g == self@,
                universe == self.edges@.dom(),
                universe.finite(),
                self.edges@.contains_key(current),
                neighbors@.to_set() == self.edges@[current]@,
                0 <= j <= neighbors.len(),
                visited0 == old(visited)@,
                visited0.insert(current).subset_of(visited@),
                visited@.subset_of(universe),
                universe.difference(visited@).len() < universe.difference(visited0).len(),
                path@ == path0.push(current),
                path_set@ == path_set0.insert(current),
                path@.to_set() == path_set@,
                path@.no_duplicates(),
                path_set@.subset_of(visited@),
                is_path_between(g, path@, root, current),
                !path_set0.contains(current),
                forall|b: ThreadId| visited@.contains(b) && !path_set@.contains(b) ==> !#[trigger] reaches_cycle(g, b),
                forall|k: int| 0 <= k < j ==> !#[trigger] reaches_cycle(g, neighbors@[k]),
            decreases neighbors.len() - j,
        {
            let neighbor = neighbors[j];
            assert(neighbors@.to_set().contains(neighbor)) by { assert(neighbors@.contains(neighbor)); }
            assert(g.contains((current, neighbor)));
            let ghost vis_before = visited@;
            proof {
                assert(visited0 == old(visited)@);
                assert(universe.difference(visited@).len() < universe.difference(old(visited)@).len());
            }
            match self.dfs(neighbor, visited, path, path_set, Ghost(root)) {
                Some(cycle) => {
                    return Some(cycle);
                },
                None => {},
            }
            proof {
                crate::paths::lemma_len_difference_subset(universe, vis_before, visited@);
            }
            j = j + 1;
        }
        proof {
            assert forall|w: ThreadId| #[trigger] g.contains((current, w)) implies !reaches_cycle(g, w) by {
                assert(neighbors@.to_set().contains(w));
                let k = choose|k: int| 0 <= k < neighbors@.len() && neighbors@[k] == w;
            }
            lemma_no_cycle_from_successors(g, current);
        }
        path.pop();
        path_set.remove(&current);
        proof {
            assert(path@ =~= path0);
            assert(path_set@ =~= path_set0);
        }
        None
    }

    /// Looks for any cycle in the graph, trying every thread as a start.
    ///
    /// Returns `Some(cycle)` exactly when some thread lies on a cycle.
    pub fn detect_cycle(&self) -> (r: Option<Vec<ThreadId>>)
        requires
            self.wf(),
        ensures
            r is Some <==> exists|x: ThreadId| #[trigger] on_cycle(self@, x),
            match r {
                Some(c) => is_cycle(self@, c@),
                None => true,
            },
    {
        let keys = keys_of(&self.edges);
        let mut i: usize = 0;
        while i < keys.len()
            invariant
                self.wf(),
                0 <= i <= keys.len(),
                keys@.to_set() == self.edges@.dom(),
                forall|k: int| 0 <= k < i ==> !#[trigger] reaches_cycle(self@, keys@[k]),
            decreases keys.len() - i,
        {
            match self.detect_cycle_from(keys[i]) {
                Some(cycle) => {
                    proof {
                        crate::paths::lemma_cycle_on_cycle(self@, cycle@);
                    }
                    return Some(cycle);
                },
                None => {},
            }
            i = i + 1;
        }
        proof {
            assert forall|x: ThreadId| !#[trigger] on_cycle(self@, x) by {
                if on_cycle(self@, x) {
                    let z = choose|z: ThreadId| #[trigger] self@.contains((x, z)) && reachable(self@, z, x);
                    assert(keys@.to_set().contains(x));
                    let k = choose|k: int| 0 <= k < keys@.len() && keys@[k] == x;
                    lemma_reachable_refl(self@, x);
                    assert(reaches_cycle(self@, x));
                }
            }
        }
        None
    }
}

} // verus!
