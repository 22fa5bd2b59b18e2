//! A simpler detector that tracks one kind of lock through five hooks:
//! creation, destruction, attempt, acquisition and release.
use vstd::prelude::*;
use fxhash::FxHashMap;
use crate::fx;
use crate::graph::wait_for_graph::WaitForGraph;
use crate::detector::condvar::add_edge_result;
use crate::detector::mutex::creator_of;
use crate::detector::deadlock_handling::now_rfc3339;
use crate::paths::{drop_node, drop_second};
use crate::relation::{Relation, pairs, image, finite_keys, rel_image, rel_contains, rel_insert, rel_remove};
use crate::types::{DeadlockInfo, DeadlockSource, EventRecord, Events, LockId, ThreadId};

verus! {

broadcast use crate::relation::lemma_pairs_image;

/// Tracks owners, waits and holdings of locks, and the wait-for graph built from them.
pub struct SimpleDetector {
    /// Which threads wait for which other threads.
    pub wait_for_graph: WaitForGraph,
    /// The owner of each held lock.
    pub lock_owners: FxHashMap<LockId, ThreadId>,
    /// The lock each waiting thread is trying to acquire.
    pub thread_waits_for: FxHashMap<ThreadId, LockId>,
    /// The locks each thread holds.
    pub thread_holds: Relation,
    /// Tracked events not yet handed to the event log.
    pub events: Vec<EventRecord>,
}

/// The wait entries `(thread, lock)` of `waits`.
pub open spec fn wait_pairs(waits: Map<ThreadId, LockId>) -> Set<(ThreadId, LockId)> {
    Set::new(|e: (ThreadId, LockId)| waits.contains_key(e.0) && waits[e.0] == e.1)
}

/// The waits of `waits` except those for `lock_id` and those for the lock id 0.
pub open spec fn waits_without(waits: Map<ThreadId, LockId>, lock_id: LockId) -> Map<ThreadId, LockId> {
    waits.restrict(waits.dom().filter(|t: ThreadId| waits[t] != lock_id && waits[t] != 0))
}

impl SimpleDetector {
    /// The internal indexes are consistent.
    pub open spec fn wf(&self) -> bool {
        &&& self.wait_for_graph.wf()
        &&& finite_keys(self.thread_holds)
    }

    /// Some lock is held by every thread of `c`.
    pub open spec fn shares_lock(&self, c: Seq<ThreadId>) -> bool {
        exists|l: LockId| #[trigger] self.all_hold(c, l)
    }

    /// Creates a detector with nothing tracked.
    pub fn new() -> (r: SimpleDetector)
        ensures
            r.wf(),
            r.wait_for_graph@ == Set::<(ThreadId, ThreadId)>::empty(),
            r.lock_owners@.dom() == Set::<LockId>::empty(),
            r.thread_waits_for@.dom() == Set::<ThreadId>::empty(),
            pairs(r.thread_holds) == Set::<(ThreadId, LockId)>::empty(),
            r.events@ == Seq::<EventRecord>::empty(),
    {
        let r = SimpleDetector {
            wait_for_graph: WaitForGraph::new(),
            lock_owners: fx::map_new(),
            thread_waits_for: fx::map_new(),
            thread_holds: fx::map_new(),
            events: Vec::new(),
        };
        assert(pairs(r.thread_holds) =~= Set::<(ThreadId, LockId)>::empty());
        r
    }

    /// Records that `thread_id` was spawned by `parent_id` (when known).
    pub fn on_thread_spawn(&mut self, thread_id: ThreadId, parent_id: Option<ThreadId>)
        requires
            old(self).wf(),
        ensures
            final(self).wf(),
            final(self).events@ == old(self).events@.push(EventRecord::make(thread_id, 0, Events::ThreadSpawn, parent_id, None)),
            final(self).wait_for_graph@ == old(self).wait_for_graph@,
            final(self).wait_for_graph.edges@.contains_key(thread_id),
            final(self).lock_owners == old(self).lock_owners,
            final(self).thread_waits_for == old(self).thread_waits_for,
            final(self).thread_holds == old(self).thread_holds,
    {
        self.events.push(EventRecord::new(thread_id, 0, Events::ThreadSpawn, parent_id, None));
        self.wait_for_graph.add_node(thread_id);
    }

    /// Records that `thread_id` exits: its edges leave the graph and it holds no lock.
    pub fn on_thread_exit(&mut self, thread_id: ThreadId)
        requires
            old(self).wf(),
        ensures
            final(self).wf(),
            final(self).events@ == old(self).events@.push(EventRecord::make(thread_id, 0, Events::ThreadExit, None, None)),
            final(self).wait_for_graph@ == drop_node(old(self).wait_for_graph@, thread_id),
            final(self).thread_holds@ == old(self).thread_holds@.remove(thread_id),
            final(self).lock_owners == old(self).lock_owners,
            final(self).thread_waits_for == old(self).thread_waits_for,
    {
        self.events.push(EventRecord::new(thread_id, 0, Events::ThreadExit, None, None));
        self.wait_for_graph.remove_thread(thread_id);
        fx::map_remove(&mut self.thread_holds, thread_id);
    }

    /// Records the creation of `lock_id` by `creator_id`, or by `current_thread`
    /// when no creator is given.
    pub fn on_lock_create(&mut self, lock_id: LockId, creator_id: Option<ThreadId>, current_thread: ThreadId)
        requires
            old(self).wf(),
        ensures
            final(self).wf(),
            final(self).events@ == old(self).events@.push(
                EventRecord::make(0, lock_id, Events::MutexSpawn, Some(creator_of(creator_id, current_thread)), None)),
            final(self).wait_for_graph == old(self).wait_for_graph,
            final(self).lock_owners == old(self).lock_owners,
            final(self).thread_waits_for == old(self).thread_waits_for,
            final(self).thread_holds == old(self).thread_holds,
    {
        let creator = match creator_id {
            Some(c) => c,
            None => current_thread,
        };
        self.events.push(EventRecord::new(0, lock_id, Events::MutexSpawn, Some(creator), None));
    }

    /// Forgets `lock_id`: its owner, the waits for it, and its place in every
    /// thread's held locks. Waits recorded for the lock id 0 are dropped too.
    pub fn on_lock_destroy(&mut self, lock_id: LockId)
        requires
            old(self).wf(),
        ensures
            final(self).wf(),
            final(self).lock_owners@ == old(self).lock_owners@.remove(lock_id),
            final(self).thread_waits_for@ == waits_without(old(self).thread_waits_for@, lock_id),
            pairs(final(self).thread_holds) == drop_second(pairs(old(self).thread_holds), lock_id),
            final(self).events@ == old(self).events@.push(EventRecord::make(0, lock_id, Events::MutexExit, None, None)),
            final(self).wait_for_graph == old(self).wait_for_graph,
    {
        fx::map_remove(&mut self.lock_owners, lock_id);
        let threads = fx::map_keys(&self.thread_waits_for);
        let ghost m0 = self.thread_waits_for@;
        let mut i: usize = 0;
        while i < threads.len()
            invariant
                0 <= i <= threads.len(),
                threads@.to_set() == m0.dom(),
                threads@.no_duplicates(),
                m0 == old(self).thread_waits_for@,
                self.thread_waits_for@ == m0.restrict(m0.dom().filter(|t: ThreadId|
                    !threads@.take(i as int).contains(t) || (m0[t] != lock_id && m0[t] != 0))),
                self.lock_owners@ == old(self).lock_owners@.remove(lock_id),
                self.wait_for_graph == old(self).wait_for_graph,
                self.thread_holds == old(self).thread_holds,
                self.events == old(self).events,
            decreases threads.len() - i,
        {
            let t = threads[i];
            proof {
                assert(threads@.take(i + 1) == threads@.take(i as int).push(t));
                crate::paths::lemma_push_contains(threads@.take(i as int), t);
                assert(threads@.to_set().contains(t)) by { assert(threads@.contains(t)); }
                assert(!threads@.take(i as int).contains(t)) by {
                    if threads@.take(i as int).contains(t) {
                        let m = choose|m: int| 0 <= m < i && threads@.take(i as int)[m] == t;
                        assert(threads@[m] == threads@[i as int]);
                    }
                }
            }
            let l = *fx::map_get(&self.thread_waits_for, t).unwrap();
            if l == lock_id || l == 0 {
                fx::map_remove(&mut self.thread_waits_for, t);
            }
            proof {
                assert(self.thread_waits_for@ =~= m0.restrict(m0.dom().filter(|x: ThreadId|
                    !threads@.take(i + 1).contains(x) || (m0[x] != lock_id && m0[x] != 0))));
            }
            i = i + 1;
        }
        proof {
            assert(threads@.take(threads@.len() as int) =~= threads@);
            assert(self.thread_waits_for@ =~= waits_without(old(self).thread_waits_for@, lock_id));
        }
        self.events.push(EventRecord::new(0, lock_id, Events::MutexExit, None, None));
        let holders = fx::map_keys(&self.thread_holds);
        let ghost p0 = pairs(self.thread_holds);
        let mut k: usize = 0;
        while k < holders.len()
            invariant
                0 <= k <= holders.len(),
                finite_keys(self.thread_holds),
                self.wait_for_graph == old(self).wait_for_graph,
                self.wait_for_graph.wf(),
                self.lock_owners@ == old(self).lock_owners@.remove(lock_id),
                self.thread_waits_for@ == waits_without(old(self).thread_waits_for@, lock_id),
                self.events@ == old(self).events@.push(EventRecord::make(0, lock_id, Events::MutexExit, None, None)),
                holders@.to_set() == old(self).thread_holds@.dom(),
                p0 == pairs(old(self).thread_holds),
                pairs(self.thread_holds) == p0.filter(|e: (ThreadId, LockId)| !(holders@.take(k as int).contains(e.0) && e.1 == lock_id)),
            decreases holders.len() - k,
        {
            let t = holders[k];
            crate::relation::rel_remove_keep(&mut self.thread_holds, t, lock_id);
            proof {
                assert(holders@.take(k + 1) == holders@.take(k as int).push(t));
                crate::paths::lemma_push_contains(holders@.take(k as int), t);
                assert(pairs(self.thread_holds) =~= p0.filter(|e: (ThreadId, LockId)| !(holders@.take(k + 1).contains(e.0) && e.1 == lock_id)));
            }
            k = k + 1;
        }
        proof {
            assert(holders@.take(holders@.len() as int) =~= holders@);
            assert forall|e: (ThreadId, LockId)| p0.contains(e) implies holders@.contains(e.0) by {
                assert(holders@.to_set().contains(e.0));
            }
            assert(pairs(self.thread_holds) =~= drop_second(pairs(old(self).thread_holds), lock_id));
        }
    }

    /// The wait entries of `thread_waits_for`, each once.
    fn all_waits(&self) -> (r: Vec<(ThreadId, LockId)>)
        ensures
            r@.to_set() == wait_pairs(self.thread_waits_for@),
            r@.no_duplicates(),
    {
        let threads = fx::map_keys(&self.thread_waits_for);
        let mut r: Vec<(ThreadId, LockId)> = Vec::new();
        let mut i: usize = 0;
        while i < threads.len()
            invariant
                0 <= i <= threads.len(),
                threads@.to_set() == self.thread_waits_for@.dom(),
                threads@.no_duplicates(),
                r@.len() == i,
                forall|k: int| 0 <= k < i ==> #[trigger] r@[k] == (threads@[k], self.thread_waits_for@[threads@[k]]),
            decreases threads.len() - i,
        {
            let t = threads[i];
            proof {
                assert(threads@.to_set().contains(t)) by { assert(threads@.contains(t)); }
            }
            let l = *fx::map_get(&self.thread_waits_for, t).unwrap();
            r.push((t, l));
            i = i + 1;
        }
        proof {
            assert forall|e: (ThreadId, LockId)| r@.to_set().contains(e) == wait_pairs(self.thread_waits_for@).contains(e) by {
                if r@.contains(e) {
                    let k = choose|k: int| 0 <= k < r@.len() && r@[k] == e;
                    assert(threads@.to_set().contains(threads@[k]));
                }
                if wait_pairs(self.thread_waits_for@).contains(e) {
                    assert(threads@.to_set().contains(e.0));
                    let k = choose|k: int| 0 <= k < threads@.len() && threads@[k] == e.0;
                    assert(r@[k] == e);
                }
            }
            assert(r@.to_set() =~= wait_pairs(self.thread_waits_for@));
            assert forall|a: int, b: int| 0 <= a < b < r@.len() implies r@[a] != r@[b] by {
                assert(r@[a].0 == threads@[a]);
                assert(r@[b].0 == threads@[b]);
            }
        }
        r
    }

    /// Whether some lock is held by every thread of `cycle`.
    fn common_lock(&self, cycle: &Vec<ThreadId>) -> (r: bool)
        requires
            cycle@.len() > 0,
        ensures
            r == self.shares_lock(cycle@),
    {
        let candidates = rel_image(&self.thread_holds, cycle[0]);
        let mut j: usize = 0;
        while j < candidates.len()
            invariant
                0 <= j <= candidates.len(),
                cycle@.len() > 0,
                candidates@.to_set() == image(self.thread_holds, cycle@[0]),
                forall|k: int| 0 <= k < j ==> !(#[trigger] self.all_hold(cycle@, candidates@[k])),
            decreases candidates.len() - j,
        {
            let l = candidates[j];
            let mut all = true;
            let mut i: usize = 1;
            while i < cycle.len()
                invariant
                    1 <= i <= cycle.len(),
                    all <==> forall|k: int| 1 <= k < i ==> #[trigger] image(self.thread_holds, cycle@[k]).contains(l),
                decreases cycle.len() - i,
            {
                let holds = rel_contains(&self.thread_holds, cycle[i], l);
                proof {
                    if holds {
                        assert forall|k: int| 1 <= k < i + 1 && (forall|k2: int| 1 <= k2 < i ==> #[trigger] image(self.thread_holds, cycle@[k2]).contains(l))
                            implies #[trigger] image(self.thread_holds, cycle@[k]).contains(l) by {
                            if k < i {
                                assert(image(self.thread_holds, cycle@[k]).contains(l));
                            }
                        }
                    }
                }
                if !holds {
                    all = false;
                }
                i = i + 1;
            }
            proof {
                assert(candidates@.contains(l));
                assert(image(self.thread_holds, cycle@[0]).contains(l));
            }
            if all {
                assert(self.all_hold(cycle@, l));
                return true;
            }
            assert(!self.all_hold(cycle@, l));
            j = j + 1;
        }
        proof {
            if self.shares_lock(cycle@) {
                let l = choose|l: LockId| #[trigger] self.all_hold(cycle@, l);
                assert(image(self.thread_holds, cycle@[0]).contains(l));
                assert(candidates@.to_set().contains(l));
                let k = choose|k: int| 0 <= k < candidates@.len() && candidates@[k] == l;
                assert(self.all_hold(cycle@, candidates@[k]));
            }
        }
        false
    }

    /// Every thread of `c` holds `l`.
    pub open spec fn all_hold(&self, c: Seq<ThreadId>, l: LockId) -> bool {
        forall|i: int| 0 <= i < c.len() ==> #[trigger] image(self.thread_holds, c[i]).contains(l)
    }

    /// Records an attempt of `thread_id` on `lock_id`. When the lock has an
    /// owner, the thread waits for it; if that closes a cycle whose threads
    /// hold no common lock, the deadlock is returned, with every recorded wait.
    pub fn on_lock_attempt(&mut self, thread_id: ThreadId, lock_id: LockId) -> (r: Option<DeadlockInfo>)
        requires
            old(self).wf(),
        ensures
            final(self).wf(),
            final(self).events@ == old(self).events@.push(EventRecord::make(thread_id, lock_id, Events::MutexAttempt, None, None)),
            !old(self).lock_owners@.contains_key(lock_id) ==> {
                &&& r is None
                &&& final(self).wait_for_graph == old(self).wait_for_graph
                &&& final(self).thread_waits_for == old(self).thread_waits_for
            },
            old(self).lock_owners@.contains_key(lock_id) ==> exists|found: Option<Vec<ThreadId>>|
                #![trigger add_edge_result(old(self).wait_for_graph@, thread_id, old(self).lock_owners@[lock_id], found)]
            {
                let owner = old(self).lock_owners@[lock_id];
                &&& add_edge_result(old(self).wait_for_graph@, thread_id, owner, found)
                &&& final(self).wait_for_graph@ == WaitForGraph::spec_add_edge(old(self).wait_for_graph@, thread_id, owner)
                &&& final(self).thread_waits_for@ == old(self).thread_waits_for@.insert(thread_id, lock_id)
                &&& match found {
                    None => r is None,
                    Some(c) => if old(self).shares_lock(c@) { r is None } else {
                        r matches Some(info) && info.source == DeadlockSource::WaitForGraph
                            && info.thread_cycle@ == c@
                            && info.thread_waiting_for_locks@.to_set() == wait_pairs(final(self).thread_waits_for@)
                            && info.thread_waiting_for_locks@.no_duplicates()
                            && info.lock_order_cycle is None
                    },
                }
            },
            final(self).lock_owners == old(self).lock_owners,
            final(self).thread_holds == old(self).thread_holds,
    {
        self.events.push(EventRecord::new(thread_id, lock_id, Events::MutexAttempt, None, None));
        let owner = match fx::map_get(&self.lock_owners, lock_id) {
            Some(o) => *o,
            None => {
                return None;
            },
        };
        fx::map_insert(&mut self.thread_waits_for, thread_id, lock_id);
        let ghost g0 = self.wait_for_graph@;
        let found = self.wait_for_graph.add_edge(thread_id, owner);
        let ghost fg = found;
        assert(add_edge_result(g0, thread_id, owner, fg));
        proof {
            assert(self.thread_holds == old(self).thread_holds);
            assert forall|c: Seq<ThreadId>| #[trigger] self.shares_lock(c) == old(self).shares_lock(c) by {
                assert forall|l: LockId| #![trigger self.all_hold(c, l)] #![trigger old(self).all_hold(c, l)]
                    self.all_hold(c, l) == old(self).all_hold(c, l) by {}
            }
        }
        match found {
            Some(cycle) => {
                if self.common_lock(&cycle) {
                    None
                } else {
                    let waits = self.all_waits();
                    Some(DeadlockInfo {
                        source: DeadlockSource::WaitForGraph,
                        thread_cycle: cycle,
                        thread_waiting_for_locks: waits,
                        lock_order_cycle: None,
                        timestamp: now_rfc3339(),
                    })
                }
            },
            None => None,
        }
    }

    /// Records that `thread_id` acquired `lock_id`: it becomes the owner and a
    /// holder, and stops waiting; its edges leave the wait-for graph.
    pub fn on_lock_acquired(&mut self, thread_id: ThreadId, lock_id: LockId)
        requires
            old(self).wf(),
        ensures
            final(self).wf(),
            final(self).events@ == old(self).events@.push(EventRecord::make(thread_id, lock_id, Events::MutexAcquired, None, None)),
            final(self).lock_owners@ == old(self).lock_owners@.insert(lock_id, thread_id),
            final(self).thread_waits_for@ == old(self).thread_waits_for@.remove(thread_id),
            final(self).wait_for_graph@ == drop_node(old(self).wait_for_graph@, thread_id),
            pairs(final(self).thread_holds) == pairs(old(self).thread_holds).insert((thread_id, lock_id)),
    {
        self.events.push(EventRecord::new(thread_id, lock_id, Events::MutexAcquired, None, None));
        fx::map_insert(&mut self.lock_owners, lock_id, thread_id);
        fx::map_remove(&mut self.thread_waits_for, thread_id);
        self.wait_for_graph.remove_thread(thread_id);
        rel_insert(&mut self.thread_holds, thread_id, lock_id);
    }

    /// Records that `thread_id` released `lock_id`: it stops being the owner
    /// (if it was) and a holder.
    pub fn on_lock_release(&mut self, thread_id: ThreadId, lock_id: LockId)
        requires
            old(self).wf(),
        ensures
            final(self).wf(),
            final(self).events@ == old(self).events@.push(EventRecord::make(thread_id, lock_id, Events::MutexReleased, None, None)),
            final(self).lock_owners@ == (if old(self).lock_owners@.contains_key(lock_id)
                && old(self).lock_owners@[lock_id] == thread_id {
                old(self).lock_owners@.remove(lock_id)
            } else {
                old(self).lock_owners@
            }),
            pairs(final(self).thread_holds) == pairs(old(self).thread_holds).remove((thread_id, lock_id)),
            final(self).thread_waits_for == old(self).thread_waits_for,
            final(self).wait_for_graph == old(self).wait_for_graph,
    {
        self.events.push(EventRecord::new(thread_id, lock_id, Events::MutexReleased, None, None));
        let is_owner = match fx::map_get(&self.lock_owners, lock_id) {
            Some(o) => *o == thread_id,
            None => false,
        };
        if is_owner {
            fx::map_remove(&mut self.lock_owners, lock_id);
        }
        rel_remove(&mut self.thread_holds, thread_id, lock_id);
    }
}

/// Records the creation of `lock_id` (see [`SimpleDetector::on_lock_create`]).
pub fn on_lock_create(detector: &mut SimpleDetector, lock_id: LockId, creator_id: Option<ThreadId>, current_thread: ThreadId)
    requires
        old(detector).wf(),
    ensures
        final(detector).wf(),
        final(detector).events@ == old(detector).events@.push(
            EventRecord::make(0, lock_id, Events::MutexSpawn, Some(creator_of(creator_id, current_thread)), None)),
        final(detector).wait_for_graph == old(detector).wait_for_graph,
        final(detector).lock_owners == old(detector).lock_owners,
        final(detector).thread_waits_for == old(detector).thread_waits_for,
        final(detector).thread_holds == old(detector).thread_holds,
{
    detector.on_lock_create(lock_id, creator_id, current_thread)
}

/// Forgets `lock_id` (see [`SimpleDetector::on_lock_destroy`]).
pub fn on_lock_destroy(detector: &mut SimpleDetector, lock_id: LockId)
    requires
        old(detector).wf(),
    ensures
        final(detector).wf(),
        final(detector).lock_owners@ == old(detector).lock_owners@.remove(lock_id),
        final(detector).thread_waits_for@ == waits_without(old(detector).thread_waits_for@, lock_id),
        pairs(final(detector).thread_holds) == drop_second(pairs(old(detector).thread_holds), lock_id),
        final(detector).events@ == old(detector).events@.push(EventRecord::make(0, lock_id, Events::MutexExit, None, None)),
        final(detector).wait_for_graph == old(detector).wait_for_graph,
{
    detector.on_lock_destroy(lock_id)
}

/// Records an attempt and returns the deadlock found, if any (see [`SimpleDetector::on_lock_attempt`]).
pub fn on_lock_attempt(detector: &mut SimpleDetector, thread_id: ThreadId, lock_id: LockId) -> (r: Option<DeadlockInfo>)
    requires
        old(detector).wf(),
    ensures
        final(detector).wf(),
        final(detector).events@ == old(detector).events@.push(EventRecord::make(thread_id, lock_id, Events::MutexAttempt, None, None)),
        !old(detector).lock_owners@.contains_key(lock_id) ==> {
            &&& r is None
            &&& final(detector).wait_for_graph == old(detector).wait_for_graph
            &&& final(detector).thread_waits_for == old(detector).thread_waits_for
        },
        old(detector).lock_owners@.contains_key(lock_id) ==> exists|found: Option<Vec<ThreadId>>|
            #![trigger add_edge_result(old(detector).wait_for_graph@, thread_id, old(detector).lock_owners@[lock_id], found)]
        {
            let owner = old(detector).lock_owners@[lock_id];
            &&& add_edge_result(old(detector).wait_for_graph@, thread_id, owner, found)
            &&& final(detector).wait_for_graph@ == WaitForGraph::spec_add_edge(old(detector).wait_for_graph@, thread_id, owner)
            &&& final(detector).thread_waits_for@ == old(detector).thread_waits_for@.insert(thread_id, lock_id)
            &&& match found {
                None => r is None,
                Some(c) => if old(detector).shares_lock(c@) { r is None } else {
                    r matches Some(info) && info.source == DeadlockSource::WaitForGraph
                        && info.thread_cycle@ == c@
                        && info.thread_waiting_for_locks@.to_set() == wait_pairs(final(detector).thread_waits_for@)
                        && info.thread_waiting_for_locks@.no_duplicates()
                        && info.lock_order_cycle is None
                },
            }
        },
        final(detector).lock_owners == old(detector).lock_owners,
        final(detector).thread_holds == old(detector).thread_holds,
{
    detector.on_lock_attempt(thread_id, lock_id)
}

/// Records an acquisition (see [`SimpleDetector::on_lock_acquired`]).
pub fn on_lock_acquired(detector: &mut SimpleDetector, thread_id: ThreadId, lock_id: LockId)
    requires
        old(detector).wf(),
    ensures
        final(detector).wf(),
        final(detector).events@ == old(detector).events@.push(EventRecord::make(thread_id, lock_id, Events::MutexAcquired, None, None)),
        final(detector).lock_owners@ == old(detector).lock_owners@.insert(lock_id, thread_id),
        final(detector).thread_waits_for@ == old(detector).thread_waits_for@.remove(thread_id),
        final(detector).wait_for_graph@ == drop_node(old(detector).wait_for_graph@, thread_id),
        pairs(final(detector).thread_holds) == pairs(old(detector).thread_holds).insert((thread_id, lock_id)),
{
    detector.on_lock_acquired(thread_id, lock_id)
}

/// Records a release (see [`SimpleDetector::on_lock_release`]).
pub fn on_lock_release(detector: &mut SimpleDetector, thread_id: ThreadId, lock_id: LockId)
    requires
        old(detector).wf(),
    ensures
        final(detector).wf(),
        final(detector).events@ == old(detector).events@.push(EventRecord::make(thread_id, lock_id, Events::MutexReleased, None, None)),
        final(detector).lock_owners@ == (if old(detector).lock_owners@.contains_key(lock_id)
            && old(detector).lock_owners@[lock_id] == thread_id {
            old(detector).lock_owners@.remove(lock_id)
        } else {
            old(detector).lock_owners@
        }),
        pairs(final(detector).thread_holds) == pairs(old(detector).thread_holds).remove((thread_id, lock_id)),
        final(detector).thread_waits_for == old(detector).thread_waits_for,
        final(detector).wait_for_graph == old(detector).wait_for_graph,
{
    detector.on_lock_release(thread_id, lock_id)
}

/// Records a thread spawn (see [`SimpleDetector::on_thread_spawn`]).
pub fn on_thread_spawn(detector: &mut SimpleDetector, thread_id: ThreadId, parent_id: Option<ThreadId>)
    requires
        old(detector).wf(),
    ensures
        final(detector).wf(),
        final(detector).events@ == old(detector).events@.push(EventRecord::make(thread_id, 0, Events::ThreadSpawn, parent_id, None)),
        final(detector).wait_for_graph@ == old(detector).wait_for_graph@,
        final(detector).wait_for_graph.edges@.contains_key(thread_id),
        final(detector).lock_owners == old(detector).lock_owners,
        final(detector).thread_waits_for == old(detector).thread_waits_for,
        final(detector).thread_holds == old(detector).thread_holds,
{
    detector.on_thread_spawn(thread_id, parent_id)
}

/// Records a thread exit (see [`SimpleDetector::on_thread_exit`]).
pub fn on_thread_exit(detector: &mut SimpleDetector, thread_id: ThreadId)
    requires
        old(detector).wf(),
    ensures
        final(detector).wf(),
        final(detector).events@ == old(detector).events@.push(EventRecord::make(thread_id, 0, Events::ThreadExit, None, None)),
        final(detector).wait_for_graph@ == drop_node(old(detector).wait_for_graph@, thread_id),
        final(detector).thread_holds@ == old(detector).thread_holds@.remove(thread_id),
        final(detector).lock_owners == old(detector).lock_owners,
        final(detector).thread_waits_for == old(detector).thread_waits_for,
{
    detector.on_thread_exit(thread_id)
}

} // verus!
