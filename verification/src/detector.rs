//! The deadlock detector: which threads hold, wait for and are woken from
//! which locks and condition variables, and the graphs built from that.
//!
//! 1. The detector keeps a graph of threads waiting for other threads.
//! 2. When a thread has to wait for a lock held by others, edges are added.
//! 3. When a lock is acquired or released, the graph is updated.
//! 4. A cycle in the graph is a deadlock; it is checked against the current
//!    owners before it is reported.
//!
//! Every tracked event is also appended to an event list that the caller
//! drains and writes to the log.

pub mod condvar;
pub mod deadlock_handling;
pub mod lock_hooks;
pub mod mutex;
pub mod rwlock;
pub mod thread;
pub mod wait;

use vstd::prelude::*;
use std::collections::VecDeque;
use fxhash::{FxHashMap, FxHashSet};
use crate::fx;
use crate::graph::lock_order_graph::{LockOrderGraph, adds_edges, adds_edges_from, cycle_shape, lemma_adds_edges_none, lemma_adds_edges_push, opt_seq};
use crate::graph::wait_for_graph::WaitForGraph;
use crate::relation::{Relation, pairs, image, finite_keys, no_empty, rel_image};
use crate::paths::drop_second;
use crate::types::{CondvarId, EventRecord, LockId, ThreadId};
use crate::detector::wait::WaitIntent;

verus! {

broadcast use crate::relation::lemma_pairs_image;

/// Main deadlock detector that maintains thread-lock relationships.
pub struct Detector {
    /// Which threads wait for which other threads.
    pub wait_for_graph: WaitForGraph,
    /// Lock acquisition order, when lock order checking is enabled.
    pub lock_order_graph: Option<LockOrderGraph>,
    /// The lock each waiting thread is trying to acquire, and how.
    pub thread_waits_for: FxHashMap<ThreadId, WaitIntent>,
    /// The locks each thread holds.
    pub thread_holds: Relation,
    /// The owner of each held mutex.
    pub mutex_owners: FxHashMap<LockId, ThreadId>,
    /// For each reader-writer lock, its readers and how many read guards each holds.
    pub rwlock_readers: FxHashMap<LockId, FxHashMap<ThreadId, usize>>,
    /// The writer of each write-locked reader-writer lock.
    pub rwlock_writer: FxHashMap<LockId, ThreadId>,
    /// For each condition variable, its waiting threads in order, with the mutex each will reacquire.
    pub cv_waiters: FxHashMap<CondvarId, VecDeque<(ThreadId, LockId)>>,
    /// For each thread waiting on a condition variable, the variable and the mutex.
    pub thread_wait_cv: FxHashMap<ThreadId, (CondvarId, LockId)>,
    /// Threads woken from a condition variable wait that have not reacquired their mutex yet.
    pub cv_woken: FxHashSet<ThreadId>,
    /// For each lock, the threads whose wait intent names it.
    pub lock_waiters: Relation,
    /// Tracked events not yet handed to the event log.
    pub events: Vec<EventRecord>,
}

/// The readers of a lock (the keys of its reader map), or none.
pub open spec fn readers_of(readers: Map<LockId, FxHashMap<ThreadId, usize>>, lock_id: LockId) -> Set<ThreadId> {
    if readers.contains_key(lock_id) { readers[lock_id]@.dom() } else { Set::empty() }
}

/// How many read guards `thread_id` holds on `lock_id`.
pub open spec fn read_count(readers: Map<LockId, FxHashMap<ThreadId, usize>>, lock_id: LockId, thread_id: ThreadId) -> nat {
    if readers.contains_key(lock_id) && readers[lock_id]@.contains_key(thread_id) {
        readers[lock_id]@[thread_id] as nat
    } else {
        0
    }
}

/// The keys of the held-lock map `holds` after `thread_id` gives up
/// `lock_id`: the thread's key goes once it holds no lock any more.
pub open spec fn holds_keys_after_release(holds: Relation, thread_id: ThreadId, lock_id: LockId) -> Set<ThreadId> {
    if image(holds, thread_id).remove(lock_id) == Set::<LockId>::empty() {
        holds@.dom().remove(thread_id)
    } else {
        holds@.dom()
    }
}

impl Detector {
    /// The detector's internal indexes agree with each other.
    pub open spec fn wf(&self) -> bool {
        &&& self.wait_for_graph.wf()
        &&& (self.lock_order_graph matches Some(g) ==> g.wf())
        &&& finite_keys(self.thread_holds)
        &&& finite_keys(self.lock_waiters)
        &&& no_empty(self.lock_waiters)
        &&& forall|l: LockId, t: ThreadId| #[trigger] pairs(self.lock_waiters).contains((l, t)) ==>
            self.thread_waits_for@.contains_key(t) && self.thread_waits_for@[t].lock_id == l
        &&& forall|l: LockId, t: ThreadId| #[trigger] read_count(self.rwlock_readers@, l, t) > 0
            || !readers_of(self.rwlock_readers@, l).contains(t)
    }

    /// The locks currently held by `thread_id`.
    pub open spec fn held(&self, thread_id: ThreadId) -> Set<LockId> {
        image(self.thread_holds, thread_id)
    }

    /// Everything but the waits and the wait-for graph is as in `other`.
    pub open spec fn same_except_waits(&self, other: &Detector) -> bool {
        &&& self.lock_order_graph == other.lock_order_graph
        &&& self.thread_holds == other.thread_holds
        &&& self.mutex_owners == other.mutex_owners
        &&& self.rwlock_readers == other.rwlock_readers
        &&& self.rwlock_writer == other.rwlock_writer
        &&& self.cv_waiters == other.cv_waiters
        &&& self.thread_wait_cv == other.thread_wait_cv
        &&& self.cv_woken == other.cv_woken
        &&& self.events == other.events
    }

    /// The condition variable bookkeeping is as in `other`.
    pub open spec fn same_condvars(&self, other: &Detector) -> bool {
        &&& self.cv_waiters == other.cv_waiters
        &&& self.thread_wait_cv == other.thread_wait_cv
        &&& self.cv_woken == other.cv_woken
    }

    /// The ownership of locks is as in `other`.
    pub open spec fn same_owners(&self, other: &Detector) -> bool {
        &&& self.thread_holds == other.thread_holds
        &&& self.mutex_owners == other.mutex_owners
        &&& self.rwlock_readers == other.rwlock_readers
        &&& self.rwlock_writer == other.rwlock_writer
    }

    /// Creates a detector with nothing tracked and lock order checking off.
    pub fn new() -> (r: Detector)
        ensures
            r.wf(),
            r.wait_for_graph@ == Set::<(ThreadId, ThreadId)>::empty(),
            r.lock_order_graph is None,
            r.thread_waits_for@.dom() == Set::<ThreadId>::empty(),
            pairs(r.thread_holds) == Set::<(ThreadId, LockId)>::empty(),
            r.mutex_owners@.dom() == Set::<LockId>::empty(),
            r.rwlock_readers@.dom() == Set::<LockId>::empty(),
            r.rwlock_writer@.dom() == Set::<LockId>::empty(),
            r.cv_waiters@.dom() == Set::<CondvarId>::empty(),
            r.thread_wait_cv@.dom() == Set::<ThreadId>::empty(),
            r.cv_woken@ == Set::<ThreadId>::empty(),
            pairs(r.lock_waiters) == Set::<(LockId, ThreadId)>::empty(),
            r.events@ == Seq::<EventRecord>::empty(),
    {
        let r = Detector {
            wait_for_graph: WaitForGraph::new(),
            lock_order_graph: None,
            thread_waits_for: fx::map_new(),
            thread_holds: fx::map_new(),
            mutex_owners: fx::map_new(),
            rwlock_readers: fx::map_new(),
            rwlock_writer: fx::map_new(),
            cv_waiters: fx::map_new(),
            thread_wait_cv: fx::map_new(),
            cv_woken: fx::set_new(),
            lock_waiters: fx::map_new(),
            events: Vec::new(),
        };
        assert(pairs(r.thread_holds) =~= Set::<(ThreadId, LockId)>::empty());
        assert(pairs(r.lock_waiters) =~= Set::<(LockId, ThreadId)>::empty());
        r
    }

    /// Hands out the tracked events not yet logged, oldest first, and forgets them.
    pub fn take_events(&mut self) -> (r: Vec<EventRecord>)
        requires
            old(self).wf(),
        ensures
            final(self).wf(),
            r@ == old(self).events@,
            final(self).events@ == Seq::<EventRecord>::empty(),
            final(self).wait_for_graph == old(self).wait_for_graph,
            final(self).thread_waits_for == old(self).thread_waits_for,
            final(self).lock_waiters == old(self).lock_waiters,
            final(self).lock_order_graph == old(self).lock_order_graph,
            final(self).same_owners(old(self)),
            final(self).same_condvars(old(self)),
    {
        let mut r: Vec<EventRecord> = Vec::new();
        std::mem::swap(&mut r, &mut self.events);
        r
    }

    /// The locks `thread_id` holds, in the holding set's own order.
    pub fn held_locks(&self, thread_id: ThreadId) -> (r: Vec<LockId>)
        ensures
            r@.to_set() == self.held(thread_id),
            r@.no_duplicates(),
    {
        rel_image(&self.thread_holds, thread_id)
    }

    /// Records in the lock order graph that each lock `thread_id` holds comes
    /// before `lock_id`, one held lock at a time, and stops at the first lock
    /// order violation, whose cycle of locks it returns. Does nothing when lock
    /// order checking is off.
    pub fn check_lock_order_violation(&mut self, thread_id: ThreadId, lock_id: LockId) -> (r: Option<Vec<LockId>>)
        requires
            old(self).wf(),
        ensures
            final(self).wf(),
            final(self).lock_order_graph is Some == old(self).lock_order_graph is Some,
            old(self).lock_order_graph is None ==> r is None,
            old(self).lock_order_graph matches Some(g0) ==> (final(self).lock_order_graph matches Some(g1)
                && adds_edges_from(g0, old(self).held(thread_id), lock_id, g1, opt_seq(r))),
            match r {
                Some(c) => exists|h: LockId| #[trigger] old(self).held(thread_id).contains(h)
                    && cycle_shape(Some(c@), h, lock_id),
                None => true,
            },
            final(self).wait_for_graph == old(self).wait_for_graph,
            final(self).thread_waits_for == old(self).thread_waits_for,
            final(self).lock_waiters == old(self).lock_waiters,
            final(self).events == old(self).events,
            final(self).same_owners(old(self)),
            final(self).same_condvars(old(self)),
    {
        let mut graph = match self.lock_order_graph.take() {
            Some(g) => g,
            None => {
                return None;
            },
        };
        let ghost g0 = graph;
        let held_locks = rel_image(&self.thread_holds, thread_id);
        let ghost s0 = *self;
        let mut i: usize = 0;
        proof {
            assert(held_locks@.take(0) =~= Seq::<LockId>::empty());
            lemma_adds_edges_none(g0, lock_id);
        }
        while i < held_locks.len()
            invariant
                graph.wf(),
                old(self).lock_order_graph == Some(g0),
                held_locks@.no_duplicates(),
                adds_edges(g0, held_locks@.take(i as int), lock_id, graph, None),
                0 <= i <= held_locks.len(),
                held_locks@.to_set() == old(self).held(thread_id),
                *self == s0,
                s0.lock_order_graph is None,
                s0.wait_for_graph == old(self).wait_for_graph,
                s0.thread_waits_for == old(self).thread_waits_for,
                s0.lock_waiters == old(self).lock_waiters,
                s0.events == old(self).events,
                s0.same_owners(old(self)),
                s0.same_condvars(old(self)),
                old(self).wf(),
                old(self).lock_order_graph is Some,
            decreases held_locks.len() - i,
        {
            let held_lock = held_locks[i];
            let ghost gb = graph;
            let res = graph.add_edge(held_lock, lock_id);
            proof {
                lemma_adds_edges_push(g0, held_locks@.take(i as int), held_lock, lock_id, gb, graph, opt_seq(res));
                assert(held_locks@.take(i as int).push(held_lock) =~= held_locks@.take(i + 1));
            }
            match res {
                Some(lock_cycle) => {
                    self.lock_order_graph = Some(graph);
                    proof {
                        assert(adds_edges_from(g0, old(self).held(thread_id), lock_id, graph, opt_seq(res))) by {
                            assert(adds_edges(g0, held_locks@.take(i + 1), lock_id, graph, opt_seq(res)));
                        }
                        assert(held_locks@.to_set().contains(held_lock)) by { assert(held_locks@.contains(held_lock)); }
                        assert(old(self).held(thread_id).contains(held_lock));
                    }
                    return Some(lock_cycle);
                },
                None => {},
            }
            i = i + 1;
        }
        proof {
            assert(held_locks@.take(held_locks@.len() as int) =~= held_locks@);
            assert(adds_edges(g0, held_locks@.take(i as int), lock_id, graph, None));
        }
        self.lock_order_graph = Some(graph);
        None
    }
}

impl Detector {
    /// Appends `rec` to the tracked events.
    pub fn record(&mut self, rec: EventRecord)
        requires
            old(self).wf(),
        ensures
            final(self).wf(),
            final(self).events@ == old(self).events@.push(rec),
            final(self).wait_for_graph == old(self).wait_for_graph,
            final(self).thread_waits_for == old(self).thread_waits_for,
            final(self).lock_waiters == old(self).lock_waiters,
            final(self).lock_order_graph == old(self).lock_order_graph,
            final(self).same_owners(old(self)),
            final(self).same_condvars(old(self)),
    {
        self.events.push(rec);
    }

    /// Records that `thread_id` holds `lock_id`.
    pub fn add_hold(&mut self, thread_id: ThreadId, lock_id: LockId)
        requires
            old(self).wf(),
        ensures
            final(self).wf(),
            pairs(final(self).thread_holds) == pairs(old(self).thread_holds).insert((thread_id, lock_id)),
            final(self).wait_for_graph == old(self).wait_for_graph,
            final(self).thread_waits_for == old(self).thread_waits_for,
            final(self).lock_waiters == old(self).lock_waiters,
            final(self).lock_order_graph == old(self).lock_order_graph,
            final(self).events == old(self).events,
            final(self).mutex_owners == old(self).mutex_owners,
            final(self).rwlock_readers == old(self).rwlock_readers,
            final(self).rwlock_writer == old(self).rwlock_writer,
            final(self).same_condvars(old(self)),
    {
        crate::relation::rel_insert(&mut self.thread_holds, thread_id, lock_id);
    }

    /// Records that `thread_id` no longer holds `lock_id`; a thread left with
    /// no lock loses its entry.
    pub fn remove_hold(&mut self, thread_id: ThreadId, lock_id: LockId)
        requires
            old(self).wf(),
        ensures
            final(self).wf(),
            pairs(final(self).thread_holds) == pairs(old(self).thread_holds).remove((thread_id, lock_id)),
            final(self).thread_holds@.dom() == holds_keys_after_release(old(self).thread_holds, thread_id, lock_id),
            final(self).wait_for_graph == old(self).wait_for_graph,
            final(self).thread_waits_for == old(self).thread_waits_for,
            final(self).lock_waiters == old(self).lock_waiters,
            final(self).lock_order_graph == old(self).lock_order_graph,
            final(self).events == old(self).events,
            final(self).mutex_owners == old(self).mutex_owners,
            final(self).rwlock_readers == old(self).rwlock_readers,
            final(self).rwlock_writer == old(self).rwlock_writer,
            final(self).same_condvars(old(self)),
    {
        crate::relation::rel_remove(&mut self.thread_holds, thread_id, lock_id);
        assert(self.thread_holds@.dom() =~= holds_keys_after_release(old(self).thread_holds, thread_id, lock_id));
    }

    /// Removes `lock_id` from the locks held by every thread.
    pub fn forget_held_lock(&mut self, lock_id: LockId)
        requires
            old(self).wf(),
        ensures
            final(self).wf(),
            pairs(final(self).thread_holds) == drop_second(pairs(old(self).thread_holds), lock_id),
            final(self).wait_for_graph == old(self).wait_for_graph,
            final(self).thread_waits_for == old(self).thread_waits_for,
            final(self).lock_waiters == old(self).lock_waiters,
            final(self).lock_order_graph == old(self).lock_order_graph,
            final(self).events == old(self).events,
            final(self).mutex_owners == old(self).mutex_owners,
            final(self).rwlock_readers == old(self).rwlock_readers,
            final(self).rwlock_writer == old(self).rwlock_writer,
            final(self).same_condvars(old(self)),
    {
        let threads = fx::map_keys(&self.thread_holds);
        let ghost p0 = pairs(self.thread_holds);
        let mut i: usize = 0;
        while i < threads.len()
            invariant
                self.wf(),
                0 <= i <= threads.len(),
                threads@.to_set() == old(self).thread_holds@.dom(),
                threads@.no_duplicates(),
                p0 == pairs(old(self).thread_holds),
                pairs(self.thread_holds) == p0.filter(|e: (ThreadId, LockId)| !(threads@.take(i as int).contains(e.0) && e.1 == lock_id)),
                self.wait_for_graph == old(self).wait_for_graph,
                self.thread_waits_for == old(self).thread_waits_for,
                self.lock_waiters == old(self).lock_waiters,
                self.lock_order_graph == old(self).lock_order_graph,
                self.events == old(self).events,
                self.mutex_owners == old(self).mutex_owners,
                self.rwlock_readers == old(self).rwlock_readers,
                self.rwlock_writer == old(self).rwlock_writer,
                self.same_condvars(old(self)),
            decreases threads.len() - i,
        {
            let t = threads[i];
            let ghost before = pairs(self.thread_holds);
            crate::relation::rel_remove_keep(&mut self.thread_holds, t, lock_id);
            proof {
                assert(threads@.take(i + 1) == threads@.take(i as int).push(t));
                crate::paths::lemma_push_contains(threads@.take(i as int), t);
                assert(pairs(self.thread_holds) =~= p0.filter(|e: (ThreadId, LockId)| !(threads@.take(i + 1).contains(e.0) && e.1 == lock_id)));
            }
            i = i + 1;
        }
        proof {
            assert(threads@.take(threads@.len() as int) =~= threads@);
            assert forall|e: (ThreadId, LockId)| p0.contains(e) implies threads@.contains(e.0) by {
                assert(old(self).thread_holds@.dom().contains(e.0));
                assert(threads@.to_set().contains(e.0));
            }
            assert(pairs(self.thread_holds) =~= drop_second(pairs(old(self).thread_holds), lock_id));
        }
    }
}

/// Applies the parts of the detector configuration that live in the detector:
/// lock order checking starts with an empty lock order graph when enabled.
pub fn init_detector(detector: &mut Detector, check_lock_order: bool)
    requires
        old(detector).wf(),
    ensures
        final(detector).wf(),
        check_lock_order ==> (final(detector).lock_order_graph matches Some(g)
            && g@ == Set::<(LockId, LockId)>::empty() && g.cycle_cache@.dom() == Set::<(LockId, LockId)>::empty()),
        !check_lock_order ==> final(detector).lock_order_graph == old(detector).lock_order_graph,
        final(detector).wait_for_graph == old(detector).wait_for_graph,
        final(detector).thread_waits_for == old(detector).thread_waits_for,
        final(detector).lock_waiters == old(detector).lock_waiters,
        final(detector).events == old(detector).events,
        final(detector).same_owners(old(detector)),
        final(detector).same_condvars(old(detector)),
{
    if check_lock_order {
        detector.lock_order_graph = Some(LockOrderGraph::new());
    }
}

} // verus!
