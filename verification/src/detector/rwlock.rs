//! Reader-writer lock tracking: creation, destruction, shared and exclusive
//! acquisition and release.
use vstd::prelude::*;
use fxhash::FxHashMap;
use crate::detector::{Detector, holds_keys_after_release, readers_of, read_count};
use crate::detector::mutex::creator_of;
use crate::detector::wait::{WaitIntent, WaitMode, rewire, rewire_finds_cycle};
use crate::fx;
use crate::paths::{drop_edges_to, drop_node, drop_out_edges, drop_second, reachable};
use crate::relation::{pairs, image, rel_image};
use crate::types::{DeadlockInfo, DeadlockSource, EventRecord, Events, LockId, ThreadId};

verus! {

broadcast use crate::relation::lemma_pairs_image;

/// The reader counts after one more read guard of `thread_id` on `lock_id`.
pub open spec fn counts_after_read(readers: Map<LockId, FxHashMap<ThreadId, usize>>, lock_id: LockId, thread_id: ThreadId,
    after: Map<LockId, FxHashMap<ThreadId, usize>>) -> bool {
    &&& forall|l: LockId, t: ThreadId| #[trigger] read_count(after, l, t)
        == if l == lock_id && t == thread_id { read_count(readers, l, t) + 1 } else { read_count(readers, l, t) }
    &&& forall|l: LockId| #[trigger] readers_of(after, l)
        == if l == lock_id { readers_of(readers, l).insert(thread_id) } else { readers_of(readers, l) }
}

/// The reader counts after one read guard of `thread_id` on `lock_id` is
/// dropped (nothing changes when it held none): the thread leaves the lock's
/// readers with its last guard, and the lock's reader map goes once it has
/// no reader left.
pub open spec fn counts_after_unread(readers: Map<LockId, FxHashMap<ThreadId, usize>>, lock_id: LockId, thread_id: ThreadId,
    after: Map<LockId, FxHashMap<ThreadId, usize>>) -> bool {
    &&& forall|l: LockId, t: ThreadId| #[trigger] read_count(after, l, t)
        == if l == lock_id && t == thread_id && read_count(readers, l, t) > 0 {
            (read_count(readers, l, t) - 1) as nat
        } else {
            read_count(readers, l, t)
        }
    &&& forall|l: LockId| #[trigger] readers_of(after, l)
        == if l == lock_id && read_count(readers, l, thread_id) <= 1 {
            readers_of(readers, l).remove(thread_id)
        } else {
            readers_of(readers, l)
        }
    &&& forall|l: LockId| l != lock_id ==> #[trigger] after.contains_key(l) == readers.contains_key(l)
    &&& after.contains_key(lock_id) == (readers.contains_key(lock_id) && readers_of(after, lock_id) != Set::<ThreadId>::empty())
}

impl Detector {
    /// Counts one more read guard of `thread_id` on `lock_id`.
    fn add_reader(&mut self, thread_id: ThreadId, lock_id: LockId)
        requires
            old(self).wf(),
            read_count(old(self).rwlock_readers@, lock_id, thread_id) < usize::MAX,
        ensures
            final(self).wf(),
            counts_after_read(old(self).rwlock_readers@, lock_id, thread_id, final(self).rwlock_readers@),
            final(self).wait_for_graph == old(self).wait_for_graph,
            final(self).thread_waits_for == old(self).thread_waits_for,
            final(self).lock_waiters == old(self).lock_waiters,
            final(self).lock_order_graph == old(self).lock_order_graph,
            final(self).events == old(self).events,
            final(self).thread_holds == old(self).thread_holds,
            final(self).mutex_owners == old(self).mutex_owners,
            final(self).rwlock_writer == old(self).rwlock_writer,
            final(self).same_condvars(old(self)),
    {
        let mut readers = match fx::map_remove(&mut self.rwlock_readers, lock_id) {
            Some(r) => r,
            None => fx::map_new(),
        };
        let count: usize = match fx::map_get(&readers, thread_id) {
            Some(c) => *c,
            None => 0,
        };
        fx::map_insert(&mut readers, thread_id, count + 1);
        fx::map_insert(&mut self.rwlock_readers, lock_id, readers);
        proof {
            assert forall|l: LockId| #[trigger] readers_of(self.rwlock_readers@, l)
                == if l == lock_id { readers_of(old(self).rwlock_readers@, l).insert(thread_id) } else { readers_of(old(self).rwlock_readers@, l) } by {
                if l == lock_id {
                    assert(readers_of(self.rwlock_readers@, l) =~= readers_of(old(self).rwlock_readers@, l).insert(thread_id));
                }
            }
            assert forall|l: LockId, t: ThreadId| #[trigger] read_count(self.rwlock_readers@, l, t) > 0
                || !readers_of(self.rwlock_readers@, l).contains(t) by {
                assert(read_count(old(self).rwlock_readers@, l, t) > 0 || !readers_of(old(self).rwlock_readers@, l).contains(t));
            }
        }
    }

    /// Drops one read guard of `thread_id` on `lock_id`; a reader with no
    /// guard left stops being a reader, and a lock with no reader loses its
    /// entry. Returns whether `thread_id` still reads the lock.
    fn drop_reader(&mut self, thread_id: ThreadId, lock_id: LockId) -> (r: bool)
        requires
            old(self).wf(),
        ensures
            final(self).wf(),
            counts_after_unread(old(self).rwlock_readers@, lock_id, thread_id, final(self).rwlock_readers@),
            r == (read_count(final(self).rwlock_readers@, lock_id, thread_id) > 0),
            final(self).wait_for_graph == old(self).wait_for_graph,
            final(self).thread_waits_for == old(self).thread_waits_for,
            final(self).lock_waiters == old(self).lock_waiters,
            final(self).lock_order_graph == old(self).lock_order_graph,
            final(self).events == old(self).events,
            final(self).thread_holds == old(self).thread_holds,
            final(self).mutex_owners == old(self).mutex_owners,
            final(self).rwlock_writer == old(self).rwlock_writer,
            final(self).same_condvars(old(self)),
    {
        match fx::map_remove(&mut self.rwlock_readers, lock_id) {
            None => {
                proof {
                    assert(self.rwlock_readers@ =~= old(self).rwlock_readers@);
                    assert(readers_of(old(self).rwlock_readers@, lock_id).remove(thread_id) =~= readers_of(old(self).rwlock_readers@, lock_id));
                }
                false
            },
            Some(mut readers) => {
                match fx::map_get(&readers, thread_id) {
                    Some(c) => {
                        let count = *c;
                        if count <= 1 {
                            fx::map_remove(&mut readers, thread_id);
                        } else {
                            fx::map_insert(&mut readers, thread_id, count - 1);
                        }
                    },
                    None => {},
                }
                let still = fx::map_contains(&readers, thread_id);
                if !fx::map_is_empty(&readers) {
                    fx::map_insert(&mut self.rwlock_readers, lock_id, readers);
                }
                proof {
                    assert forall|l: LockId, t: ThreadId| #[trigger] read_count(self.rwlock_readers@, l, t)
                        == if l == lock_id && t == thread_id && read_count(old(self).rwlock_readers@, l, t) > 0 {
                            (read_count(old(self).rwlock_readers@, l, t) - 1) as nat
                        } else {
                            read_count(old(self).rwlock_readers@, l, t)
                        } by {
                        if l == lock_id && t != thread_id && old(self).rwlock_readers@.contains_key(l)
                            && old(self).rwlock_readers@[l]@.contains_key(t) {
                            assert(readers@.contains_key(t));
                        }
                    }
                    assert forall|l: LockId| #[trigger] readers_of(self.rwlock_readers@, l)
                        == if l == lock_id && read_count(old(self).rwlock_readers@, l, thread_id) <= 1 {
                            readers_of(old(self).rwlock_readers@, l).remove(thread_id)
                        } else {
                            readers_of(old(self).rwlock_readers@, l)
                        } by {
                        if l == lock_id {
                            assert(readers_of(self.rwlock_readers@, l) =~= (if read_count(old(self).rwlock_readers@, l, thread_id) <= 1 {
                                readers_of(old(self).rwlock_readers@, l).remove(thread_id)
                            } else {
                                readers_of(old(self).rwlock_readers@, l)
                            }));
                        }
                    }
                    assert forall|l: LockId, t: ThreadId| #[trigger] read_count(self.rwlock_readers@, l, t) > 0
                        || !readers_of(self.rwlock_readers@, l).contains(t) by {
                        assert(read_count(old(self).rwlock_readers@, l, t) > 0 || !readers_of(old(self).rwlock_readers@, l).contains(t));
                    }
                }
                still
            },
        }
    }

    /// Removes the edges from each thread waiting for `lock_id` to `thread_id`.
    fn remove_edges_to(&mut self, thread_id: ThreadId, lock_id: LockId)
        requires
            old(self).wf(),
        ensures
            final(self).wf(),
            final(self).wait_for_graph@ == drop_edges_to(old(self).wait_for_graph@, image(old(self).lock_waiters, lock_id), thread_id),
            final(self).thread_waits_for == old(self).thread_waits_for,
            final(self).lock_waiters == old(self).lock_waiters,
            final(self).same_except_waits(old(self)),
    {
        let waiters = rel_image(&self.lock_waiters, lock_id);
        let mut i: usize = 0;
        while i < waiters.len()
            invariant
                self.wf(),
                0 <= i <= waiters.len(),
                waiters@.to_set() == image(old(self).lock_waiters, lock_id),
                self.wait_for_graph@ == drop_edges_to(old(self).wait_for_graph@, waiters@.take(i as int).to_set(), thread_id),
                self.thread_waits_for == old(self).thread_waits_for,
                self.lock_waiters == old(self).lock_waiters,
                self.same_except_waits(old(self)),
            decreases waiters.len() - i,
        {
            let w = waiters[i];
            self.wait_for_graph.remove_edge(w, thread_id);
            proof {
                assert(waiters@.take(i + 1) == waiters@.take(i as int).push(w));
                crate::paths::lemma_push_contains(waiters@.take(i as int), w);
                assert(self.wait_for_graph@ =~= drop_edges_to(old(self).wait_for_graph@, waiters@.take(i + 1).to_set(), thread_id));
            }
            i = i + 1;
        }
        proof {
            assert(waiters@.take(waiters@.len() as int) =~= waiters@);
        }
    }

    /// Records the creation of the reader-writer lock `lock_id` by
    /// `creator_id`, or by `current_thread` when no creator is given.
    pub fn create_rwlock(&mut self, lock_id: LockId, creator_id: Option<ThreadId>, current_thread: ThreadId)
        requires
            old(self).wf(),
        ensures
            final(self).wf(),
            final(self).events@ == old(self).events@.push(
                EventRecord::make(0, lock_id, Events::RwSpawn, Some(creator_of(creator_id, current_thread)), None)),
            final(self).wait_for_graph == old(self).wait_for_graph,
            final(self).thread_waits_for == old(self).thread_waits_for,
            final(self).lock_waiters == old(self).lock_waiters,
            final(self).lock_order_graph == old(self).lock_order_graph,
            final(self).same_owners(old(self)),
            final(self).same_condvars(old(self)),
    {
        let creator = match creator_id {
            Some(c) => c,
            None => current_thread,
        };
        self.record(EventRecord::new(0, lock_id, Events::RwSpawn, Some(creator), None));
    }

    /// Forgets the reader-writer lock `lock_id`: its readers and writer, its
    /// place in every thread's held locks, in the lock order graph and in the
    /// waiter index. The wait intents that name it are kept.
    pub fn destroy_rwlock(&mut self, lock_id: LockId)
        requires
            old(self).wf(),
        ensures
            final(self).wf(),
            final(self).rwlock_writer@ == old(self).rwlock_writer@.remove(lock_id),
            final(self).rwlock_readers@ == old(self).rwlock_readers@.remove(lock_id),
            pairs(final(self).thread_holds) == drop_second(pairs(old(self).thread_holds), lock_id),
            match old(self).lock_order_graph {
                None => final(self).lock_order_graph is None,
                Some(g) => final(self).lock_order_graph matches Some(g2) && g2@ == drop_node(g@, lock_id)
                    && g2.cycle_cache@.dom() == Set::<(LockId, LockId)>::empty() && g2.generation == g.generation,
            },
            final(self).lock_waiters@ == old(self).lock_waiters@.remove(lock_id),
            final(self).events@ == old(self).events@.push(EventRecord::make(0, lock_id, Events::RwExit, None, None)),
            final(self).wait_for_graph == old(self).wait_for_graph,
            final(self).thread_waits_for == old(self).thread_waits_for,
            final(self).mutex_owners == old(self).mutex_owners,
            final(self).same_condvars(old(self)),
    {
        fx::map_remove(&mut self.rwlock_writer, lock_id);
        fx::map_remove(&mut self.rwlock_readers, lock_id);
        proof {
            assert forall|l: LockId, t: ThreadId| #[trigger] read_count(self.rwlock_readers@, l, t) > 0
                || !readers_of(self.rwlock_readers@, l).contains(t) by {
                assert(read_count(old(self).rwlock_readers@, l, t) > 0 || !readers_of(old(self).rwlock_readers@, l).contains(t));
            }
        }
        self.forget_held_lock(lock_id);
        match self.lock_order_graph.take() {
            Some(mut g) => {
                g.remove_lock(lock_id);
                self.lock_order_graph = Some(g);
            },
            None => {},
        }
        let ghost before = self.lock_waiters;
        fx::map_remove(&mut self.lock_waiters, lock_id);
        proof {
            assert forall|l: LockId, t: ThreadId| #[trigger] pairs(self.lock_waiters).contains((l, t))
                implies pairs(before).contains((l, t)) by {}
        }
        self.record(EventRecord::new(0, lock_id, Events::RwExit, None, None));
    }

    /// A non-blocking read attempt of `thread_id` on `lock_id`: `try_acquire_fn`
    /// is called once; when it succeeds the thread becomes a reader and holder,
    /// and the waiters of the lock, if any, are refreshed. A failed attempt
    /// leaves no wait behind. Returns what `try_acquire_fn` returned.
    pub fn try_read_nonblocking<T, F: FnOnce() -> Option<T>>(&mut self, thread_id: ThreadId, lock_id: LockId, try_acquire_fn: F)
        -> (r: Option<T>)
        requires
            old(self).wf(),
            call_requires(try_acquire_fn, ()),
            read_count(old(self).rwlock_readers@, lock_id, thread_id) < usize::MAX,
        ensures
            final(self).wf(),
            call_ensures(try_acquire_fn, (), r),
            r is None ==> final(self).events@ == old(self).events@.push(EventRecord::make(thread_id, lock_id, Events::RwReadAttempt, None, None))
                && final(self).rwlock_readers == old(self).rwlock_readers
                && final(self).thread_holds == old(self).thread_holds
                && final(self).wait_for_graph == old(self).wait_for_graph,
            r is Some ==> {
                &&& final(self).events@ == old(self).events@
                    .push(EventRecord::make(thread_id, lock_id, Events::RwReadAttempt, None, None))
                    .push(EventRecord::make(thread_id, lock_id, Events::RwReadAcquired, None, None))
                &&& counts_after_read(old(self).rwlock_readers@, lock_id, thread_id, final(self).rwlock_readers@)
                &&& pairs(final(self).thread_holds) == pairs(old(self).thread_holds).insert((thread_id, lock_id))
                &&& !old(self).lock_waiters@.contains_key(lock_id) ==> final(self).wait_for_graph == old(self).wait_for_graph
                &&& old(self).lock_waiters@.contains_key(lock_id) ==> exists|s1: Detector, rc: Option<Vec<ThreadId>>| {
                    &&& s1.wait_for_graph == old(self).wait_for_graph
                    &&& s1.rwlock_readers == final(self).rwlock_readers
                    &&& s1.thread_holds == final(self).thread_holds
                    &&& s1.mutex_owners == old(self).mutex_owners
                    &&& s1.rwlock_writer == old(self).rwlock_writer
                    &&& s1.thread_waits_for == old(self).thread_waits_for
                    &&& #[trigger] s1.refreshes(lock_id, *final(self), rc)
                }
            },
            final(self).thread_waits_for == old(self).thread_waits_for,
            final(self).lock_waiters == old(self).lock_waiters,
            final(self).mutex_owners == old(self).mutex_owners,
            final(self).rwlock_writer == old(self).rwlock_writer,
            final(self).lock_order_graph == old(self).lock_order_graph,
            final(self).same_condvars(old(self)),
    {
        self.record(EventRecord::new(thread_id, lock_id, Events::RwReadAttempt, None, None));
        let acquired = try_acquire_fn();
        if acquired.is_some() {
            self.add_reader(thread_id, lock_id);
            self.add_hold(thread_id, lock_id);
            self.record(EventRecord::new(thread_id, lock_id, Events::RwReadAcquired, None, None));
            if fx::map_contains(&self.lock_waiters, lock_id) {
                let ghost s1 = *self;
                let rc = self.refresh_waiters_for_lock(lock_id);
                assert(s1.refreshes(lock_id, *self, rc));
            }
        }
        acquired
    }

    /// Updates the detector once `thread_id` holds a read lock on `lock_id`
    /// after blocking: one more read guard, the lock is held, the wait is over.
    pub fn complete_read(&mut self, thread_id: ThreadId, lock_id: LockId)
        requires
            old(self).wf(),
            read_count(old(self).rwlock_readers@, lock_id, thread_id) < usize::MAX,
        ensures
            final(self).wf(),
            counts_after_read(old(self).rwlock_readers@, lock_id, thread_id, final(self).rwlock_readers@),
            pairs(final(self).thread_holds) == pairs(old(self).thread_holds).insert((thread_id, lock_id)),
            final(self).thread_waits_for@ == old(self).thread_waits_for@.remove(thread_id),
            pairs(final(self).lock_waiters) == drop_second(pairs(old(self).lock_waiters), thread_id),
            final(self).wait_for_graph@ == drop_out_edges(old(self).wait_for_graph@, thread_id),
            final(self).events@ == old(self).events@.push(EventRecord::make(thread_id, lock_id, Events::RwReadAcquired, None, None)),
            final(self).mutex_owners == old(self).mutex_owners,
            final(self).rwlock_writer == old(self).rwlock_writer,
            final(self).lock_order_graph == old(self).lock_order_graph,
            final(self).same_condvars(old(self)),
    {
        self.add_reader(thread_id, lock_id);
        self.add_hold(thread_id, lock_id);
        self.clear_wait_intent(thread_id);
        self.record(EventRecord::new(thread_id, lock_id, Events::RwReadAcquired, None, None));
    }

    /// Records that `thread_id` dropped a read guard of `lock_id`. When it was
    /// its last one, the thread no longer holds the lock and the edges from the
    /// lock's waiters to it are removed.
    pub fn release_read(&mut self, thread_id: ThreadId, lock_id: LockId)
        requires
            old(self).wf(),
        ensures
            final(self).wf(),
            final(self).events@ == old(self).events@.push(EventRecord::make(thread_id, lock_id, Events::RwReadReleased, None, None)),
            counts_after_unread(old(self).rwlock_readers@, lock_id, thread_id, final(self).rwlock_readers@),
            read_count(final(self).rwlock_readers@, lock_id, thread_id) > 0 ==> {
                &&& final(self).thread_holds == old(self).thread_holds
                &&& final(self).wait_for_graph == old(self).wait_for_graph
            },
            read_count(final(self).rwlock_readers@, lock_id, thread_id) == 0 ==> {
                &&& pairs(final(self).thread_holds) == pairs(old(self).thread_holds).remove((thread_id, lock_id))
                &&& final(self).thread_holds@.dom() == holds_keys_after_release(old(self).thread_holds, thread_id, lock_id)
                &&& final(self).wait_for_graph@
                    == drop_edges_to(old(self).wait_for_graph@, image(old(self).lock_waiters, lock_id), thread_id)
            },
            final(self).thread_waits_for == old(self).thread_waits_for,
            final(self).lock_waiters == old(self).lock_waiters,
            final(self).mutex_owners == old(self).mutex_owners,
            final(self).rwlock_writer == old(self).rwlock_writer,
            final(self).lock_order_graph == old(self).lock_order_graph,
            final(self).same_condvars(old(self)),
    {
        self.record(EventRecord::new(thread_id, lock_id, Events::RwReadReleased, None, None));
        let still_holds_read = self.drop_reader(thread_id, lock_id);
        if !still_holds_read {
            self.remove_hold(thread_id, lock_id);
            self.remove_edges_to(thread_id, lock_id);
        }
    }

    /// Records that `thread_id` released the write lock on `lock_id`: it stops
    /// being the writer (if it was) and a holder, and the edges from the
    /// lock's waiters to it are removed.
    pub fn release_write(&mut self, thread_id: ThreadId, lock_id: LockId)
        requires
            old(self).wf(),
        ensures
            final(self).wf(),
            final(self).events@ == old(self).events@.push(EventRecord::make(thread_id, lock_id, Events::RwWriteReleased, None, None)),
            final(self).rwlock_writer@ == (if old(self).rwlock_writer@.contains_key(lock_id)
                && old(self).rwlock_writer@[lock_id] == thread_id {
                old(self).rwlock_writer@.remove(lock_id)
            } else {
                old(self).rwlock_writer@
            }),
            pairs(final(self).thread_holds) == pairs(old(self).thread_holds).remove((thread_id, lock_id)),
            final(self).thread_holds@.dom() == holds_keys_after_release(old(self).thread_holds, thread_id, lock_id),
            final(self).wait_for_graph@
                == drop_edges_to(old(self).wait_for_graph@, image(old(self).lock_waiters, lock_id), thread_id),
            final(self).thread_waits_for == old(self).thread_waits_for,
            final(self).lock_waiters == old(self).lock_waiters,
            final(self).mutex_owners == old(self).mutex_owners,
            final(self).rwlock_readers == old(self).rwlock_readers,
            final(self).lock_order_graph == old(self).lock_order_graph,
            final(self).same_condvars(old(self)),
    {
        self.record(EventRecord::new(thread_id, lock_id, Events::RwWriteReleased, None, None));
        let is_writer = match fx::map_get(&self.rwlock_writer, lock_id) {
            Some(w) => *w == thread_id,
            None => false,
        };
        if is_writer {
            fx::map_remove(&mut self.rwlock_writer, lock_id);
        }
        self.remove_hold(thread_id, lock_id);
        self.remove_edges_to(thread_id, lock_id);
    }

    /// Whether the reader-writer lock `lock_id` has a reader or a writer.
    pub open spec fn rw_occupied(&self, lock_id: LockId) -> bool {
        readers_of(self.rwlock_readers@, lock_id) != Set::<ThreadId>::empty() || self.rwlock_writer@.contains_key(lock_id)
    }

    /// What a contended write attempt of `thread_id` on `lock_id` does (see
    /// [`Detector::acquire_write_slow`]): `after` is the detector afterwards
    /// and `r` the report.
    pub open spec fn contends_write(&self, thread_id: ThreadId, lock_id: LockId, potential_writer: Option<ThreadId>,
        after: Detector, r: Option<DeadlockInfo>) -> bool {
        exists|s1: Detector, lov: Option<DeadlockInfo>| {
            &&& s1.wf()
            &&& s1.events@ == self.events@.push(EventRecord::make(thread_id, lock_id, Events::RwWriteAttempt, None, None))
            &&& #[trigger] self.order_checks(thread_id, lock_id, s1, lov)
            &&& s1.wait_for_graph == self.wait_for_graph
            &&& s1.thread_waits_for == self.thread_waits_for
            &&& s1.lock_waiters == self.lock_waiters
            &&& s1.same_owners(self)
            &&& s1.same_condvars(self)
            &&& lov is Some ==> after == s1 && r == lov
            &&& lov is None ==> s1.write_wait(thread_id, lock_id, potential_writer, after, r)
        }
    }

    /// Records a contended write attempt of `thread_id` on `lock_id`, whose
    /// writer was seen as `potential_writer` (when known). The lock order is
    /// checked first, when enabled and the thread holds a lock; a violation is
    /// reported at once. Otherwise the seen writer becomes the recorded writer
    /// and, when the lock has a reader or a writer, the thread waits for them;
    /// a cycle met there is checked and reported.
    pub fn acquire_write_slow(&mut self, thread_id: ThreadId, lock_id: LockId, potential_writer: Option<ThreadId>)
        -> (r: Option<DeadlockInfo>)
        requires
            old(self).wf(),
        ensures
            final(self).wf(),
            old(self).contends_write(thread_id, lock_id, potential_writer, *final(self), r),
            potential_writer matches Some(w) ==> (!(r matches Some(info) && info.source == DeadlockSource::LockOrderViolation)
                ==> final(self).rwlock_writer@.contains_key(lock_id) && final(self).rwlock_writer@[lock_id] == w
                && final(self).thread_waits_for@.contains_key(thread_id)
                && final(self).thread_waits_for@[thread_id] == (WaitIntent { lock_id, mode: WaitMode::RwWrite })),
    {
        self.record(EventRecord::new(thread_id, lock_id, Events::RwWriteAttempt, None, None));
        let ghost s0 = *self;
        let lov = self.order_check(thread_id, lock_id);
        let ghost s1 = *self;
        assert(s0.order_checks(thread_id, lock_id, s1, lov));
        assert(old(self).order_checks(thread_id, lock_id, s1, lov));
        if lov.is_some() {
            assert(old(self).contends_write(thread_id, lock_id, potential_writer, *self, lov));
            return lov;
        }
        let r = self.wait_for_write(thread_id, lock_id, potential_writer);
        assert(s1.write_wait(thread_id, lock_id, potential_writer, *self, r));
        assert(old(self).contends_write(thread_id, lock_id, potential_writer, *self, r));
        let ghost rg = r;
        proof {
            if let Some(w) = potential_writer {
                if !(rg matches Some(info) && info.source == DeadlockSource::LockOrderViolation) {
                    law_contended_write_waits_for_holders(*old(self), thread_id, lock_id, w, *self, rg);
                }
            }
        }
        r
    }

    /// What the wait of a write attempt does (`self` is the detector after the
    /// lock order check): the seen writer becomes the recorded writer; when the
    /// lock is occupied, the thread waits for its readers and writer and a
    /// cycle met there is checked and reported.
    pub open spec fn write_wait(&self, thread_id: ThreadId, lock_id: LockId, potential_writer: Option<ThreadId>,
        after: Detector, r: Option<DeadlockInfo>) -> bool {
        exists|s2: Detector| {
            &&& #[trigger] self.takes_writer(lock_id, potential_writer, s2)
            &&& !s2.rw_occupied(lock_id) ==> after == s2 && r is None
            &&& s2.rw_occupied(lock_id) ==> exists|s3: Detector, rc: Option<Vec<ThreadId>>| {
                &&& #[trigger] s2.registers(thread_id, WaitIntent { lock_id, mode: WaitMode::RwWrite }, s3, rc)
                &&& match rc {
                    None => after == s3 && r is None,
                    Some(c) => s3.validates(c@, after, r),
                }
            }
        }
    }

    /// `after` is this detector with the seen writer `potential_writer` (when
    /// known) recorded as the writer of `lock_id`.
    pub open spec fn takes_writer(&self, lock_id: LockId, potential_writer: Option<ThreadId>, after: Detector) -> bool {
        &&& after.wf()
        &&& after.rwlock_writer@ == (match potential_writer {
            Some(w) => self.rwlock_writer@.insert(lock_id, w),
            None => self.rwlock_writer@,
        })
        &&& after.rwlock_readers == self.rwlock_readers
        &&& after.mutex_owners == self.mutex_owners
        &&& after.thread_holds == self.thread_holds
        &&& after.wait_for_graph == self.wait_for_graph
        &&& after.thread_waits_for == self.thread_waits_for
        &&& after.lock_waiters == self.lock_waiters
        &&& after.events == self.events
        &&& after.lock_order_graph == self.lock_order_graph
        &&& after.same_condvars(self)
    }

    /// What registering the wait of `thread_id` for `intent` does (see
    /// [`Detector::register_wait`]): `after` is the detector afterwards and `rc`
    /// the cycle met.
    pub open spec fn registers(&self, thread_id: ThreadId, intent: WaitIntent, after: Detector, rc: Option<Vec<ThreadId>>) -> bool {
        &&& after.wf()
        &&& after.thread_waits_for@ == self.thread_waits_for@.insert(thread_id, intent)
        &&& pairs(after.lock_waiters) == drop_second(pairs(self.lock_waiters), thread_id).insert((intent.lock_id, thread_id))
        &&& after.wait_for_graph@ == rewire(self.wait_for_graph@, thread_id, self.incompatible(intent))
        &&& (rc is Some <==> rewire_finds_cycle(self.wait_for_graph@, thread_id, self.incompatible(intent)))
        &&& (rc matches Some(c) ==> self.incompatible(intent).contains(c@[0])
            && crate::paths::is_path_between(after.wait_for_graph@, c@, c@[0], thread_id))
        &&& after.same_except_waits(self)
    }

    /// The wait part of a write attempt (see [`Detector::write_wait`]).
    pub fn wait_for_write(&mut self, thread_id: ThreadId, lock_id: LockId, potential_writer: Option<ThreadId>)
        -> (r: Option<DeadlockInfo>)
        requires
            old(self).wf(),
        ensures
            final(self).wf(),
            old(self).write_wait(thread_id, lock_id, potential_writer, *final(self), r),
            potential_writer matches Some(w) ==> final(self).rwlock_writer@.contains_key(lock_id)
                && final(self).rwlock_writer@[lock_id] == w
                && final(self).thread_waits_for@.contains_key(thread_id)
                && final(self).thread_waits_for@[thread_id] == (WaitIntent { lock_id, mode: WaitMode::RwWrite }),
    {
        match potential_writer {
            Some(w) => {
                fx::map_insert(&mut self.rwlock_writer, lock_id, w);
            },
            None => {},
        }
        let ghost s2 = *self;
        assert(old(self).takes_writer(lock_id, potential_writer, s2));
        let has_readers = match fx::map_get(&self.rwlock_readers, lock_id) {
            Some(readers) => !fx::map_is_empty(readers),
            None => false,
        };
        let has_writer = fx::map_contains(&self.rwlock_writer, lock_id);
        assert((has_readers || has_writer) == s2.rw_occupied(lock_id));
        if has_readers || has_writer {
            let intent = WaitIntent::new(lock_id, WaitMode::RwWrite);
            let rc = self.register_wait(thread_id, intent);
            let ghost s3 = *self;
            let ghost rcg = rc;
            assert(s2.registers(thread_id, intent, s3, rc));
            match rc {
                Some(cycle) => {
                    let ghost cv = cycle@;
                    let r = self.validated_deadlock_info(cycle);
                    assert(s3.validates(cv, *self, r));
                    assert(s2.registers(thread_id, intent, s3, rcg) && s3.validates(rcg->0@, *self, r));
                    assert(old(self).write_wait(thread_id, lock_id, potential_writer, *self, r));
                    proof {
                        if let Some(w) = potential_writer {
                            law_write_wait_waits_for_holders(*old(self), thread_id, lock_id, w, *self, r);
                        }
                    }
                    return r;
                },
                None => {
                    assert(s2.registers(thread_id, intent, s3, rcg));
                    assert(old(self).write_wait(thread_id, lock_id, potential_writer, *self, None));
                    proof {
                        if let Some(w) = potential_writer {
                            law_write_wait_waits_for_holders(*old(self), thread_id, lock_id, w, *self, None);
                        }
                    }
                    return None;
                },
            }
        }
        assert(old(self).write_wait(thread_id, lock_id, potential_writer, *self, None));
        proof {
            if let Some(w) = potential_writer {
                law_write_wait_waits_for_holders(*old(self), thread_id, lock_id, w, *self, None);
            }
        }
        None
    }

    /// What completing an acquisition of the write lock `lock_id` by
    /// `thread_id` does (see [`Detector::complete_write`]): `after` is the
    /// detector afterwards and `r` the report.
    pub open spec fn acquires_write(&self, thread_id: ThreadId, lock_id: LockId, after: Detector, r: Option<DeadlockInfo>) -> bool {
        exists|s1: Detector, lov: Option<DeadlockInfo>| {
            &&& s1.wf()
            &&& s1.rwlock_writer@ == self.rwlock_writer@.insert(lock_id, thread_id)
            &&& pairs(s1.thread_holds) == pairs(self.thread_holds).insert((thread_id, lock_id))
            &&& s1.thread_waits_for@ == self.thread_waits_for@.remove(thread_id)
            &&& pairs(s1.lock_waiters) == drop_second(pairs(self.lock_waiters), thread_id)
            &&& s1.wait_for_graph@ == drop_out_edges(self.wait_for_graph@, thread_id)
            &&& s1.events@ == self.events@.push(EventRecord::make(thread_id, lock_id, Events::RwWriteAcquired, None, None))
            &&& s1.rwlock_readers == self.rwlock_readers
            &&& s1.mutex_owners == self.mutex_owners
            &&& s1.same_condvars(self)
            &&& #[trigger] self.order_checks(thread_id, lock_id, s1, lov)
            &&& s1.acquire_report(lock_id, after, lov, r)
        }
    }

    /// Updates the detector once `thread_id` holds the write lock on `lock_id`:
    /// the thread becomes the writer and a holder and stops waiting, the lock
    /// order is checked when enabled and the thread already held a lock, and
    /// the waiters of the lock are refreshed. Returns a deadlock found there,
    /// or else the lock order violation, if any.
    pub fn complete_write(&mut self, thread_id: ThreadId, lock_id: LockId) -> (r: Option<DeadlockInfo>)
        requires
            old(self).wf(),
        ensures
            final(self).wf(),
            old(self).acquires_write(thread_id, lock_id, *final(self), r),
            final(self).rwlock_writer@ == old(self).rwlock_writer@.insert(lock_id, thread_id),
            pairs(final(self).thread_holds) == pairs(old(self).thread_holds).insert((thread_id, lock_id)),
            final(self).thread_waits_for@ == old(self).thread_waits_for@.remove(thread_id),
    {
        fx::map_insert(&mut self.rwlock_writer, lock_id, thread_id);
        let ghost s0 = *self;
        let lov = self.order_check(thread_id, lock_id);
        let ghost sc = *self;
        assert(s0.order_checks(thread_id, lock_id, sc, lov));
        self.add_hold(thread_id, lock_id);
        self.clear_wait_intent(thread_id);
        self.record(EventRecord::new(thread_id, lock_id, Events::RwWriteAcquired, None, None));
        let ghost s1 = *self;
        assert(old(self).order_checks(thread_id, lock_id, s1, lov));
        let r = self.report_after_acquire(lock_id, lov);
        assert(s1.acquire_report(lock_id, *self, lov, r));
        assert(old(self).acquires_write(thread_id, lock_id, *self, r));
        proof {
            law_write_acquire_records_writer(*old(self), thread_id, lock_id, *self, r);
        }
        r
    }
}

} // verus!

verus! {

/// Records the creation of the reader-writer lock `lock_id` (see [`Detector::create_rwlock`]).
pub fn create_rwlock(detector: &mut Detector, lock_id: LockId, creator_id: Option<ThreadId>, current_thread: ThreadId)
    requires
        old(detector).wf(),
    ensures
        final(detector).wf(),
        final(detector).events@ == old(detector).events@.push(
            EventRecord::make(0, lock_id, Events::RwSpawn, Some(creator_of(creator_id, current_thread)), None)),
        final(detector).wait_for_graph == old(detector).wait_for_graph,
        final(detector).thread_waits_for == old(detector).thread_waits_for,
        final(detector).lock_waiters == old(detector).lock_waiters,
        final(detector).lock_order_graph == old(detector).lock_order_graph,
        final(detector).same_owners(old(detector)),
        final(detector).same_condvars(old(detector)),
{
    detector.create_rwlock(lock_id, creator_id, current_thread)
}

/// Forgets the reader-writer lock `lock_id` (see [`Detector::destroy_rwlock`]).
pub fn destroy_rwlock(detector: &mut Detector, lock_id: LockId)
    requires
        old(detector).wf(),
    ensures
        final(detector).wf(),
        final(detector).rwlock_writer@ == old(detector).rwlock_writer@.remove(lock_id),
        final(detector).rwlock_readers@ == old(detector).rwlock_readers@.remove(lock_id),
        pairs(final(detector).thread_holds) == drop_second(pairs(old(detector).thread_holds), lock_id),
        match old(detector).lock_order_graph {
            None => final(detector).lock_order_graph is None,
            Some(g) => final(detector).lock_order_graph matches Some(g2) && g2@ == drop_node(g@, lock_id)
                && g2.cycle_cache@.dom() == Set::<(LockId, LockId)>::empty() && g2.generation == g.generation,
        },
        final(detector).lock_waiters@ == old(detector).lock_waiters@.remove(lock_id),
        final(detector).events@ == old(detector).events@.push(EventRecord::make(0, lock_id, Events::RwExit, None, None)),
        final(detector).wait_for_graph == old(detector).wait_for_graph,
        final(detector).thread_waits_for == old(detector).thread_waits_for,
        final(detector).mutex_owners == old(detector).mutex_owners,
        final(detector).same_condvars(old(detector)),
{
    detector.destroy_rwlock(lock_id)
}

/// Records that `thread_id` dropped a read guard of `lock_id` (see [`Detector::release_read`]).
pub fn release_read(detector: &mut Detector, thread_id: ThreadId, lock_id: LockId)
    requires
        old(detector).wf(),
    ensures
        final(detector).wf(),
        final(detector).events@ == old(detector).events@.push(EventRecord::make(thread_id, lock_id, Events::RwReadReleased, None, None)),
        counts_after_unread(old(detector).rwlock_readers@, lock_id, thread_id, final(detector).rwlock_readers@),
        read_count(final(detector).rwlock_readers@, lock_id, thread_id) > 0 ==> {
            &&& final(detector).thread_holds == old(detector).thread_holds
            &&& final(detector).wait_for_graph == old(detector).wait_for_graph
        },
        read_count(final(detector).rwlock_readers@, lock_id, thread_id) == 0 ==> {
            &&& pairs(final(detector).thread_holds) == pairs(old(detector).thread_holds).remove((thread_id, lock_id))
            &&& final(detector).thread_holds@.dom() == holds_keys_after_release(old(detector).thread_holds, thread_id, lock_id)
            &&& final(detector).wait_for_graph@
                == drop_edges_to(old(detector).wait_for_graph@, image(old(detector).lock_waiters, lock_id), thread_id)
        },
        final(detector).thread_waits_for == old(detector).thread_waits_for,
        final(detector).lock_waiters == old(detector).lock_waiters,
        final(detector).mutex_owners == old(detector).mutex_owners,
        final(detector).rwlock_writer == old(detector).rwlock_writer,
        final(detector).lock_order_graph == old(detector).lock_order_graph,
        final(detector).same_condvars(old(detector)),
{
    detector.release_read(thread_id, lock_id)
}

/// Records that `thread_id` released the write lock on `lock_id` (see [`Detector::release_write`]).
pub fn release_write(detector: &mut Detector, thread_id: ThreadId, lock_id: LockId)
    requires
        old(detector).wf(),
    ensures
        final(detector).wf(),
        final(detector).events@ == old(detector).events@.push(EventRecord::make(thread_id, lock_id, Events::RwWriteReleased, None, None)),
        final(detector).rwlock_writer@ == (if old(detector).rwlock_writer@.contains_key(lock_id)
            && old(detector).rwlock_writer@[lock_id] == thread_id {
            old(detector).rwlock_writer@.remove(lock_id)
        } else {
            old(detector).rwlock_writer@
        }),
        pairs(final(detector).thread_holds) == pairs(old(detector).thread_holds).remove((thread_id, lock_id)),
        final(detector).thread_holds@.dom() == holds_keys_after_release(old(detector).thread_holds, thread_id, lock_id),
        final(detector).wait_for_graph@
            == drop_edges_to(old(detector).wait_for_graph@, image(old(detector).lock_waiters, lock_id), thread_id),
        final(detector).thread_waits_for == old(detector).thread_waits_for,
        final(detector).lock_waiters == old(detector).lock_waiters,
        final(detector).mutex_owners == old(detector).mutex_owners,
        final(detector).rwlock_readers == old(detector).rwlock_readers,
        final(detector).lock_order_graph == old(detector).lock_order_graph,
        final(detector).same_condvars(old(detector)),
{
    detector.release_write(thread_id, lock_id)
}

/// A non-blocking read attempt (see [`Detector::try_read_nonblocking`]).
pub fn try_read<T, F: FnOnce() -> Option<T>>(detector: &mut Detector, thread_id: ThreadId, lock_id: LockId, try_acquire_fn: F) -> (r: Option<T>)
    requires
        old(detector).wf(),
        call_requires(try_acquire_fn, ()),
        read_count(old(detector).rwlock_readers@, lock_id, thread_id) < usize::MAX,
    ensures
        final(detector).wf(),
        call_ensures(try_acquire_fn, (), r),
        r is None ==> final(detector).events@ == old(detector).events@.push(EventRecord::make(thread_id, lock_id, Events::RwReadAttempt, None, None))
            && final(detector).rwlock_readers == old(detector).rwlock_readers
            && final(detector).thread_holds == old(detector).thread_holds
            && final(detector).wait_for_graph == old(detector).wait_for_graph,
        r is Some ==> {
            &&& final(detector).events@ == old(detector).events@
                .push(EventRecord::make(thread_id, lock_id, Events::RwReadAttempt, None, None))
                .push(EventRecord::make(thread_id, lock_id, Events::RwReadAcquired, None, None))
            &&& counts_after_read(old(detector).rwlock_readers@, lock_id, thread_id, final(detector).rwlock_readers@)
            &&& pairs(final(detector).thread_holds) == pairs(old(detector).thread_holds).insert((thread_id, lock_id))
            &&& !old(detector).lock_waiters@.contains_key(lock_id) ==> final(detector).wait_for_graph == old(detector).wait_for_graph
            &&& old(detector).lock_waiters@.contains_key(lock_id) ==> exists|s1: Detector, rc: Option<Vec<ThreadId>>| {
                &&& s1.wait_for_graph == old(detector).wait_for_graph
                &&& s1.rwlock_readers == final(detector).rwlock_readers
                &&& s1.thread_holds == final(detector).thread_holds
                &&& s1.mutex_owners == old(detector).mutex_owners
                &&& s1.rwlock_writer == old(detector).rwlock_writer
                &&& s1.thread_waits_for == old(detector).thread_waits_for
                &&& #[trigger] s1.refreshes(lock_id, *final(detector), rc)
            }
        },
        final(detector).thread_waits_for == old(detector).thread_waits_for,
        final(detector).lock_waiters == old(detector).lock_waiters,
        final(detector).mutex_owners == old(detector).mutex_owners,
        final(detector).rwlock_writer == old(detector).rwlock_writer,
        final(detector).lock_order_graph == old(detector).lock_order_graph,
        final(detector).same_condvars(old(detector)),
{
    detector.try_read_nonblocking(thread_id, lock_id, try_acquire_fn)
}

/// Registers a blocked read of `lock_id` by `thread_id` and rechecks the lock
/// before the wait is kept: `try_acquire` is called first; when it succeeds the
/// read is completed at once. Otherwise `writer_hint` gives the writer seen by
/// the lock, which becomes the recorded writer, the thread waits for the
/// writer, and a cycle met there is checked. Returns what `try_acquire` gave
/// and the deadlock to report, if any.
pub fn acquire_read_slow_with_recheck<T, F: FnOnce() -> Option<T>, H: FnOnce() -> Option<ThreadId>>(
    detector: &mut Detector,
    thread_id: ThreadId,
    lock_id: LockId,
    try_acquire: F,
    writer_hint: H,
) -> (r: (Option<T>, Option<DeadlockInfo>))
    requires
        old(detector).wf(),
        call_requires(try_acquire, ()),
        call_requires(writer_hint, ()),
        read_count(old(detector).rwlock_readers@, lock_id, thread_id) < usize::MAX,
    ensures
        final(detector).wf(),
        call_ensures(try_acquire, (), r.0),
        r.0 is Some ==> {
            &&& r.1 is None
            &&& counts_after_read(old(detector).rwlock_readers@, lock_id, thread_id, final(detector).rwlock_readers@)
            &&& pairs(final(detector).thread_holds) == pairs(old(detector).thread_holds).insert((thread_id, lock_id))
            &&& final(detector).thread_waits_for@ == old(detector).thread_waits_for@.remove(thread_id)
            &&& final(detector).wait_for_graph@ == drop_out_edges(old(detector).wait_for_graph@, thread_id)
            &&& final(detector).events@ == old(detector).events@.push(
                EventRecord::make(thread_id, lock_id, Events::RwReadAcquired, None, None))
        },
        r.0 is None ==> exists|hint: Option<ThreadId>, s2: Detector, s3: Detector, rc: Option<Vec<ThreadId>>| {
            &&& call_ensures(writer_hint, (), hint)
            &&& #[trigger] old(detector).takes_writer(lock_id, hint, s2)
            &&& #[trigger] s2.registers(thread_id, WaitIntent { lock_id, mode: WaitMode::RwRead }, s3, rc)
            &&& match rc {
                None => *final(detector) == s3 && r.1 is None,
                Some(c) => s3.validates(c@, *final(detector), r.1),
            }
            &&& hint matches Some(w) ==> {
                &&& final(detector).rwlock_writer@.contains_key(lock_id) && final(detector).rwlock_writer@[lock_id] == w
                &&& !reachable(drop_out_edges(old(detector).wait_for_graph@, thread_id), w, thread_id)
                    ==> final(detector).wait_for_graph@.contains((thread_id, w)) && r.1 is None
            }
            &&& final(detector).thread_waits_for@.contains_key(thread_id)
                && final(detector).thread_waits_for@[thread_id] == (WaitIntent { lock_id, mode: WaitMode::RwRead })
        },
{
    match try_acquire() {
        Some(acquired) => {
            detector.complete_read(thread_id, lock_id);
            (Some(acquired), None)
        },
        None => {
            let hint = writer_hint();
            match hint {
                Some(w) => {
                    fx::map_insert(&mut detector.rwlock_writer, lock_id, w);
                },
                None => {},
            }
            let ghost s2 = *detector;
            assert(old(detector).takes_writer(lock_id, hint, s2));
            let intent = WaitIntent::new(lock_id, WaitMode::RwRead);
            let rc = detector.register_wait(thread_id, intent);
            let ghost s3 = *detector;
            let ghost rcg = rc;
            assert(s2.registers(thread_id, intent, s3, rcg));
            proof {
                if let Some(w) = hint {
                    let g1 = drop_out_edges(old(detector).wait_for_graph@, thread_id);
                    let inc = s2.incompatible(intent);
                    assert(inc =~= set![w]);
                    if !reachable(g1, w, thread_id) {
                        assert(crate::detector::wait::new_wait_edges(g1, thread_id, inc).contains((thread_id, w)));
                        assert(!rewire_finds_cycle(s2.wait_for_graph@, thread_id, inc)) by {
                            if rewire_finds_cycle(s2.wait_for_graph@, thread_id, inc) {
                                let o = choose|o: ThreadId| #[trigger] inc.contains(o)
                                    && reachable(drop_out_edges(s2.wait_for_graph@, thread_id), o, thread_id);
                                assert(o == w);
                            }
                        }
                    }
                }
            }
            let info = match rc {
                Some(cycle) => detector.validated_deadlock_info(cycle),
                None => None,
            };
            (None, info)
        },
    }
}

/// Completes a blocking read of `lock_id` by `thread_id` (see [`Detector::complete_read`]).
pub fn complete_read(detector: &mut Detector, thread_id: ThreadId, lock_id: LockId)
    requires
        old(detector).wf(),
        read_count(old(detector).rwlock_readers@, lock_id, thread_id) < usize::MAX,
    ensures
        final(detector).wf(),
        counts_after_read(old(detector).rwlock_readers@, lock_id, thread_id, final(detector).rwlock_readers@),
        pairs(final(detector).thread_holds) == pairs(old(detector).thread_holds).insert((thread_id, lock_id)),
        final(detector).thread_waits_for@ == old(detector).thread_waits_for@.remove(thread_id),
        pairs(final(detector).lock_waiters) == drop_second(pairs(old(detector).lock_waiters), thread_id),
        final(detector).wait_for_graph@ == drop_out_edges(old(detector).wait_for_graph@, thread_id),
        final(detector).events@ == old(detector).events@.push(EventRecord::make(thread_id, lock_id, Events::RwReadAcquired, None, None)),
        final(detector).mutex_owners == old(detector).mutex_owners,
        final(detector).rwlock_writer == old(detector).rwlock_writer,
        final(detector).lock_order_graph == old(detector).lock_order_graph,
        final(detector).same_condvars(old(detector)),
{
    detector.complete_read(thread_id, lock_id)
}

/// Registers a contended write of `lock_id` by `thread_id` and rechecks the
/// lock before the wait is kept: `try_acquire` is called first; when it
/// succeeds the write is completed at once. Otherwise `writer_hint` gives the
/// writer seen by the lock and the contended write attempt is recorded.
/// Returns what `try_acquire` gave and the deadlock to report, if any.
pub fn acquire_write_slow_with_recheck<T, F: FnOnce() -> Option<T>, H: FnOnce() -> Option<ThreadId>>(
    detector: &mut Detector,
    thread_id: ThreadId,
    lock_id: LockId,
    try_acquire: F,
    writer_hint: H,
) -> (r: (Option<T>, Option<DeadlockInfo>))
    requires
        old(detector).wf(),
        call_requires(try_acquire, ()),
        call_requires(writer_hint, ()),
    ensures
        final(detector).wf(),
        call_ensures(try_acquire, (), r.0),
        r.0 is Some ==> old(detector).acquires_write(thread_id, lock_id, *final(detector), r.1),
        r.0 is None ==> exists|hint: Option<ThreadId>| {
            &&& #[trigger] call_ensures(writer_hint, (), hint)
            &&& old(detector).contends_write(thread_id, lock_id, hint, *final(detector), r.1)
        },
{
    match try_acquire() {
        Some(acquired) => {
            let info = detector.complete_write(thread_id, lock_id);
            (Some(acquired), info)
        },
        None => {
            let hint = writer_hint();
            let info = detector.acquire_write_slow(thread_id, lock_id, hint);
            assert(old(detector).contends_write(thread_id, lock_id, hint, *detector, info));
            (None, info)
        },
    }
}

/// Completes a blocking write of `lock_id` by `thread_id` and returns the
/// deadlock to report, if any (see [`Detector::complete_write`]).
pub fn complete_write(detector: &mut Detector, thread_id: ThreadId, lock_id: LockId) -> (r: Option<DeadlockInfo>)
    requires
        old(detector).wf(),
    ensures
        final(detector).wf(),
        old(detector).acquires_write(thread_id, lock_id, *final(detector), r),
        final(detector).rwlock_writer@ == old(detector).rwlock_writer@.insert(lock_id, thread_id),
        pairs(final(detector).thread_holds) == pairs(old(detector).thread_holds).insert((thread_id, lock_id)),
        final(detector).thread_waits_for@ == old(detector).thread_waits_for@.remove(thread_id),
{
    detector.complete_write(thread_id, lock_id)
}

} // verus!

verus! {

/// Law: taking one more read guard and dropping one leaves every reader count
/// and every reader set as it was (a reader is a thread with a positive count).
pub proof fn law_read_then_release_restores_counts(
    r0: Map<LockId, FxHashMap<ThreadId, usize>>,
    r1: Map<LockId, FxHashMap<ThreadId, usize>>,
    r2: Map<LockId, FxHashMap<ThreadId, usize>>,
    lock_id: LockId,
    thread_id: ThreadId,
)
    requires
        forall|l: LockId, t: ThreadId| #[trigger] read_count(r0, l, t) > 0 || !readers_of(r0, l).contains(t),
        counts_after_read(r0, lock_id, thread_id, r1),
        counts_after_unread(r1, lock_id, thread_id, r2),
    ensures
        forall|l: LockId, t: ThreadId| #[trigger] read_count(r2, l, t) == read_count(r0, l, t),
        forall|l: LockId| #[trigger] readers_of(r2, l) == readers_of(r0, l),
{
    assert forall|l: LockId| #[trigger] readers_of(r2, l) == readers_of(r0, l) by {
        if l == lock_id {
            assert(read_count(r1, l, thread_id) == read_count(r0, l, thread_id) + 1);
            if read_count(r0, l, thread_id) == 0 {
                assert(!readers_of(r0, l).contains(thread_id));
                assert(readers_of(r0, l).insert(thread_id).remove(thread_id) =~= readers_of(r0, l));
            } else {
                assert(readers_of(r0, l).contains(thread_id));
                assert(readers_of(r0, l).insert(thread_id) =~= readers_of(r0, l));
            }
        }
    }
}

} // verus!

verus! {

/// Law: completing a write acquisition of a reader-writer lock and then
/// releasing the write lock by the same thread leaves the lock without
/// writer and the thread's held locks as they were, but for that lock.
pub proof fn law_write_then_release(d0: Detector, d1: Detector, d2: Detector, thread_id: ThreadId, lock_id: LockId,
    r: Option<DeadlockInfo>)
    requires
        d0.acquires_write(thread_id, lock_id, d1, r),
        d2.rwlock_writer@ == (if d1.rwlock_writer@.contains_key(lock_id) && d1.rwlock_writer@[lock_id] == thread_id {
            d1.rwlock_writer@.remove(lock_id)
        } else {
            d1.rwlock_writer@
        }),
        pairs(d2.thread_holds) == pairs(d1.thread_holds).remove((thread_id, lock_id)),
    ensures
        d2.rwlock_writer@ == d0.rwlock_writer@.remove(lock_id),
        pairs(d2.thread_holds) == pairs(d0.thread_holds).remove((thread_id, lock_id)),
{
    let (s1, lov) = choose|s1: Detector, lov: Option<DeadlockInfo>| {
        &&& s1.wf()
        &&& s1.rwlock_writer@ == d0.rwlock_writer@.insert(lock_id, thread_id)
        &&& pairs(s1.thread_holds) == pairs(d0.thread_holds).insert((thread_id, lock_id))
        &&& s1.thread_waits_for@ == d0.thread_waits_for@.remove(thread_id)
        &&& pairs(s1.lock_waiters) == drop_second(pairs(d0.lock_waiters), thread_id)
        &&& s1.wait_for_graph@ == drop_out_edges(d0.wait_for_graph@, thread_id)
        &&& s1.events@ == d0.events@.push(EventRecord::make(thread_id, lock_id, Events::RwWriteAcquired, None, None))
        &&& s1.rwlock_readers == d0.rwlock_readers
        &&& s1.mutex_owners == d0.mutex_owners
        &&& s1.same_condvars(&d0)
        &&& #[trigger] d0.order_checks(thread_id, lock_id, s1, lov)
        &&& s1.acquire_report(lock_id, d1, lov, r)
    };
    let (mid, rc) = choose|mid: Detector, rc: Option<Vec<ThreadId>>| {
        &&& s1.refreshes(lock_id, mid, rc)
        &&& match rc {
            None => d1 == mid && r == lov,
            Some(c) => exists|vr: Option<DeadlockInfo>| {
                &&& #[trigger] mid.validates(c@, d1, vr)
                &&& r == (if vr is Some { vr } else { lov })
            },
        }
    };
    assert(d1.rwlock_writer == s1.rwlock_writer && d1.thread_holds == s1.thread_holds) by {
        if rc is Some {
            let c = rc->0;
            let vr = choose|vr: Option<DeadlockInfo>| {
                &&& #[trigger] mid.validates(c@, d1, vr)
                &&& r == (if vr is Some { vr } else { lov })
            };
        }
    }
    assert(d2.rwlock_writer@ =~= d0.rwlock_writer@.remove(lock_id));
    assert(pairs(d2.thread_holds) =~= pairs(d0.thread_holds).remove((thread_id, lock_id)));
}

/// Law: the wait of a write attempt on a reader-writer lock whose writer was
/// seen as `writer` records `writer` as the writer of the lock, and the thread
/// then waits to write it, blocked by `writer` and by every reader of the
/// lock. When none of these reaches the thread through the other waits,
/// nothing is reported and the edges from the thread to `writer` and to each
/// reader are in the wait-for graph.
pub proof fn law_write_wait_waits_for_holders(d0: Detector, thread_id: ThreadId, lock_id: LockId,
    writer: ThreadId, d1: Detector, r: Option<DeadlockInfo>)
    requires
        d0.write_wait(thread_id, lock_id, Some(writer), d1, r),
    ensures
        d1.rwlock_writer@.contains_key(lock_id) && d1.rwlock_writer@[lock_id] == writer,
        d1.thread_waits_for@.contains_key(thread_id)
            && d1.thread_waits_for@[thread_id] == (WaitIntent { lock_id, mode: WaitMode::RwWrite }),
        !reachable(drop_out_edges(d0.wait_for_graph@, thread_id), writer, thread_id)
            && (forall|b: ThreadId| #[trigger] readers_of(d0.rwlock_readers@, lock_id).contains(b)
                ==> !reachable(drop_out_edges(d0.wait_for_graph@, thread_id), b, thread_id))
            ==> r is None && d1.wait_for_graph@.contains((thread_id, writer))
                && forall|b: ThreadId| #[trigger] readers_of(d0.rwlock_readers@, lock_id).contains(b)
                    ==> d1.wait_for_graph@.contains((thread_id, b)),
{
    let s2 = choose|s2: Detector| {
        &&& #[trigger] d0.takes_writer(lock_id, Some(writer), s2)
        &&& !s2.rw_occupied(lock_id) ==> d1 == s2 && r is None
        &&& s2.rw_occupied(lock_id) ==> exists|s3: Detector, rc: Option<Vec<ThreadId>>| {
            &&& #[trigger] s2.registers(thread_id, WaitIntent { lock_id, mode: WaitMode::RwWrite }, s3, rc)
            &&& match rc {
                None => d1 == s3 && r is None,
                Some(c) => s3.validates(c@, d1, r),
            }
        }
    };
    let intent = WaitIntent { lock_id, mode: WaitMode::RwWrite };
    assert(s2.rwlock_writer@.contains_key(lock_id) && s2.rwlock_writer@[lock_id] == writer);
    assert(s2.rw_occupied(lock_id));
    let (s3, rc) = choose|s3: Detector, rc: Option<Vec<ThreadId>>| {
        &&& #[trigger] s2.registers(thread_id, intent, s3, rc)
        &&& match rc {
            None => d1 == s3 && r is None,
            Some(c) => s3.validates(c@, d1, r),
        }
    };
    let inc = s2.incompatible(intent);
    assert(inc == readers_of(d0.rwlock_readers@, lock_id).union(set![writer]));
    assert(inc.contains(writer));
    let g1 = drop_out_edges(d0.wait_for_graph@, thread_id);
    if !reachable(g1, writer, thread_id)
        && (forall|b: ThreadId| #[trigger] readers_of(d0.rwlock_readers@, lock_id).contains(b) ==> !reachable(g1, b, thread_id)) {
        assert(!rewire_finds_cycle(s2.wait_for_graph@, thread_id, inc)) by {
            if rewire_finds_cycle(s2.wait_for_graph@, thread_id, inc) {
                let o = choose|o: ThreadId| #[trigger] inc.contains(o) && reachable(drop_out_edges(s2.wait_for_graph@, thread_id), o, thread_id);
                if o != writer {
                    assert(readers_of(d0.rwlock_readers@, lock_id).contains(o));
                }
            }
        }
        assert(crate::detector::wait::new_wait_edges(g1, thread_id, inc).contains((thread_id, writer)));
        assert forall|b: ThreadId| #[trigger] readers_of(d0.rwlock_readers@, lock_id).contains(b)
            implies d1.wait_for_graph@.contains((thread_id, b)) by {
            assert(inc.contains(b));
            assert(crate::detector::wait::new_wait_edges(g1, thread_id, inc).contains((thread_id, b)));
        }
    }
}

/// Law: a contended write attempt on a reader-writer lock whose writer was
/// seen as `writer`, that reports no lock order violation, records `writer`
/// as the writer of the lock, and the thread waits to write it, blocked by
/// `writer` and by every reader of the lock. When none of these reaches the
/// thread through the other waits, nothing is reported and the edges from the
/// thread to `writer` and to each reader are in the wait-for graph.
pub proof fn law_contended_write_waits_for_holders(d0: Detector, thread_id: ThreadId, lock_id: LockId,
    writer: ThreadId, d1: Detector, r: Option<DeadlockInfo>)
    requires
        d0.contends_write(thread_id, lock_id, Some(writer), d1, r),
        !(r matches Some(info) && info.source == DeadlockSource::LockOrderViolation),
    ensures
        d1.rwlock_writer@.contains_key(lock_id) && d1.rwlock_writer@[lock_id] == writer,
        d1.thread_waits_for@.contains_key(thread_id)
            && d1.thread_waits_for@[thread_id] == (WaitIntent { lock_id, mode: WaitMode::RwWrite }),
        !reachable(drop_out_edges(d0.wait_for_graph@, thread_id), writer, thread_id)
            && (forall|b: ThreadId| #[trigger] readers_of(d0.rwlock_readers@, lock_id).contains(b)
                ==> !reachable(drop_out_edges(d0.wait_for_graph@, thread_id), b, thread_id))
            ==> r is None && d1.wait_for_graph@.contains((thread_id, writer))
                && forall|b: ThreadId| #[trigger] readers_of(d0.rwlock_readers@, lock_id).contains(b)
                    ==> d1.wait_for_graph@.contains((thread_id, b)),
{
    let (s1, lov) = choose|s1: Detector, lov: Option<DeadlockInfo>| {
        &&& s1.wf()
        &&& s1.events@ == d0.events@.push(EventRecord::make(thread_id, lock_id, Events::RwWriteAttempt, None, None))
        &&& #[trigger] d0.order_checks(thread_id, lock_id, s1, lov)
        &&& s1.wait_for_graph == d0.wait_for_graph
        &&& s1.thread_waits_for == d0.thread_waits_for
        &&& s1.lock_waiters == d0.lock_waiters
        &&& s1.same_owners(&d0)
        &&& s1.same_condvars(&d0)
        &&& lov is Some ==> d1 == s1 && r == lov
        &&& lov is None ==> s1.write_wait(thread_id, lock_id, Some(writer), d1, r)
    };
    assert(lov is None);
    law_write_wait_waits_for_holders(s1, thread_id, lock_id, writer, d1, r);
}

/// Law: once a thread completes a write acquisition of a reader-writer lock,
/// it is the recorded writer of the lock and holds it, and it no longer waits
/// for any lock; the other writers, holds and waits are as before.
pub proof fn law_write_acquire_records_writer(d0: Detector, thread_id: ThreadId, lock_id: LockId, d1: Detector, r: Option<DeadlockInfo>)
    requires
        d0.acquires_write(thread_id, lock_id, d1, r),
    ensures
        d1.rwlock_writer@ == d0.rwlock_writer@.insert(lock_id, thread_id),
        pairs(d1.thread_holds) == pairs(d0.thread_holds).insert((thread_id, lock_id)),
        d1.thread_waits_for@ == d0.thread_waits_for@.remove(thread_id),
{
    let (s1, lov) = choose|s1: Detector, lov: Option<DeadlockInfo>| {
        &&& s1.wf()
        &&& s1.rwlock_writer@ == d0.rwlock_writer@.insert(lock_id, thread_id)
        &&& pairs(s1.thread_holds) == pairs(d0.thread_holds).insert((thread_id, lock_id))
        &&& s1.thread_waits_for@ == d0.thread_waits_for@.remove(thread_id)
        &&& pairs(s1.lock_waiters) == drop_second(pairs(d0.lock_waiters), thread_id)
        &&& s1.wait_for_graph@ == drop_out_edges(d0.wait_for_graph@, thread_id)
        &&& s1.events@ == d0.events@.push(EventRecord::make(thread_id, lock_id, Events::RwWriteAcquired, None, None))
        &&& s1.rwlock_readers == d0.rwlock_readers
        &&& s1.mutex_owners == d0.mutex_owners
        &&& s1.same_condvars(&d0)
        &&& #[trigger] d0.order_checks(thread_id, lock_id, s1, lov)
        &&& s1.acquire_report(lock_id, d1, lov, r)
    };
    let (mid, rc) = choose|mid: Detector, rc: Option<Vec<ThreadId>>| {
        &&& s1.refreshes(lock_id, mid, rc)
        &&& match rc {
            None => d1 == mid && r == lov,
            Some(c) => exists|vr: Option<DeadlockInfo>| {
                &&& #[trigger] mid.validates(c@, d1, vr)
                &&& r == (if vr is Some { vr } else { lov })
            },
        }
    };
    if rc is Some {
        let c = rc->0;
        let vr = choose|vr: Option<DeadlockInfo>| {
            &&& #[trigger] mid.validates(c@, d1, vr)
            &&& r == (if vr is Some { vr } else { lov })
        };
    }
}

} // verus!
