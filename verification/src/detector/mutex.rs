//! Mutex tracking: creation, destruction, contention, acquisition and release.
use vstd::prelude::*;
use crate::detector::{Detector, holds_keys_after_release};
use crate::detector::wait::{WaitIntent, WaitMode, rewire, rewire_finds_cycle, waiting_on};
use crate::fx;
use crate::graph::lock_order_graph::{adds_edges_from, cycle_shape, opt_seq};
use crate::paths::{drop_node, drop_out_edges, drop_second, drop_seconds, drop_sources, is_path_between, reachable};
use crate::relation::pairs;
use crate::types::{DeadlockInfo, DeadlockSource, EventRecord, Events, LockId, ThreadId};

verus! {

broadcast use crate::relation::lemma_pairs_image;

/// The creator recorded for a new lock: the given one, or else the current thread.
pub open spec fn creator_of(creator_id: Option<ThreadId>, current_thread: ThreadId) -> ThreadId {
    match creator_id {
        Some(c) => c,
        None => current_thread,
    }
}

/// `info` reports that `thread_id`, holding some lock `h`, closes a cycle of
/// the lock order graph by taking `lock_id` after it.
pub open spec fn is_order_report(info: DeadlockInfo, thread_id: ThreadId, lock_id: LockId, held: Set<LockId>) -> bool {
    &&& info.source == DeadlockSource::LockOrderViolation
    &&& info.thread_cycle@ == seq![thread_id]
    &&& info.thread_waiting_for_locks@ == seq![(thread_id, lock_id)]
    &&& info.lock_order_cycle matches Some(c)
        && exists|h: LockId| #[trigger] held.contains(h) && cycle_shape(Some(c@), h, lock_id)
}

/// The lock order cycle of a report, if any.
pub open spec fn lov_cycle(lov: Option<DeadlockInfo>) -> Option<Seq<LockId>> {
    match lov {
        Some(info) => opt_seq(info.lock_order_cycle),
        None => None,
    }
}

impl Detector {
    /// The threads that hold the mutex `lock_id` according to the owner map (none or one).
    pub open spec fn mutex_holder(&self, lock_id: LockId) -> Set<ThreadId> {
        if self.mutex_owners@.contains_key(lock_id) { set![self.mutex_owners@[lock_id]] } else { Set::empty() }
    }

    /// What the lock order check of an acquisition of `lock_id` by `thread_id`
    /// does (see [`Detector::order_check`]): `after` is the detector afterwards
    /// and `lov` the violation reported.
    pub open spec fn order_checks(&self, thread_id: ThreadId, lock_id: LockId, after: Detector, lov: Option<DeadlockInfo>) -> bool {
        &&& after.lock_order_graph is Some == self.lock_order_graph is Some
        &&& (self.lock_order_graph is None || self.held(thread_id) == Set::<LockId>::empty())
            ==> after.lock_order_graph == self.lock_order_graph && lov is None
        &&& (lov matches Some(info) ==> is_order_report(info, thread_id, lock_id, self.held(thread_id)))
        &&& self.lock_order_graph matches Some(g0) ==> (self.held(thread_id) != Set::<LockId>::empty() ==>
            (after.lock_order_graph matches Some(g1)
                && adds_edges_from(g0, self.held(thread_id), lock_id, g1, lov_cycle(lov))))
    }

    /// What follows the bookkeeping of a completed acquisition of `lock_id`
    /// (`self` is the detector right after it): the waiters of the lock are
    /// refreshed, giving `after`, and a cycle met there that checks out is
    /// reported; otherwise the lock order report `lov`, if any, is.
    pub open spec fn acquire_report(&self, lock_id: LockId, after: Detector, lov: Option<DeadlockInfo>, r: Option<DeadlockInfo>) -> bool {
        exists|mid: Detector, rc: Option<Vec<ThreadId>>| {
            &&& self.refreshes(lock_id, mid, rc)
            &&& match rc {
                None => after == mid && r == lov,
                Some(c) => exists|vr: Option<DeadlockInfo>| {
                    &&& #[trigger] mid.validates(c@, after, vr)
                    &&& r == (if vr is Some { vr } else { lov })
                },
            }
        }
    }

    /// Records the creation of the mutex `lock_id` by `creator_id`, or by
    /// `current_thread` when no creator is given.
    pub fn create_mutex(&mut self, lock_id: LockId, creator_id: Option<ThreadId>, current_thread: ThreadId)
        requires
            old(self).wf(),
        ensures
            final(self).wf(),
            final(self).events@ == old(self).events@.push(
                EventRecord::make(0, lock_id, Events::MutexSpawn, Some(creator_of(creator_id, current_thread)), None)),
            final(self).wait_for_graph == old(self).wait_for_graph,
            final(self).thread_waits_for == old(self).thread_waits_for,
            final(self).lock_waiters == old(self).lock_waiters,
            final(self).lock_order_graph == old(self).lock_order_graph,
            final(self).same_owners(old(self)),
            final(self).same_condvars(old(self)),
    {
        let creator = match creator_id {
            Some(c) => c,
            None => current_thread,
        };
        self.record(EventRecord::new(0, lock_id, Events::MutexSpawn, Some(creator), None));
    }

    /// Forgets the mutex `lock_id`: its owner, the waits for it, its place in
    /// every thread's held locks and in the lock order graph.
    pub fn destroy_mutex(&mut self, lock_id: LockId)
        requires
            old(self).wf(),
        ensures
            final(self).wf(),
            final(self).mutex_owners@ == old(self).mutex_owners@.remove(lock_id),
            final(self).thread_waits_for@
                == old(self).thread_waits_for@.remove_keys(waiting_on(old(self).thread_waits_for@, lock_id)),
            pairs(final(self).lock_waiters)
                == drop_seconds(pairs(old(self).lock_waiters), waiting_on(old(self).thread_waits_for@, lock_id)),
            final(self).wait_for_graph@
                == drop_sources(old(self).wait_for_graph@, waiting_on(old(self).thread_waits_for@, lock_id)),
            pairs(final(self).thread_holds) == drop_second(pairs(old(self).thread_holds), lock_id),
            match old(self).lock_order_graph {
                None => final(self).lock_order_graph is None,
                Some(g) => final(self).lock_order_graph matches Some(g2) && g2@ == drop_node(g@, lock_id)
                    && g2.cycle_cache@.dom() == Set::<(LockId, LockId)>::empty() && g2.generation == g.generation,
            },
            final(self).events@ == old(self).events@.push(EventRecord::make(0, lock_id, Events::MutexExit, None, None)),
            final(self).rwlock_readers == old(self).rwlock_readers,
            final(self).rwlock_writer == old(self).rwlock_writer,
            final(self).same_condvars(old(self)),
    {
        fx::map_remove(&mut self.mutex_owners, lock_id);
        self.clear_waits_on(lock_id);
        self.record(EventRecord::new(0, lock_id, Events::MutexExit, None, None));
        self.forget_held_lock(lock_id);
        match self.lock_order_graph.take() {
            Some(mut g) => {
                g.remove_lock(lock_id);
                self.lock_order_graph = Some(g);
            },
            None => {},
        }
        let ghost before = pairs(self.lock_waiters);
        fx::map_remove(&mut self.lock_waiters, lock_id);
        proof {
            let ts = waiting_on(old(self).thread_waits_for@, lock_id);
            assert forall|e: (LockId, ThreadId)| before.contains(e) implies e.0 != lock_id by {
                assert(pairs(old(self).lock_waiters).contains(e));
                if e.0 == lock_id {
                    assert(old(self).thread_waits_for@.contains_key(e.1));
                    assert(old(self).thread_waits_for@[e.1].lock_id == lock_id);
                    assert(old(self).thread_waits_for@.dom().contains(e.1));
                    assert(ts.contains(e.1));
                }
            }
            assert(pairs(self.lock_waiters) =~= before);
        }
    }

    /// What a contended attempt of `thread_id` on the mutex `lock_id` does
    /// (see [`Detector::acquire_slow`]): `after` is the detector afterwards and
    /// `r` the cycle returned.
    pub open spec fn contends_mutex(&self, thread_id: ThreadId, lock_id: LockId, potential_owner: Option<ThreadId>,
        after: Detector, r: Option<Vec<ThreadId>>) -> bool {
        &&& after.wf()
        &&& after.events@ == self.events@.push(EventRecord::make(thread_id, lock_id, Events::MutexAttempt, None, None))
        &&& after.mutex_owners@ == (match potential_owner {
            Some(o) => self.mutex_owners@.insert(lock_id, o),
            None => self.mutex_owners@,
        })
        &&& after.thread_waits_for@ == self.thread_waits_for@.insert(thread_id, WaitIntent { lock_id, mode: WaitMode::Mutex })
        &&& pairs(after.lock_waiters)
            == drop_second(pairs(self.lock_waiters), thread_id).insert((lock_id, thread_id))
        &&& after.wait_for_graph@ == rewire(self.wait_for_graph@, thread_id, after.mutex_holder(lock_id))
        &&& match r {
            Some(c) => rewire_finds_cycle(self.wait_for_graph@, thread_id, after.mutex_holder(lock_id))
                && after.mutex_holder(lock_id).contains(c@[0])
                && is_path_between(after.wait_for_graph@, c@, c@[0], thread_id)
                && !after.shares_exclusive_lock(c@),
            None => rewire_finds_cycle(self.wait_for_graph@, thread_id, after.mutex_holder(lock_id))
                ==> exists|c: Seq<ThreadId>| after.mutex_holder(lock_id).contains(c[0])
                    && is_path_between(after.wait_for_graph@, c, c[0], thread_id)
                    && #[trigger] after.shares_exclusive_lock(c),
        }
        &&& after.thread_holds == self.thread_holds
        &&& after.rwlock_readers == self.rwlock_readers
        &&& after.rwlock_writer == self.rwlock_writer
        &&& after.lock_order_graph == self.lock_order_graph
        &&& after.same_condvars(self)
    }

    /// Records a contended attempt of `thread_id` on the mutex `lock_id`,
    /// whose holder was seen as `potential_owner` (when known): that holder
    /// becomes the recorded owner, the thread waits for the owner, and a cycle
    /// met on the way is returned unless all its threads hold one common lock.
    pub fn acquire_slow(&mut self, thread_id: ThreadId, lock_id: LockId, potential_owner: Option<ThreadId>)
        -> (r: Option<Vec<ThreadId>>)
        requires
            old(self).wf(),
        ensures
            final(self).wf(),
            old(self).contends_mutex(thread_id, lock_id, potential_owner, *final(self), r),
            potential_owner matches Some(o) ==> final(self).mutex_owners@.contains_key(lock_id)
                && final(self).mutex_owners@[lock_id] == o,
            potential_owner matches Some(o) ==> (!reachable(drop_out_edges(old(self).wait_for_graph@, thread_id), o, thread_id)
                ==> final(self).wait_for_graph@.contains((thread_id, o)) && r is None),
            potential_owner matches Some(o) ==> (r matches Some(c) ==> is_path_between(final(self).wait_for_graph@, c@, o, thread_id)),
    {
        self.record(EventRecord::new(thread_id, lock_id, Events::MutexAttempt, None, None));
        let effective_owner = match potential_owner {
            Some(o) => Some(o),
            None => match fx::map_get(&self.mutex_owners, lock_id) {
                Some(o) => Some(*o),
                None => None,
            },
        };
        match effective_owner {
            Some(owner) => {
                fx::map_insert(&mut self.mutex_owners, lock_id, owner);
                proof {
                    if potential_owner is None {
                        assert(self.mutex_owners@ =~= old(self).mutex_owners@);
                    }
                }
            },
            None => {},
        }
        let ghost s1 = *self;
        let intent = WaitIntent::new(lock_id, WaitMode::Mutex);
        let r = match self.register_wait(thread_id, intent) {
            Some(cycle) => {
                assert(s1.incompatible(intent) == self.mutex_holder(lock_id));
                let filtered_cycle = self.filter_cycle_by_common_locks(cycle.as_slice());
                if filtered_cycle.len() > 0 {
                    Some(cycle)
                } else {
                    proof {
                        assert(self.shares_exclusive_lock(cycle@));
                    }
                    None
                }
            },
            None => None,
        };
        proof {
            assert(old(self).contends_mutex(thread_id, lock_id, potential_owner, *self, r));
            if let Some(o) = potential_owner {
                law_contended_mutex_waits_for_seen_owner(*old(self), thread_id, lock_id, o, *self, r);
            }
        }
        r
    }

    /// What completing an acquisition of the mutex `lock_id` by `thread_id`
    /// does (see [`Detector::complete_acquire`]): `after` is the detector
    /// afterwards and `r` the report.
    pub open spec fn acquires_mutex(&self, thread_id: ThreadId, lock_id: LockId, after: Detector, r: Option<DeadlockInfo>) -> bool {
        exists|s1: Detector, lov: Option<DeadlockInfo>| {
            &&& s1.wf()
            &&& s1.mutex_owners@ == self.mutex_owners@.insert(lock_id, thread_id)
            &&& pairs(s1.thread_holds) == pairs(self.thread_holds).insert((thread_id, lock_id))
            &&& s1.thread_waits_for@ == self.thread_waits_for@.remove(thread_id)
            &&& pairs(s1.lock_waiters) == drop_second(pairs(self.lock_waiters), thread_id)
            &&& s1.wait_for_graph@ == drop_out_edges(self.wait_for_graph@, thread_id)
            &&& s1.events@ == self.events@.push(EventRecord::make(thread_id, lock_id, Events::MutexAcquired, None, None))
            &&& s1.rwlock_readers == self.rwlock_readers
            &&& s1.rwlock_writer == self.rwlock_writer
            &&& s1.same_condvars(self)
            &&& #[trigger] self.order_checks(thread_id, lock_id, s1, lov)
            &&& s1.acquire_report(lock_id, after, lov, r)
        }
    }

    /// Updates the detector once `thread_id` holds the mutex `lock_id`: the
    /// thread becomes the owner and holder and stops waiting, the lock order
    /// is checked when enabled and the thread already held a lock, and the
    /// waiters of the lock are refreshed. Returns a deadlock found there, or
    /// else the lock order violation, if any.
    pub fn complete_acquire(&mut self, thread_id: ThreadId, lock_id: LockId) -> (r: Option<DeadlockInfo>)
        requires
            old(self).wf(),
        ensures
            final(self).wf(),
            old(self).acquires_mutex(thread_id, lock_id, *final(self), r),
            final(self).mutex_owners@ == old(self).mutex_owners@.insert(lock_id, thread_id),
            pairs(final(self).thread_holds) == pairs(old(self).thread_holds).insert((thread_id, lock_id)),
            final(self).thread_waits_for@ == old(self).thread_waits_for@.remove(thread_id),
    {
        fx::map_insert(&mut self.mutex_owners, lock_id, thread_id);
        let ghost s0 = *self;
        let lov = self.order_check(thread_id, lock_id);
        let ghost sc = *self;
        assert(s0.order_checks(thread_id, lock_id, sc, lov));
        self.add_hold(thread_id, lock_id);
        self.clear_wait_intent(thread_id);
        self.record(EventRecord::new(thread_id, lock_id, Events::MutexAcquired, None, None));
        let ghost s1 = *self;
        assert(old(self).order_checks(thread_id, lock_id, s1, lov));
        let r = self.report_after_acquire(lock_id, lov);
        assert(s1.acquire_report(lock_id, *self, lov, r));
        assert(old(self).acquires_mutex(thread_id, lock_id, *self, r));
        proof {
            law_acquire_records_owner(*old(self), thread_id, lock_id, *self, r);
        }
        r
    }

    /// The lock order check of an acquisition: when lock order checking is on
    /// and `thread_id` already holds a lock, records the order of its held locks
    /// before `lock_id` and reports a violation found.
    pub fn order_check(&mut self, thread_id: ThreadId, lock_id: LockId) -> (r: Option<DeadlockInfo>)
        requires
            old(self).wf(),
        ensures
            final(self).wf(),
            final(self).lock_order_graph is Some == old(self).lock_order_graph is Some,
            (old(self).lock_order_graph is None || old(self).held(thread_id) == Set::<LockId>::empty())
                ==> final(self).lock_order_graph == old(self).lock_order_graph && r is None,
            r matches Some(info) ==> is_order_report(info, thread_id, lock_id, old(self).held(thread_id)),
            old(self).lock_order_graph matches Some(g0) ==> (old(self).held(thread_id) != Set::<LockId>::empty() ==>
                (final(self).lock_order_graph matches Some(g1)
                    && adds_edges_from(g0, old(self).held(thread_id), lock_id, g1, lov_cycle(r)))),
            final(self).wait_for_graph == old(self).wait_for_graph,
            final(self).thread_waits_for == old(self).thread_waits_for,
            final(self).lock_waiters == old(self).lock_waiters,
            final(self).events == old(self).events,
            final(self).same_owners(old(self)),
            final(self).same_condvars(old(self)),
    {
        if self.lock_order_graph.is_none() {
            return None;
        }
        let held = self.held_locks(thread_id);
        if held.len() == 0 {
            proof {
                assert(self.held(thread_id) =~= Set::<LockId>::empty()) by {
                    assert forall|l: LockId| !self.held(thread_id).contains(l) by {
                        if self.held(thread_id).contains(l) {
                            assert(held@.to_set().contains(l));
                        }
                    }
                }
            }
            return None;
        }
        proof {
            assert(held@.to_set().contains(held@[0]));
        }
        match self.check_lock_order_violation(thread_id, lock_id) {
            Some(lock_cycle) => {
                let info = self.extract_lock_order_violation_info(thread_id, lock_id, lock_cycle);
                Some(info)
            },
            None => None,
        }
    }

    /// The refresh of the waiters of `lock_id` after an acquisition, and the
    /// report it gives, with the lock order report `lov` as the fallback.
    pub fn report_after_acquire(&mut self, lock_id: LockId, lov: Option<DeadlockInfo>) -> (r: Option<DeadlockInfo>)
        requires
            old(self).wf(),
        ensures
            final(self).wf(),
            old(self).acquire_report(lock_id, *final(self), lov, r),
    {
        let ghost s0 = *self;
        let rc = self.refresh_waiters_for_lock(lock_id);
        let ghost mid = *self;
        match rc {
            Some(c) => {
                let ghost cv = c@;
                let vr = self.validated_deadlock_info(c);
                proof {
                    assert(mid.validates(cv, *self, vr));
                }
                let r = match vr {
                    Some(info) => Some(info),
                    None => lov,
                };
                proof {
                    assert(s0.refreshes(lock_id, mid, Some(c)));
                }
                r
            },
            None => {
                proof {
                    assert(s0.refreshes(lock_id, mid, rc));
                }
                lov
            },
        }
    }

    /// Records that `thread_id` released the mutex `lock_id`: it stops being
    /// the owner (if it was) and a holder, and the waiters of the lock are refreshed.
    pub fn release_mutex(&mut self, thread_id: ThreadId, lock_id: LockId)
        requires
            old(self).wf(),
        ensures
            final(self).wf(),
            final(self).mutex_owners@ == (if old(self).mutex_owners@.contains_key(lock_id)
                && old(self).mutex_owners@[lock_id] == thread_id {
                old(self).mutex_owners@.remove(lock_id)
            } else {
                old(self).mutex_owners@
            }),
            pairs(final(self).thread_holds) == pairs(old(self).thread_holds).remove((thread_id, lock_id)),
            final(self).thread_holds@.dom() == holds_keys_after_release(old(self).thread_holds, thread_id, lock_id),
            final(self).events@ == old(self).events@.push(EventRecord::make(thread_id, lock_id, Events::MutexReleased, None, None)),
            exists|s1: Detector, rc: Option<Vec<ThreadId>>| {
                &&& s1.mutex_owners == final(self).mutex_owners
                &&& s1.thread_holds == final(self).thread_holds
                &&& s1.wait_for_graph == old(self).wait_for_graph
                &&& s1.thread_waits_for == old(self).thread_waits_for
                &&& s1.lock_waiters == old(self).lock_waiters
                &&& s1.events == final(self).events
                &&& #[trigger] s1.refreshes(lock_id, *final(self), rc)
            },
            final(self).thread_waits_for == old(self).thread_waits_for,
            final(self).lock_waiters == old(self).lock_waiters,
            final(self).rwlock_readers == old(self).rwlock_readers,
            final(self).rwlock_writer == old(self).rwlock_writer,
            final(self).lock_order_graph == old(self).lock_order_graph,
            final(self).same_condvars(old(self)),
    {
        self.record(EventRecord::new(thread_id, lock_id, Events::MutexReleased, None, None));
        let is_owner = match fx::map_get(&self.mutex_owners, lock_id) {
            Some(o) => *o == thread_id,
            None => false,
        };
        if is_owner {
            fx::map_remove(&mut self.mutex_owners, lock_id);
        }
        self.remove_hold(thread_id, lock_id);
        let ghost s1 = *self;
        let rc = self.refresh_waiters_for_lock(lock_id);
        assert(s1.refreshes(lock_id, *self, rc));
    }
}

/// Records the creation of the mutex `lock_id` by `creator_id`, or by
/// `current_thread` when no creator is given.
pub fn create_mutex(detector: &mut Detector, lock_id: LockId, creator_id: Option<ThreadId>, current_thread: ThreadId)
    requires
        old(detector).wf(),
    ensures
        final(detector).wf(),
        final(detector).events@ == old(detector).events@.push(
            EventRecord::make(0, lock_id, Events::MutexSpawn, Some(creator_of(creator_id, current_thread)), None)),
        final(detector).wait_for_graph == old(detector).wait_for_graph,
        final(detector).thread_waits_for == old(detector).thread_waits_for,
        final(detector).lock_waiters == old(detector).lock_waiters,
        final(detector).lock_order_graph == old(detector).lock_order_graph,
        final(detector).same_owners(old(detector)),
        final(detector).same_condvars(old(detector)),
{
    detector.create_mutex(lock_id, creator_id, current_thread)
}

/// Forgets the mutex `lock_id` (see [`Detector::destroy_mutex`]).
pub fn destroy_mutex(detector: &mut Detector, lock_id: LockId)
    requires
        old(detector).wf(),
    ensures
        final(detector).wf(),
        final(detector).mutex_owners@ == old(detector).mutex_owners@.remove(lock_id),
        final(detector).thread_waits_for@
            == old(detector).thread_waits_for@.remove_keys(waiting_on(old(detector).thread_waits_for@, lock_id)),
        pairs(final(detector).lock_waiters)
            == drop_seconds(pairs(old(detector).lock_waiters), waiting_on(old(detector).thread_waits_for@, lock_id)),
        final(detector).wait_for_graph@
            == drop_sources(old(detector).wait_for_graph@, waiting_on(old(detector).thread_waits_for@, lock_id)),
        pairs(final(detector).thread_holds) == drop_second(pairs(old(detector).thread_holds), lock_id),
        match old(detector).lock_order_graph {
            None => final(detector).lock_order_graph is None,
            Some(g) => final(detector).lock_order_graph matches Some(g2) && g2@ == drop_node(g@, lock_id)
                && g2.cycle_cache@.dom() == Set::<(LockId, LockId)>::empty() && g2.generation == g.generation,
        },
        final(detector).events@ == old(detector).events@.push(EventRecord::make(0, lock_id, Events::MutexExit, None, None)),
        final(detector).rwlock_readers == old(detector).rwlock_readers,
        final(detector).rwlock_writer == old(detector).rwlock_writer,
        final(detector).same_condvars(old(detector)),
{
    detector.destroy_mutex(lock_id)
}

/// Records a release of the mutex `lock_id` by `thread_id` (see [`Detector::release_mutex`]).
pub fn release_mutex(detector: &mut Detector, thread_id: ThreadId, lock_id: LockId)
    requires
        old(detector).wf(),
    ensures
        final(detector).wf(),
        final(detector).mutex_owners@ == (if old(detector).mutex_owners@.contains_key(lock_id)
            && old(detector).mutex_owners@[lock_id] == thread_id {
            old(detector).mutex_owners@.remove(lock_id)
        } else {
            old(detector).mutex_owners@
        }),
        pairs(final(detector).thread_holds) == pairs(old(detector).thread_holds).remove((thread_id, lock_id)),
        final(detector).thread_holds@.dom() == holds_keys_after_release(old(detector).thread_holds, thread_id, lock_id),
        final(detector).events@ == old(detector).events@.push(EventRecord::make(thread_id, lock_id, Events::MutexReleased, None, None)),
        exists|s1: Detector, rc: Option<Vec<ThreadId>>| {
            &&& s1.mutex_owners == final(detector).mutex_owners
            &&& s1.thread_holds == final(detector).thread_holds
            &&& s1.wait_for_graph == old(detector).wait_for_graph
            &&& s1.thread_waits_for == old(detector).thread_waits_for
            &&& s1.lock_waiters == old(detector).lock_waiters
            &&& s1.events == final(detector).events
            &&& #[trigger] s1.refreshes(lock_id, *final(detector), rc)
        },
        final(detector).thread_waits_for == old(detector).thread_waits_for,
        final(detector).lock_waiters == old(detector).lock_waiters,
        final(detector).rwlock_readers == old(detector).rwlock_readers,
        final(detector).rwlock_writer == old(detector).rwlock_writer,
        final(detector).lock_order_graph == old(detector).lock_order_graph,
        final(detector).same_condvars(old(detector)),
{
    detector.release_mutex(thread_id, lock_id)
}

/// Completes a blocking acquisition of the mutex `lock_id` by `thread_id` and
/// returns the deadlock to report, if any (see [`Detector::complete_acquire`]).
pub fn complete_acquire(detector: &mut Detector, thread_id: ThreadId, lock_id: LockId) -> (r: Option<DeadlockInfo>)
    requires
        old(detector).wf(),
    ensures
        final(detector).wf(),
        old(detector).acquires_mutex(thread_id, lock_id, *final(detector), r),
        final(detector).mutex_owners@ == old(detector).mutex_owners@.insert(lock_id, thread_id),
        pairs(final(detector).thread_holds) == pairs(old(detector).thread_holds).insert((thread_id, lock_id)),
        final(detector).thread_waits_for@ == old(detector).thread_waits_for@.remove(thread_id),
        r matches Some(info) ==> is_order_report(info, thread_id, lock_id, old(detector).held(thread_id))
            || (final(detector).valid_wait_cycle(info.thread_cycle@) && final(detector).is_cycle_report(info, info.thread_cycle@)),
{
    let r = detector.complete_acquire(thread_id, lock_id);
    proof {
        let (s1, lov) = choose|s1: Detector, lov: Option<DeadlockInfo>| {
            &&& s1.wf()
            &&& s1.mutex_owners@ == old(detector).mutex_owners@.insert(lock_id, thread_id)
            &&& pairs(s1.thread_holds) == pairs(old(detector).thread_holds).insert((thread_id, lock_id))
            &&& s1.thread_waits_for@ == old(detector).thread_waits_for@.remove(thread_id)
            &&& pairs(s1.lock_waiters) == drop_second(pairs(old(detector).lock_waiters), thread_id)
            &&& s1.wait_for_graph@ == drop_out_edges(old(detector).wait_for_graph@, thread_id)
            &&& s1.events@ == old(detector).events@.push(EventRecord::make(thread_id, lock_id, Events::MutexAcquired, None, None))
            &&& s1.rwlock_readers == old(detector).rwlock_readers
            &&& s1.rwlock_writer == old(detector).rwlock_writer
            &&& s1.same_condvars(old(detector))
            &&& #[trigger] old(detector).order_checks(thread_id, lock_id, s1, lov)
            &&& s1.acquire_report(lock_id, *detector, lov, r)
        };
        let (mid, rc) = choose|mid: Detector, rc: Option<Vec<ThreadId>>| {
            &&& s1.refreshes(lock_id, mid, rc)
            &&& match rc {
                None => *detector == mid && r == lov,
                Some(c) => exists|vr: Option<DeadlockInfo>| {
                    &&& #[trigger] mid.validates(c@, *detector, vr)
                    &&& r == (if vr is Some { vr } else { lov })
                },
            }
        };
        if rc is Some {
            let c = rc->0;
            let vr = choose|vr: Option<DeadlockInfo>| {
                &&& #[trigger] mid.validates(c@, *detector, vr)
                &&& r == (if vr is Some { vr } else { lov })
            };
            if vr is Some {
                let info = vr->0;
                crate::detector::wait::lemma_agree_reports(&mid, &*detector);
                if mid.valid_wait_cycle(c@) {
                    assert(mid.is_cycle_report(info, c@));
                } else {
                    assert(mid.valid_wait_cycle(info.thread_cycle@));
                }
            }
        }
    }
    r
}

} // verus!

verus! {

/// Registers contention on the mutex `lock_id` and rechecks the lock before
/// the wait is kept: `try_acquire` is called first; when it succeeds the
/// acquisition is completed at once. Otherwise `owner_hint` gives the holder
/// seen by the lock, the contended attempt is recorded, and a cycle found on
/// the way is checked. Returns what `try_acquire` gave and the deadlock to
/// report, if any.
pub fn acquire_slow_with_recheck<T, F: FnOnce() -> Option<T>, H: FnOnce() -> Option<ThreadId>>(
    detector: &mut Detector,
    thread_id: ThreadId,
    lock_id: LockId,
    try_acquire: F,
    owner_hint: H,
) -> (r: (Option<T>, Option<DeadlockInfo>))
    requires
        old(detector).wf(),
        call_requires(try_acquire, ()),
        call_requires(owner_hint, ()),
    ensures
        final(detector).wf(),
        call_ensures(try_acquire, (), r.0),
        r.0 is Some ==> old(detector).acquires_mutex(thread_id, lock_id, *final(detector), r.1),
        r.0 is None ==> exists|hint: Option<ThreadId>, s1: Detector, rc: Option<Vec<ThreadId>>| {
            &&& call_ensures(owner_hint, (), hint)
            &&& #[trigger] old(detector).contends_mutex(thread_id, lock_id, hint, s1, rc)
            &&& match rc {
                None => *final(detector) == s1 && r.1 is None,
                Some(c) => s1.validates(c@, *final(detector), r.1),
            }
        },
{
    match try_acquire() {
        Some(acquired) => {
            let info = detector.complete_acquire(thread_id, lock_id);
            (Some(acquired), info)
        },
        None => {
            let hint = owner_hint();
            let rc = detector.acquire_slow(thread_id, lock_id, hint);
            let ghost s1 = *detector;
            let ghost rcg = rc;
            let info = match rc {
                Some(cycle) => detector.validated_deadlock_info(cycle),
                None => None,
            };
            assert(old(detector).contends_mutex(thread_id, lock_id, hint, s1, rcg));
            (None, info)
        },
    }
}

} // verus!

verus! {

/// Law: completing an acquisition of a mutex and then releasing it by the
/// same thread leaves the mutex without owner and the thread's held locks
/// as they were, but for that mutex.
pub proof fn law_acquire_then_release(d0: Detector, d1: Detector, d2: Detector, thread_id: ThreadId, lock_id: LockId,
    r: Option<DeadlockInfo>)
    requires
        d0.acquires_mutex(thread_id, lock_id, d1, r),
        d2.mutex_owners@ == (if d1.mutex_owners@.contains_key(lock_id) && d1.mutex_owners@[lock_id] == thread_id {
            d1.mutex_owners@.remove(lock_id)
        } else {
            d1.mutex_owners@
        }),
        pairs(d2.thread_holds) == pairs(d1.thread_holds).remove((thread_id, lock_id)),
    ensures
        d2.mutex_owners@ == d0.mutex_owners@.remove(lock_id),
        pairs(d2.thread_holds) == pairs(d0.thread_holds).remove((thread_id, lock_id)),
{
    let (s1, lov) = choose|s1: Detector, lov: Option<DeadlockInfo>| {
        &&& s1.wf()
        &&& s1.mutex_owners@ == d0.mutex_owners@.insert(lock_id, thread_id)
        &&& pairs(s1.thread_holds) == pairs(d0.thread_holds).insert((thread_id, lock_id))
        &&& s1.thread_waits_for@ == d0.thread_waits_for@.remove(thread_id)
        &&& pairs(s1.lock_waiters) == drop_second(pairs(d0.lock_waiters), thread_id)
        &&& s1.wait_for_graph@ == drop_out_edges(d0.wait_for_graph@, thread_id)
        &&& s1.events@ == d0.events@.push(EventRecord::make(thread_id, lock_id, Events::MutexAcquired, None, None))
        &&& s1.rwlock_readers == d0.rwlock_readers
        &&& s1.rwlock_writer == d0.rwlock_writer
        &&& s1.same_condvars(&d0)
        &&& #[trigger] d0.order_checks(thread_id, lock_id, s1, lov)
        &&& s1.acquire_report(lock_id, d1, lov, r)
    };
    let (mid, rc) = choose|mid: Detector, rc: Option<Vec<ThreadId>>| {
        &&& s1.refreshes(lock_id, mid, rc)
        &&& match rc {
            None => d1 == mid && r == lov,
            Some(c) => exists|vr: Option<DeadlockInfo>| {
                &&& #[trigger] mid.validates(c@, d1, vr)
                &&& r == (if vr is Some { vr } else { lov })
            },
        }
    };
    assert(d1.mutex_owners == s1.mutex_owners && d1.thread_holds == s1.thread_holds) by {
        if rc is Some {
            let c = rc->0;
            let vr = choose|vr: Option<DeadlockInfo>| {
                &&& #[trigger] mid.validates(c@, d1, vr)
                &&& r == (if vr is Some { vr } else { lov })
            };
        }
    }
    assert(d2.mutex_owners@ =~= d0.mutex_owners@.remove(lock_id));
    assert(pairs(d2.thread_holds) =~= pairs(d0.thread_holds).remove((thread_id, lock_id)));
}

/// Law: when a thread blocks on a mutex whose holder was seen as `owner`,
/// `owner` becomes the recorded owner of the mutex and the thread waits for
/// it: the edge from the thread to `owner` is in the wait-for graph and
/// nothing is returned, unless `owner` already reaches the thread through
/// the other waits. Then that edge would close a cycle, and a path from
/// `owner` back to the thread is returned; nothing is returned only when the
/// threads of such a path all hold one lock that is not read-shared.
pub proof fn law_contended_mutex_waits_for_seen_owner(d0: Detector, thread_id: ThreadId, lock_id: LockId,
    owner: ThreadId, d1: Detector, r: Option<Vec<ThreadId>>)
    requires
        d0.contends_mutex(thread_id, lock_id, Some(owner), d1, r),
    ensures
        d1.mutex_owners@.contains_key(lock_id) && d1.mutex_owners@[lock_id] == owner,
        d1.thread_waits_for@.contains_key(thread_id)
            && d1.thread_waits_for@[thread_id] == (WaitIntent { lock_id, mode: WaitMode::Mutex }),
        !reachable(drop_out_edges(d0.wait_for_graph@, thread_id), owner, thread_id)
            ==> d1.wait_for_graph@.contains((thread_id, owner)) && r is None,
        reachable(drop_out_edges(d0.wait_for_graph@, thread_id), owner, thread_id) ==> match r {
            Some(c) => is_path_between(d1.wait_for_graph@, c@, owner, thread_id) && !d1.shares_exclusive_lock(c@),
            None => exists|c: Seq<ThreadId>| is_path_between(d1.wait_for_graph@, c, owner, thread_id)
                && #[trigger] d1.shares_exclusive_lock(c),
        },
        r matches Some(c) ==> is_path_between(d1.wait_for_graph@, c@, owner, thread_id),
{
    let g1 = drop_out_edges(d0.wait_for_graph@, thread_id);
    assert(d1.mutex_holder(lock_id) =~= set![owner]);
    assert(d1.mutex_holder(lock_id).contains(owner));
    if !reachable(g1, owner, thread_id) {
        assert(crate::detector::wait::new_wait_edges(g1, thread_id, d1.mutex_holder(lock_id)).contains((thread_id, owner)));
        assert(!rewire_finds_cycle(d0.wait_for_graph@, thread_id, d1.mutex_holder(lock_id))) by {
            if rewire_finds_cycle(d0.wait_for_graph@, thread_id, d1.mutex_holder(lock_id)) {
                let o = choose|o: ThreadId| #[trigger] d1.mutex_holder(lock_id).contains(o)
                    && reachable(drop_out_edges(d0.wait_for_graph@, thread_id), o, thread_id);
                assert(o == owner);
            }
        }
    } else {
        assert(rewire_finds_cycle(d0.wait_for_graph@, thread_id, d1.mutex_holder(lock_id)));
        if r is None {
            let c = choose|c: Seq<ThreadId>| d1.mutex_holder(lock_id).contains(c[0])
                && is_path_between(d1.wait_for_graph@, c, c[0], thread_id)
                && #[trigger] d1.shares_exclusive_lock(c);
            assert(c[0] == owner);
        }
    }
}

/// Law: once a thread completes the acquisition of a mutex, it is the
/// recorded owner of the mutex and holds it, and it no longer waits for any
/// lock; the other owners, holds and waits are as before.
pub proof fn law_acquire_records_owner(d0: Detector, thread_id: ThreadId, lock_id: LockId, d1: Detector, r: Option<DeadlockInfo>)
    requires
        d0.acquires_mutex(thread_id, lock_id, d1, r),
    ensures
        d1.mutex_owners@ == d0.mutex_owners@.insert(lock_id, thread_id),
        pairs(d1.thread_holds) == pairs(d0.thread_holds).insert((thread_id, lock_id)),
        d1.thread_waits_for@ == d0.thread_waits_for@.remove(thread_id),
{
    let (s1, lov) = choose|s1: Detector, lov: Option<DeadlockInfo>| {
        &&& s1.wf()
        &&& s1.mutex_owners@ == d0.mutex_owners@.insert(lock_id, thread_id)
        &&& pairs(s1.thread_holds) == pairs(d0.thread_holds).insert((thread_id, lock_id))
        &&& s1.thread_waits_for@ == d0.thread_waits_for@.remove(thread_id)
        &&& pairs(s1.lock_waiters) == drop_second(pairs(d0.lock_waiters), thread_id)
        &&& s1.wait_for_graph@ == drop_out_edges(d0.wait_for_graph@, thread_id)
        &&& s1.events@ == d0.events@.push(EventRecord::make(thread_id, lock_id, Events::MutexAcquired, None, None))
        &&& s1.rwlock_readers == d0.rwlock_readers
        &&& s1.rwlock_writer == d0.rwlock_writer
        &&& s1.same_condvars(&d0)
        &&& #[trigger] d0.order_checks(thread_id, lock_id, s1, lov)
        &&& s1.acquire_report(lock_id, d1, lov, r)
    };
    let (mid, rc) = choose|mid: Detector, rc: Option<Vec<ThreadId>>| {
        &&& s1.refreshes(lock_id, mid, rc)
        &&& match rc {
            None => d1 == mid && r == lov,
            Some(c) => exists|vr: Option<DeadlockInfo>| {
                &&& #[trigger] mid.validates(c@, d1, vr)
                &&& r == (if vr is Some { vr } else { lov })
            },
        }
    };
    if rc is Some {
        let c = rc->0;
        let vr = choose|vr: Option<DeadlockInfo>| {
            &&& #[trigger] mid.validates(c@, d1, vr)
            &&& r == (if vr is Some { vr } else { lov })
        };
    }
}

} // verus!
