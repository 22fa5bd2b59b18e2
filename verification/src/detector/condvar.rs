//! Condition variable tracking: waits, notifications, and the mutex attempt
//! that a woken thread makes when it reacquires its mutex.
use vstd::prelude::*;
use std::collections::VecDeque;
use crate::detector::Detector;
use crate::detector::wait::{WaitIntent, WaitMode};
use crate::fx;
use crate::graph::wait_for_graph::WaitForGraph;
use crate::paths::{drop_second, is_path_between, reachable};
use crate::relation::{pairs, rel_insert, rel_remove};
use crate::types::{CondvarId, DeadlockInfo, DeadlockSource, EventRecord, Events, LockId, ThreadId};

verus! {

broadcast use vstd::std_specs::vecdeque::group_vec_dequeue_axioms, crate::relation::lemma_pairs_image;

/// The queue of waiters of `cv`, or an empty queue.
pub open spec fn queue_of(queues: Map<CondvarId, VecDeque<(ThreadId, LockId)>>, cv: CondvarId) -> Seq<(ThreadId, LockId)> {
    if queues.contains_key(cv) { queues[cv]@ } else { Seq::empty() }
}

/// The pairs of the map of condition variable waits, with the entries of `cv` left out.
pub open spec fn waits_off(waits: Map<ThreadId, (CondvarId, LockId)>, cv: CondvarId) -> Map<ThreadId, (CondvarId, LockId)> {
    waits.restrict(waits.dom().filter(|t: ThreadId| waits[t].0 != cv))
}

/// What adding the edge `from -> to` to `g` reports (see [`WaitForGraph::add_edge`]).
pub open spec fn add_edge_result(g: Set<(ThreadId, ThreadId)>, from: ThreadId, to: ThreadId, found: Option<Vec<ThreadId>>) -> bool {
    &&& (found is Some <==> !g.contains((from, to)) && reachable(g, to, from))
    &&& (found matches Some(c) ==> is_path_between(g, c@, to, from))
}

impl Detector {
    /// The thread a woken waiter waits for when it reacquires `lock_id`: the
    /// recorded owner, or else `current_thread` (the notifying thread).
    pub open spec fn synthetic_owner(&self, lock_id: LockId, current_thread: ThreadId) -> ThreadId {
        if self.mutex_owners@.contains_key(lock_id) { self.mutex_owners@[lock_id] } else { current_thread }
    }

    /// What the mutex attempt of a woken waiter `thread_id` on `lock_id` does
    /// (see [`Detector::on_mutex_attempt_synthetic_immediate`]): `after` is the
    /// detector afterwards and `r` the reports, the wait cycle first.
    pub open spec fn synthetic_attempt(&self, thread_id: ThreadId, lock_id: LockId, current_thread: ThreadId,
        after: Detector, r: Seq<DeadlockInfo>) -> bool {
        exists|s1: Detector, lov: Option<DeadlockInfo>, found: Option<Vec<ThreadId>>|
            #![trigger self.order_checks(thread_id, lock_id, s1, lov),
                add_edge_result(self.wait_for_graph@, thread_id, self.synthetic_owner(lock_id, current_thread), found)]
        {
            &&& self.order_checks(thread_id, lock_id, s1, lov)
            &&& add_edge_result(self.wait_for_graph@, thread_id, self.synthetic_owner(lock_id, current_thread), found)
            &&& s1.wf()
            &&& s1.wait_for_graph == self.wait_for_graph
            &&& s1.thread_waits_for == self.thread_waits_for
            &&& s1.lock_waiters == self.lock_waiters
            &&& s1.events == self.events
            &&& s1.same_owners(self)
            &&& s1.same_condvars(self)
            &&& after.wf()
            &&& after.thread_waits_for@ == self.thread_waits_for@.insert(thread_id, WaitIntent { lock_id, mode: WaitMode::Mutex })
            &&& pairs(after.lock_waiters) == drop_second(pairs(self.lock_waiters), thread_id).insert((lock_id, thread_id))
            &&& after.wait_for_graph@
                == WaitForGraph::spec_add_edge(self.wait_for_graph@, thread_id, self.synthetic_owner(lock_id, current_thread))
            &&& after.lock_order_graph == s1.lock_order_graph
            &&& after.events == self.events
            &&& after.same_owners(self)
            &&& after.same_condvars(self)
            &&& r.len() == (match found {
                Some(c) => if after.shares_exclusive_lock(c@) { 0int } else { 1int },
                None => 0int,
            }) + (if lov is Some { 1int } else { 0int })
            &&& (match found {
                Some(c) => !after.shares_exclusive_lock(c@) ==> after.is_cycle_report(r[0], c@),
                None => true,
            })
            &&& (lov matches Some(info) ==> r[r.len() - 1] == info)
        }
    }

    /// Records that `thread_id`, woken from a condition variable, waits to
    /// reacquire the mutex `lock_id`: the thread waits for the recorded owner,
    /// or for `current_thread` (the notifying thread) when there is none. The
    /// wait cycle met, unless all its threads share a lock, and a lock order
    /// violation, when lock order checking is on and the thread holds a lock,
    /// are returned in this order. The new intent replaces the thread's
    /// previous one, so the thread leaves the waiters of the lock it wanted
    /// before, as with [`Detector::set_wait_intent`]: the waiter index names
    /// each thread under the lock of its current intent only.
    pub fn on_mutex_attempt_synthetic_immediate(&mut self, thread_id: ThreadId, lock_id: LockId, current_thread: ThreadId)
        -> (r: Vec<DeadlockInfo>)
        requires
            old(self).wf(),
        ensures
            final(self).wf(),
            old(self).synthetic_attempt(thread_id, lock_id, current_thread, *final(self), r@),
            ({
                let o = old(self).synthetic_owner(lock_id, current_thread);
                let g = old(self).wait_for_graph@;
                &&& !g.contains((thread_id, o)) && reachable(g, o, thread_id) ==> {
                    ||| r@.len() >= 1 && final(self).is_cycle_report(r@[0], r@[0].thread_cycle@)
                        && is_path_between(g, r@[0].thread_cycle@, o, thread_id)
                    ||| exists|c: Seq<ThreadId>| is_path_between(g, c, o, thread_id)
                        && #[trigger] final(self).shares_exclusive_lock(c)
                }
                &&& !reachable(g, o, thread_id) ==> final(self).wait_for_graph@.contains((thread_id, o))
                    && r@.len() <= 1 && forall|i: int| 0 <= i < r@.len() ==> (#[trigger] r@[i]).source == DeadlockSource::LockOrderViolation
            }),
    {
        let ghost s0 = *self;
        let lov = self.order_check(thread_id, lock_id);
        let ghost s1 = *self;
        let owner = match fx::map_get(&self.mutex_owners, lock_id) {
            Some(o) => *o,
            None => current_thread,
        };
        let intent = WaitIntent::new(lock_id, WaitMode::Mutex);
        match fx::map_insert(&mut self.thread_waits_for, thread_id, intent) {
            Some(prev) => {
                if prev.lock_id != lock_id {
                    rel_remove(&mut self.lock_waiters, prev.lock_id, thread_id);
                }
            },
            None => {},
        }
        rel_insert(&mut self.lock_waiters, lock_id, thread_id);
        proof {
            assert(pairs(self.lock_waiters) =~= drop_second(pairs(s0.lock_waiters), thread_id).insert((lock_id, thread_id))) by {
                assert forall|e: (LockId, ThreadId)| pairs(s0.lock_waiters).contains(e) && e.1 == thread_id
                    implies e.0 == s0.thread_waits_for@[thread_id].lock_id by {}
            }
        }
        let found = self.wait_for_graph.add_edge(thread_id, owner);
        let ghost fg = found;
        let mut deadlocks: Vec<DeadlockInfo> = Vec::new();
        match found {
            Some(cycle) => {
                let filtered_cycle = self.filter_cycle_by_common_locks(cycle.as_slice());
                if filtered_cycle.len() > 0 {
                    let info = self.extract_deadlock_info(cycle);
                    deadlocks.push(info);
                }
            },
            None => {},
        }
        match lov {
            Some(info) => {
                deadlocks.push(info);
            },
            None => {},
        }
        proof {
            assert(s0.order_checks(thread_id, lock_id, s1, lov));
            assert(add_edge_result(s0.wait_for_graph@, thread_id, s0.synthetic_owner(lock_id, current_thread), fg));
            assert(s0.synthetic_attempt(thread_id, lock_id, current_thread, *self, deadlocks@));
            law_woken_attempt_reports_closed_cycle(s0, thread_id, lock_id, current_thread, *self, deadlocks@);
        }
        deadlocks
    }
}

impl Detector {
    /// Records the creation of the condition variable `condvar_id` by
    /// `current_thread`; it starts with an empty wait queue.
    pub fn create_condvar(&mut self, condvar_id: CondvarId, current_thread: ThreadId)
        requires
            old(self).wf(),
        ensures
            final(self).wf(),
            final(self).cv_waiters@.dom() == old(self).cv_waiters@.dom().insert(condvar_id),
            queue_of(final(self).cv_waiters@, condvar_id) == Seq::<(ThreadId, LockId)>::empty(),
            forall|c: CondvarId| c != condvar_id ==> #[trigger] queue_of(final(self).cv_waiters@, c) == queue_of(old(self).cv_waiters@, c),
            final(self).events@ == old(self).events@.push(EventRecord::make(0, condvar_id, Events::CondvarSpawn, Some(current_thread), None)),
            final(self).thread_wait_cv == old(self).thread_wait_cv,
            final(self).cv_woken == old(self).cv_woken,
            final(self).wait_for_graph == old(self).wait_for_graph,
            final(self).thread_waits_for == old(self).thread_waits_for,
            final(self).lock_waiters == old(self).lock_waiters,
            final(self).lock_order_graph == old(self).lock_order_graph,
            final(self).same_owners(old(self)),
    {
        fx::map_insert(&mut self.cv_waiters, condvar_id, VecDeque::new());
        self.record(EventRecord::new(0, condvar_id, Events::CondvarSpawn, Some(current_thread), None));
    }

    /// Forgets the condition variable `condvar_id`: its queue and every
    /// thread's wait on it.
    pub fn destroy_condvar(&mut self, condvar_id: CondvarId)
        requires
            old(self).wf(),
        ensures
            final(self).wf(),
            final(self).cv_waiters@ == old(self).cv_waiters@.remove(condvar_id),
            final(self).thread_wait_cv@ == waits_off(old(self).thread_wait_cv@, condvar_id),
            final(self).events@ == old(self).events@.push(EventRecord::make(0, condvar_id, Events::CondvarExit, None, None)),
            final(self).cv_woken == old(self).cv_woken,
            final(self).wait_for_graph == old(self).wait_for_graph,
            final(self).thread_waits_for == old(self).thread_waits_for,
            final(self).lock_waiters == old(self).lock_waiters,
            final(self).lock_order_graph == old(self).lock_order_graph,
            final(self).same_owners(old(self)),
    {
        fx::map_remove(&mut self.cv_waiters, condvar_id);
        let threads = fx::map_keys(&self.thread_wait_cv);
        let ghost m0 = self.thread_wait_cv@;
        let mut i: usize = 0;
        while i < threads.len()
            invariant
                0 <= i <= threads.len(),
                threads@.to_set() == m0.dom(),
                threads@.no_duplicates(),
                m0 == old(self).thread_wait_cv@,
                self.thread_wait_cv@ == m0.restrict(m0.dom().filter(|t: ThreadId|
                    !threads@.take(i as int).contains(t) || m0[t].0 != condvar_id)),
                self.cv_waiters@ == old(self).cv_waiters@.remove(condvar_id),
                self.cv_woken == old(self).cv_woken,
                self.events == old(self).events,
                self.wait_for_graph == old(self).wait_for_graph,
                self.thread_waits_for == old(self).thread_waits_for,
                self.lock_waiters == old(self).lock_waiters,
                self.lock_order_graph == old(self).lock_order_graph,
                self.same_owners(old(self)),
            decreases threads.len() - i,
        {
            let t = threads[i];
            proof {
                assert(threads@.take(i + 1) == threads@.take(i as int).push(t));
                crate::paths::lemma_push_contains(threads@.take(i as int), t);
                assert(threads@.to_set().contains(t)) by { assert(threads@.contains(t)); }
                assert(!threads@.take(i as int).contains(t)) by {
                    if threads@.take(i as int).contains(t) {
                        let m = choose|m: int| 0 <= m < i && threads@.take(i as int)[m] == t;
                        assert(threads@[m] == threads@[i as int]);
                    }
                }
            }
            let entry = *fx::map_get(&self.thread_wait_cv, t).unwrap();
            if entry.0 == condvar_id {
                fx::map_remove(&mut self.thread_wait_cv, t);
            }
            proof {
                assert(self.thread_wait_cv@ =~= m0.restrict(m0.dom().filter(|x: ThreadId|
                    !threads@.take(i + 1).contains(x) || m0[x].0 != condvar_id)));
            }
            i = i + 1;
        }
        proof {
            assert(threads@.take(threads@.len() as int) =~= threads@);
            assert(self.thread_wait_cv@ =~= waits_off(old(self).thread_wait_cv@, condvar_id));
        }
        self.record(EventRecord::new(0, condvar_id, Events::CondvarExit, None, None));
    }

    /// Records that `thread_id` begins waiting on `condvar_id`, to reacquire
    /// `mutex_id` afterwards: it joins the end of the condition variable's queue.
    pub fn begin_wait(&mut self, thread_id: ThreadId, condvar_id: CondvarId, mutex_id: LockId)
        requires
            old(self).wf(),
        ensures
            final(self).wf(),
            final(self).cv_waiters@.dom() == old(self).cv_waiters@.dom().insert(condvar_id),
            queue_of(final(self).cv_waiters@, condvar_id) == queue_of(old(self).cv_waiters@, condvar_id).push((thread_id, mutex_id)),
            forall|c: CondvarId| c != condvar_id ==> #[trigger] queue_of(final(self).cv_waiters@, c) == queue_of(old(self).cv_waiters@, c),
            final(self).thread_wait_cv@ == old(self).thread_wait_cv@.insert(thread_id, (condvar_id, mutex_id)),
            final(self).events@ == old(self).events@.push(EventRecord::make(thread_id, condvar_id, Events::CondvarWaitBegin, None, None)),
            final(self).cv_woken == old(self).cv_woken,
            final(self).wait_for_graph == old(self).wait_for_graph,
            final(self).thread_waits_for == old(self).thread_waits_for,
            final(self).lock_waiters == old(self).lock_waiters,
            final(self).lock_order_graph == old(self).lock_order_graph,
            final(self).same_owners(old(self)),
    {
        let mut queue = match fx::map_remove(&mut self.cv_waiters, condvar_id) {
            Some(q) => q,
            None => VecDeque::new(),
        };
        queue.push_back((thread_id, mutex_id));
        fx::map_insert(&mut self.cv_waiters, condvar_id, queue);
        fx::map_insert(&mut self.thread_wait_cv, thread_id, (condvar_id, mutex_id));
        self.record(EventRecord::new(thread_id, condvar_id, Events::CondvarWaitBegin, None, None));
    }

    /// Records a `notify_one` on `condvar_id` by `notifier_id`: the first
    /// waiter in the queue, if any, is woken and makes its mutex attempt.
    /// Returns the deadlocks found on the way.
    pub fn notify_one(&mut self, condvar_id: CondvarId, notifier_id: ThreadId) -> (r: Vec<DeadlockInfo>)
        requires
            old(self).wf(),
        ensures
            final(self).wf(),
            queue_of(old(self).cv_waiters@, condvar_id).len() == 0 ==> {
                &&& r@ == Seq::<DeadlockInfo>::empty()
                &&& final(self).events@ == old(self).events@.push(
                    EventRecord::make(notifier_id, condvar_id, Events::CondvarNotifyOne, None, None))
                &&& final(self).cv_waiters@.dom() == old(self).cv_waiters@.dom()
                &&& forall|c: CondvarId| #[trigger] queue_of(final(self).cv_waiters@, c) == queue_of(old(self).cv_waiters@, c)
                &&& final(self).cv_woken == old(self).cv_woken
                &&& final(self).wait_for_graph == old(self).wait_for_graph
                &&& final(self).thread_waits_for == old(self).thread_waits_for
                &&& final(self).lock_waiters == old(self).lock_waiters
                &&& final(self).lock_order_graph == old(self).lock_order_graph
                &&& final(self).same_owners(old(self))
            },
            queue_of(old(self).cv_waiters@, condvar_id).len() > 0 ==> {
                let (w, m) = queue_of(old(self).cv_waiters@, condvar_id)[0];
                exists|s1: Detector, s2: Detector| {
                    &&& s1.wf()
                    &&& queue_of(s1.cv_waiters@, condvar_id) == queue_of(old(self).cv_waiters@, condvar_id).drop_first()
                    &&& forall|c: CondvarId| c != condvar_id ==> #[trigger] queue_of(s1.cv_waiters@, c) == queue_of(old(self).cv_waiters@, c)
                    &&& s1.cv_woken == old(self).cv_woken
                    &&& s1.thread_wait_cv == old(self).thread_wait_cv
                    &&& s1.wait_for_graph == old(self).wait_for_graph
                    &&& s1.thread_waits_for == old(self).thread_waits_for
                    &&& s1.lock_waiters == old(self).lock_waiters
                    &&& s1.lock_order_graph == old(self).lock_order_graph
                    &&& s1.events == old(self).events
                    &&& s1.same_owners(old(self))
                    &&& #[trigger] s1.synthetic_attempt(w, m, notifier_id, s2, r@)
                    &&& final(self).events@ == s2.events@
                        .push(EventRecord::make(notifier_id, condvar_id, Events::CondvarNotifyOne, None, Some(w)))
                        .push(EventRecord::make(w, m, Events::MutexAttempt, None, None))
                    &&& final(self).wait_for_graph == s2.wait_for_graph
                    &&& final(self).thread_waits_for == s2.thread_waits_for
                    &&& final(self).lock_waiters == s2.lock_waiters
                    &&& final(self).lock_order_graph == s2.lock_order_graph
                    &&& final(self).same_owners(&s2)
                    &&& final(self).cv_waiters == s2.cv_waiters
                    &&& final(self).thread_wait_cv == s2.thread_wait_cv
                    &&& final(self).cv_woken@ == old(self).cv_woken@.insert(w)
                }
            },
            final(self).thread_wait_cv == old(self).thread_wait_cv,
            queue_of(old(self).cv_waiters@, condvar_id).len() > 0 ==> {
                let (w, m) = queue_of(old(self).cv_waiters@, condvar_id)[0];
                let o = old(self).synthetic_owner(m, notifier_id);
                let g = old(self).wait_for_graph@;
                !g.contains((w, o)) && reachable(g, o, w) ==> {
                    ||| r@.len() >= 1 && r@[0].source == DeadlockSource::WaitForGraph
                        && is_path_between(g, r@[0].thread_cycle@, o, w)
                    ||| exists|c: Seq<ThreadId>| is_path_between(g, c, o, w) && #[trigger] final(self).shares_exclusive_lock(c)
                }
            },
    {
        let popped = match fx::map_remove(&mut self.cv_waiters, condvar_id) {
            Some(mut queue) => {
                let front = queue.pop_front();
                fx::map_insert(&mut self.cv_waiters, condvar_id, queue);
                front
            },
            None => None,
        };
        match popped {
            Some((waiter_thread, mutex_id)) => {
                let ghost s1 = *self;
                let deadlocks = self.on_mutex_attempt_synthetic_immediate(waiter_thread, mutex_id, notifier_id);
                let ghost s2 = *self;
                fx::set_insert(&mut self.cv_woken, waiter_thread);
                self.record(EventRecord::new(notifier_id, condvar_id, Events::CondvarNotifyOne, None, Some(waiter_thread)));
                self.record(EventRecord::new(waiter_thread, mutex_id, Events::MutexAttempt, None, None));
                assert(s1.synthetic_attempt(waiter_thread, mutex_id, notifier_id, s2, deadlocks@));
                proof {
                    law_woken_attempt_reports_closed_cycle(s1, waiter_thread, mutex_id, notifier_id, s2, deadlocks@);
                    assert(self.thread_holds == s2.thread_holds && self.rwlock_readers == s2.rwlock_readers);
                    assert forall|c: Seq<ThreadId>| s2.shares_exclusive_lock(c) implies #[trigger] self.shares_exclusive_lock(c) by {
                        let l = choose|l: LockId| #![trigger s2.rwlock_readers@.contains_key(l)]
                            !s2.rwlock_readers@.contains_key(l)
                            && forall|i: int| 0 <= i < c.len() ==> #[trigger] s2.held(c[i]).contains(l);
                        assert(!self.rwlock_readers@.contains_key(l));
                        assert forall|i: int| 0 <= i < c.len() implies #[trigger] self.held(c[i]).contains(l) by {
                            assert(s2.held(c[i]).contains(l));
                        }
                    }
                    assert(queue_of(old(self).cv_waiters@, condvar_id)[0] == (waiter_thread, mutex_id));
                    assert(s1.synthetic_owner(mutex_id, notifier_id) == old(self).synthetic_owner(mutex_id, notifier_id));
                    assert(s1.wait_for_graph@ == old(self).wait_for_graph@);
                    let o = old(self).synthetic_owner(mutex_id, notifier_id);
                    let g = old(self).wait_for_graph@;
                    if !g.contains((waiter_thread, o)) && reachable(g, o, waiter_thread) {
                        if !(deadlocks@.len() >= 1 && deadlocks@[0].source == DeadlockSource::WaitForGraph
                            && is_path_between(g, deadlocks@[0].thread_cycle@, o, waiter_thread)) {
                            let c = choose|c: Seq<ThreadId>| is_path_between(g, c, o, waiter_thread) && #[trigger] s2.shares_exclusive_lock(c);
                            assert(self.shares_exclusive_lock(c));
                        }
                    }
                }
                deadlocks
            },
            None => {
                proof {
                    assert forall|c: CondvarId| #[trigger] queue_of(self.cv_waiters@, c) == queue_of(old(self).cv_waiters@, c) by {}
                    assert(self.cv_waiters@.dom() =~= old(self).cv_waiters@.dom());
                }
                self.record(EventRecord::new(notifier_id, condvar_id, Events::CondvarNotifyOne, None, None));
                Vec::new()
            },
        }
    }

    /// Records a `notify_all` on `condvar_id` by `notifier_id`: every waiter
    /// in the queue, in order, is woken and makes its mutex attempt. Returns
    /// the deadlocks found on the way, in order.
    pub fn notify_all(&mut self, condvar_id: CondvarId, notifier_id: ThreadId) -> (r: Vec<DeadlockInfo>)
        requires
            old(self).wf(),
        ensures
            final(self).wf(),
            queue_of(final(self).cv_waiters@, condvar_id) == Seq::<(ThreadId, LockId)>::empty(),
            forall|c: CondvarId| c != condvar_id ==> #[trigger] queue_of(final(self).cv_waiters@, c) == queue_of(old(self).cv_waiters@, c),
            final(self).cv_woken@ == old(self).cv_woken@.union(queue_of(old(self).cv_waiters@, condvar_id).map_values(|e: (ThreadId, LockId)| e.0).to_set()),
            final(self).events@ == old(self).events@
                .push(EventRecord::make(notifier_id, condvar_id, Events::CondvarNotifyAll, None,
                    if queue_of(old(self).cv_waiters@, condvar_id).len() > 0 { Some(queue_of(old(self).cv_waiters@, condvar_id)[0].0) } else { None }))
                + queue_of(old(self).cv_waiters@, condvar_id).map_values(|e: (ThreadId, LockId)| EventRecord::make(e.0, e.1, Events::MutexAttempt, None, None)),
            exists|states: Seq<Detector>, reports: Seq<Seq<DeadlockInfo>>| #![trigger states.len(), reports.flatten()] {
                let q = queue_of(old(self).cv_waiters@, condvar_id);
                &&& states.len() == q.len() + 1
                &&& reports.len() == q.len()
                &&& states[0].wait_for_graph == old(self).wait_for_graph
                &&& states[0].thread_waits_for == old(self).thread_waits_for
                &&& states[0].lock_waiters == old(self).lock_waiters
                &&& states[0].lock_order_graph == old(self).lock_order_graph
                &&& states[0].same_owners(old(self))
                &&& forall|k: int| 0 <= k < q.len() ==> #[trigger] states[k].synthetic_attempt(q[k].0, q[k].1, notifier_id, states[k + 1], reports[k])
                &&& final(self).wait_for_graph == states[q.len() as int].wait_for_graph
                &&& final(self).thread_waits_for == states[q.len() as int].thread_waits_for
                &&& final(self).lock_waiters == states[q.len() as int].lock_waiters
                &&& final(self).lock_order_graph == states[q.len() as int].lock_order_graph
                &&& final(self).same_owners(&states[q.len() as int])
                &&& r@ == reports.flatten()
            },
            final(self).thread_wait_cv == old(self).thread_wait_cv,
    {
        let mut waiters: Vec<(ThreadId, LockId)> = Vec::new();
        match fx::map_remove(&mut self.cv_waiters, condvar_id) {
            Some(mut queue) => {
                let ghost q0 = queue@;
                while queue.len() > 0
                    invariant
                        waiters@ + queue@ == q0,
                    decreases queue@.len(),
                {
                    let e = queue.pop_front().unwrap();
                    waiters.push(e);
                    assert(waiters@ + queue@ =~= q0);
                }
                fx::map_insert(&mut self.cv_waiters, condvar_id, queue);
                assert(waiters@ =~= q0);
            },
            None => {},
        }
        let ghost q = waiters@;
        assert(q == queue_of(old(self).cv_waiters@, condvar_id));
        let ghost mut states: Seq<Detector> = seq![*self];
        let ghost mut reports: Seq<Seq<DeadlockInfo>> = Seq::empty();
        let mut all_deadlocks: Vec<DeadlockInfo> = Vec::new();
        let mut i: usize = 0;
        while i < waiters.len()
            invariant
                self.wf(),
                0 <= i <= waiters.len(),
                q == waiters@,
                states.len() == i + 1,
                reports.len() == i,
                states[0].wait_for_graph == old(self).wait_for_graph,
                states[0].thread_waits_for == old(self).thread_waits_for,
                states[0].lock_waiters == old(self).lock_waiters,
                states[0].lock_order_graph == old(self).lock_order_graph,
                states[0].same_owners(old(self)),
                forall|k: int| 0 <= k < i ==> #[trigger] states[k].synthetic_attempt(q[k].0, q[k].1, notifier_id, states[k + 1], reports[k]),
                *self == states[i as int],
                all_deadlocks@ == reports.flatten(),
                self.events == old(self).events,
                self.cv_woken == old(self).cv_woken,
                self.thread_wait_cv == old(self).thread_wait_cv,
                queue_of(self.cv_waiters@, condvar_id) == Seq::<(ThreadId, LockId)>::empty(),
                forall|c: CondvarId| c != condvar_id ==> #[trigger] queue_of(self.cv_waiters@, c) == queue_of(old(self).cv_waiters@, c),
            decreases waiters.len() - i,
        {
            let (waiter_thread, mutex_id) = waiters[i];
            let ghost before = *self;
            let mut deadlocks = self.on_mutex_attempt_synthetic_immediate(waiter_thread, mutex_id, notifier_id);
            let ghost dl = deadlocks@;
            let ghost acc = all_deadlocks@;
            let ghost prev = reports;
            proof {
                assert(before.synthetic_attempt(waiter_thread, mutex_id, notifier_id, *self, dl));
                reports = reports.push(dl);
                states = states.push(*self);
                prev.lemma_flatten_push(dl);
                assert forall|k: int| 0 <= k < i + 1 implies #[trigger] states[k].synthetic_attempt(q[k].0, q[k].1, notifier_id, states[k + 1], reports[k]) by {
                    if k < i {
                        assert(states[k] == states.drop_last()[k]);
                    }
                }
            }
            all_deadlocks.append(&mut deadlocks);
            assert(all_deadlocks@ == acc + dl);
            i = i + 1;
        }
        proof {
            assert(q.take(q.len() as int) =~= q);
        }
        let mut m: usize = 0;
        while m < waiters.len()
            invariant
                self.wf(),
                0 <= m <= waiters.len(),
                q == waiters@,
                self.cv_woken@ == old(self).cv_woken@.union(q.take(m as int).map_values(|e: (ThreadId, LockId)| e.0).to_set()),
                self.wait_for_graph == states[q.len() as int].wait_for_graph,
                self.thread_waits_for == states[q.len() as int].thread_waits_for,
                self.lock_waiters == states[q.len() as int].lock_waiters,
                self.lock_order_graph == states[q.len() as int].lock_order_graph,
                self.same_owners(&states[q.len() as int]),
                self.events == old(self).events,
                self.thread_wait_cv == old(self).thread_wait_cv,
                queue_of(self.cv_waiters@, condvar_id) == Seq::<(ThreadId, LockId)>::empty(),
                forall|c: CondvarId| c != condvar_id ==> #[trigger] queue_of(self.cv_waiters@, c) == queue_of(old(self).cv_waiters@, c),
            decreases waiters.len() - m,
        {
            let waiter_thread = waiters[m].0;
            fx::set_insert(&mut self.cv_woken, waiter_thread);
            proof {
                assert(q.take(m + 1) == q.take(m as int).push(q[m as int]));
                assert(q.take(m + 1).map_values(|e: (ThreadId, LockId)| e.0)
                    =~= q.take(m as int).map_values(|e: (ThreadId, LockId)| e.0).push(waiter_thread));
                crate::paths::lemma_push_contains(q.take(m as int).map_values(|e: (ThreadId, LockId)| e.0), waiter_thread);
                assert(self.cv_woken@ =~= old(self).cv_woken@.union(q.take(m + 1).map_values(|e: (ThreadId, LockId)| e.0).to_set()));
            }
            m = m + 1;
        }
        let first_woken = if waiters.len() > 0 { Some(waiters[0].0) } else { None };
        let ghost before_events = self.events@;
        self.record(EventRecord::new(notifier_id, condvar_id, Events::CondvarNotifyAll, None, first_woken));
        let ghost s_end = *self;
        let mut k: usize = 0;
        while k < waiters.len()
            invariant
                self.wf(),
                0 <= k <= waiters.len(),
                q == waiters@,
                self.events@ == s_end.events@ + q.take(k as int).map_values(|e: (ThreadId, LockId)| EventRecord::make(e.0, e.1, Events::MutexAttempt, None, None)),
                self.wait_for_graph == s_end.wait_for_graph,
                self.thread_waits_for == s_end.thread_waits_for,
                self.lock_waiters == s_end.lock_waiters,
                self.lock_order_graph == s_end.lock_order_graph,
                self.same_owners(&s_end),
                self.same_condvars(&s_end),
            decreases waiters.len() - k,
        {
            let (waiter_thread, mutex_id) = waiters[k];
            self.record(EventRecord::new(waiter_thread, mutex_id, Events::MutexAttempt, None, None));
            proof {
                assert(q.take(k + 1) == q.take(k as int).push(q[k as int]));
                assert(self.events@ =~= s_end.events@ + q.take(k + 1).map_values(|e: (ThreadId, LockId)| EventRecord::make(e.0, e.1, Events::MutexAttempt, None, None)));
            }
            k = k + 1;
        }
        proof {
            assert(q.take(q.len() as int) =~= q);
            assert(states.len() == q.len() + 1);
        }
        all_deadlocks
    }

    /// Records that the condition variable wait of `thread_id` is over: it no
    /// longer waits on a condition variable and is no longer marked woken.
    pub fn end_wait(&mut self, thread_id: ThreadId, _condvar_id: CondvarId, _mutex_id: LockId)
        requires
            old(self).wf(),
        ensures
            final(self).wf(),
            final(self).thread_wait_cv@ == old(self).thread_wait_cv@.remove(thread_id),
            final(self).cv_woken@ == old(self).cv_woken@.remove(thread_id),
            final(self).cv_waiters == old(self).cv_waiters,
            final(self).events == old(self).events,
            final(self).wait_for_graph == old(self).wait_for_graph,
            final(self).thread_waits_for == old(self).thread_waits_for,
            final(self).lock_waiters == old(self).lock_waiters,
            final(self).lock_order_graph == old(self).lock_order_graph,
            final(self).same_owners(old(self)),
    {
        fx::map_remove(&mut self.thread_wait_cv, thread_id);
        fx::set_remove(&mut self.cv_woken, thread_id);
    }
}

} // verus!

verus! {

/// Records the creation of the condition variable `condvar_id` (see [`Detector::create_condvar`]).
pub fn create_condvar(detector: &mut Detector, condvar_id: CondvarId, current_thread: ThreadId)
    requires
        old(detector).wf(),
    ensures
        final(detector).wf(),
        final(detector).cv_waiters@.dom() == old(detector).cv_waiters@.dom().insert(condvar_id),
        queue_of(final(detector).cv_waiters@, condvar_id) == Seq::<(ThreadId, LockId)>::empty(),
        forall|c: CondvarId| c != condvar_id ==> #[trigger] queue_of(final(detector).cv_waiters@, c) == queue_of(old(detector).cv_waiters@, c),
        final(detector).events@ == old(detector).events@.push(EventRecord::make(0, condvar_id, Events::CondvarSpawn, Some(current_thread), None)),
        final(detector).thread_wait_cv == old(detector).thread_wait_cv,
        final(detector).cv_woken == old(detector).cv_woken,
        final(detector).wait_for_graph == old(detector).wait_for_graph,
        final(detector).thread_waits_for == old(detector).thread_waits_for,
        final(detector).lock_waiters == old(detector).lock_waiters,
        final(detector).lock_order_graph == old(detector).lock_order_graph,
        final(detector).same_owners(old(detector)),
{
    detector.create_condvar(condvar_id, current_thread)
}

/// Forgets the condition variable `condvar_id` (see [`Detector::destroy_condvar`]).
pub fn destroy_condvar(detector: &mut Detector, condvar_id: CondvarId)
    requires
        old(detector).wf(),
    ensures
        final(detector).wf(),
        final(detector).cv_waiters@ == old(detector).cv_waiters@.remove(condvar_id),
        final(detector).thread_wait_cv@ == waits_off(old(detector).thread_wait_cv@, condvar_id),
        final(detector).events@ == old(detector).events@.push(EventRecord::make(0, condvar_id, Events::CondvarExit, None, None)),
        final(detector).cv_woken == old(detector).cv_woken,
        final(detector).wait_for_graph == old(detector).wait_for_graph,
        final(detector).thread_waits_for == old(detector).thread_waits_for,
        final(detector).lock_waiters == old(detector).lock_waiters,
        final(detector).lock_order_graph == old(detector).lock_order_graph,
        final(detector).same_owners(old(detector)),
{
    detector.destroy_condvar(condvar_id)
}

/// Records the beginning of a condition variable wait (see [`Detector::begin_wait`]).
pub fn begin_wait(detector: &mut Detector, thread_id: ThreadId, condvar_id: CondvarId, mutex_id: LockId)
    requires
        old(detector).wf(),
    ensures
        final(detector).wf(),
        final(detector).cv_waiters@.dom() == old(detector).cv_waiters@.dom().insert(condvar_id),
        queue_of(final(detector).cv_waiters@, condvar_id) == queue_of(old(detector).cv_waiters@, condvar_id).push((thread_id, mutex_id)),
        forall|c: CondvarId| c != condvar_id ==> #[trigger] queue_of(final(detector).cv_waiters@, c) == queue_of(old(detector).cv_waiters@, c),
        final(detector).thread_wait_cv@ == old(detector).thread_wait_cv@.insert(thread_id, (condvar_id, mutex_id)),
        final(detector).events@ == old(detector).events@.push(EventRecord::make(thread_id, condvar_id, Events::CondvarWaitBegin, None, None)),
        final(detector).cv_woken == old(detector).cv_woken,
        final(detector).wait_for_graph == old(detector).wait_for_graph,
        final(detector).thread_waits_for == old(detector).thread_waits_for,
        final(detector).lock_waiters == old(detector).lock_waiters,
        final(detector).lock_order_graph == old(detector).lock_order_graph,
        final(detector).same_owners(old(detector)),
{
    detector.begin_wait(thread_id, condvar_id, mutex_id)
}

/// Records a `notify_one` and returns the deadlocks to report (see [`Detector::notify_one`]).
pub fn notify_one(detector: &mut Detector, condvar_id: CondvarId, notifier_id: ThreadId) -> (r: Vec<DeadlockInfo>)
    requires
        old(detector).wf(),
    ensures
        final(detector).wf(),
        queue_of(old(detector).cv_waiters@, condvar_id).len() == 0 ==> {
            &&& r@ == Seq::<DeadlockInfo>::empty()
            &&& final(detector).events@ == old(detector).events@.push(
                EventRecord::make(notifier_id, condvar_id, Events::CondvarNotifyOne, None, None))
            &&& final(detector).cv_waiters@.dom() == old(detector).cv_waiters@.dom()
            &&& forall|c: CondvarId| #[trigger] queue_of(final(detector).cv_waiters@, c) == queue_of(old(detector).cv_waiters@, c)
            &&& final(detector).cv_woken == old(detector).cv_woken
            &&& final(detector).wait_for_graph == old(detector).wait_for_graph
            &&& final(detector).thread_waits_for == old(detector).thread_waits_for
            &&& final(detector).lock_waiters == old(detector).lock_waiters
            &&& final(detector).lock_order_graph == old(detector).lock_order_graph
            &&& final(detector).same_owners(old(detector))
        },
        queue_of(old(detector).cv_waiters@, condvar_id).len() > 0 ==> {
            let (w, m) = queue_of(old(detector).cv_waiters@, condvar_id)[0];
            exists|s1: Detector, s2: Detector| {
                &&& s1.wf()
                &&& queue_of(s1.cv_waiters@, condvar_id) == queue_of(old(detector).cv_waiters@, condvar_id).drop_first()
                &&& forall|c: CondvarId| c != condvar_id ==> #[trigger] queue_of(s1.cv_waiters@, c) == queue_of(old(detector).cv_waiters@, c)
                &&& s1.cv_woken == old(detector).cv_woken
                &&& s1.thread_wait_cv == old(detector).thread_wait_cv
                &&& s1.wait_for_graph == old(detector).wait_for_graph
                &&& s1.thread_waits_for == old(detector).thread_waits_for
                &&& s1.lock_waiters == old(detector).lock_waiters
                &&& s1.lock_order_graph == old(detector).lock_order_graph
                &&& s1.events == old(detector).events
                &&& s1.same_owners(old(detector))
                &&& #[trigger] s1.synthetic_attempt(w, m, notifier_id, s2, r@)
                &&& final(detector).events@ == s2.events@
                    .push(EventRecord::make(notifier_id, condvar_id, Events::CondvarNotifyOne, None, Some(w)))
                    .push(EventRecord::make(w, m, Events::MutexAttempt, None, None))
                &&& final(detector).wait_for_graph == s2.wait_for_graph
                &&& final(detector).thread_waits_for == s2.thread_waits_for
                &&& final(detector).lock_waiters == s2.lock_waiters
                &&& final(detector).lock_order_graph == s2.lock_order_graph
                &&& final(detector).same_owners(&s2)
                &&& final(detector).cv_waiters == s2.cv_waiters
                &&& final(detector).thread_wait_cv == s2.thread_wait_cv
                &&& final(detector).cv_woken@ == old(detector).cv_woken@.insert(w)
            }
        },
        final(detector).thread_wait_cv == old(detector).thread_wait_cv,
        queue_of(old(detector).cv_waiters@, condvar_id).len() > 0 ==> {
            let (w, m) = queue_of(old(detector).cv_waiters@, condvar_id)[0];
            let o = old(detector).synthetic_owner(m, notifier_id);
            let g = old(detector).wait_for_graph@;
            !g.contains((w, o)) && reachable(g, o, w) ==> {
                ||| r@.len() >= 1 && r@[0].source == DeadlockSource::WaitForGraph
                    && is_path_between(g, r@[0].thread_cycle@, o, w)
                ||| exists|c: Seq<ThreadId>| is_path_between(g, c, o, w) && #[trigger] final(detector).shares_exclusive_lock(c)
            }
        },
{
    detector.notify_one(condvar_id, notifier_id)
}

/// Records a `notify_all` and returns the deadlocks to report (see [`Detector::notify_all`]).
pub fn notify_all(detector: &mut Detector, condvar_id: CondvarId, notifier_id: ThreadId) -> (r: Vec<DeadlockInfo>)
    requires
        old(detector).wf(),
    ensures
        final(detector).wf(),
        queue_of(final(detector).cv_waiters@, condvar_id) == Seq::<(ThreadId, LockId)>::empty(),
        forall|c: CondvarId| c != condvar_id ==> #[trigger] queue_of(final(detector).cv_waiters@, c) == queue_of(old(detector).cv_waiters@, c),
        final(detector).cv_woken@ == old(detector).cv_woken@.union(queue_of(old(detector).cv_waiters@, condvar_id).map_values(|e: (ThreadId, LockId)| e.0).to_set()),
        final(detector).events@ == old(detector).events@
            .push(EventRecord::make(notifier_id, condvar_id, Events::CondvarNotifyAll, None,
                if queue_of(old(detector).cv_waiters@, condvar_id).len() > 0 { Some(queue_of(old(detector).cv_waiters@, condvar_id)[0].0) } else { None }))
            + queue_of(old(detector).cv_waiters@, condvar_id).map_values(|e: (ThreadId, LockId)| EventRecord::make(e.0, e.1, Events::MutexAttempt, None, None)),
        exists|states: Seq<Detector>, reports: Seq<Seq<DeadlockInfo>>| #![trigger states.len(), reports.flatten()] {
            let q = queue_of(old(detector).cv_waiters@, condvar_id);
            &&& states.len() == q.len() + 1
            &&& reports.len() == q.len()
            &&& states[0].wait_for_graph == old(detector).wait_for_graph
            &&& states[0].thread_waits_for == old(detector).thread_waits_for
            &&& states[0].lock_waiters == old(detector).lock_waiters
            &&& states[0].lock_order_graph == old(detector).lock_order_graph
            &&& states[0].same_owners(old(detector))
            &&& forall|k: int| 0 <= k < q.len() ==> #[trigger] states[k].synthetic_attempt(q[k].0, q[k].1, notifier_id, states[k + 1], reports[k])
            &&& final(detector).wait_for_graph == states[q.len() as int].wait_for_graph
            &&& final(detector).thread_waits_for == states[q.len() as int].thread_waits_for
            &&& final(detector).lock_waiters == states[q.len() as int].lock_waiters
            &&& final(detector).lock_order_graph == states[q.len() as int].lock_order_graph
            &&& final(detector).same_owners(&states[q.len() as int])
            &&& r@ == reports.flatten()
        },
        final(detector).thread_wait_cv == old(detector).thread_wait_cv,
{
    detector.notify_all(condvar_id, notifier_id)
}

/// Records the end of a condition variable wait (see [`Detector::end_wait`]).
pub fn end_wait(detector: &mut Detector, thread_id: ThreadId, condvar_id: CondvarId, mutex_id: LockId)
    requires
        old(detector).wf(),
    ensures
        final(detector).wf(),
        final(detector).thread_wait_cv@ == old(detector).thread_wait_cv@.remove(thread_id),
        final(detector).cv_woken@ == old(detector).cv_woken@.remove(thread_id),
        final(detector).cv_waiters == old(detector).cv_waiters,
        final(detector).events == old(detector).events,
        final(detector).wait_for_graph == old(detector).wait_for_graph,
        final(detector).thread_waits_for == old(detector).thread_waits_for,
        final(detector).lock_waiters == old(detector).lock_waiters,
        final(detector).lock_order_graph == old(detector).lock_order_graph,
        final(detector).same_owners(old(detector)),
{
    detector.end_wait(thread_id, condvar_id, mutex_id)
}

} // verus!

verus! {

/// Law: the edge from a woken waiter to the thread it then waits for (the
/// recorded owner of its mutex, or else the notifying thread) is added to the
/// wait-for graph unless it closes a cycle. When it closes one, the first
/// report returned is a wait-for report of a path from that thread back to the
/// waiter, unless the threads of such a path all hold one lock that is not
/// read-shared. When the thread does not reach the waiter, at most a lock
/// order violation is reported.
pub proof fn law_woken_attempt_reports_closed_cycle(d0: Detector, thread_id: ThreadId, lock_id: LockId,
    current_thread: ThreadId, d1: Detector, r: Seq<DeadlockInfo>)
    requires
        d0.synthetic_attempt(thread_id, lock_id, current_thread, d1, r),
    ensures
        ({
            let o = d0.synthetic_owner(lock_id, current_thread);
            let g = d0.wait_for_graph@;
            &&& !g.contains((thread_id, o)) && reachable(g, o, thread_id) ==> {
                ||| r.len() >= 1 && d1.is_cycle_report(r[0], r[0].thread_cycle@)
                    && is_path_between(g, r[0].thread_cycle@, o, thread_id)
                ||| exists|c: Seq<ThreadId>| is_path_between(g, c, o, thread_id) && #[trigger] d1.shares_exclusive_lock(c)
            }
            &&& !reachable(g, o, thread_id) ==> d1.wait_for_graph@.contains((thread_id, o))
                && r.len() <= 1 && forall|i: int| 0 <= i < r.len() ==> (#[trigger] r[i]).source == DeadlockSource::LockOrderViolation
        }),
{
    let o = d0.synthetic_owner(lock_id, current_thread);
    let (s1, lov, found) = choose|s1: Detector, lov: Option<DeadlockInfo>, found: Option<Vec<ThreadId>>|
        #![trigger d0.order_checks(thread_id, lock_id, s1, lov),
            add_edge_result(d0.wait_for_graph@, thread_id, d0.synthetic_owner(lock_id, current_thread), found)]
    {
        &&& d0.order_checks(thread_id, lock_id, s1, lov)
        &&& add_edge_result(d0.wait_for_graph@, thread_id, d0.synthetic_owner(lock_id, current_thread), found)
        &&& s1.wf()
        &&& s1.wait_for_graph == d0.wait_for_graph
        &&& s1.thread_waits_for == d0.thread_waits_for
        &&& s1.lock_waiters == d0.lock_waiters
        &&& s1.events == d0.events
        &&& s1.same_owners(&d0)
        &&& s1.same_condvars(&d0)
        &&& d1.wf()
        &&& d1.thread_waits_for@ == d0.thread_waits_for@.insert(thread_id, WaitIntent { lock_id, mode: WaitMode::Mutex })
        &&& pairs(d1.lock_waiters) == drop_second(pairs(d0.lock_waiters), thread_id).insert((lock_id, thread_id))
        &&& d1.wait_for_graph@
            == WaitForGraph::spec_add_edge(d0.wait_for_graph@, thread_id, d0.synthetic_owner(lock_id, current_thread))
        &&& d1.lock_order_graph == s1.lock_order_graph
        &&& d1.events == d0.events
        &&& d1.same_owners(&d0)
        &&& d1.same_condvars(&d0)
        &&& r.len() == (match found {
            Some(c) => if d1.shares_exclusive_lock(c@) { 0int } else { 1int },
            None => 0int,
        }) + (if lov is Some { 1int } else { 0int })
        &&& (match found {
            Some(c) => !d1.shares_exclusive_lock(c@) ==> d1.is_cycle_report(r[0], c@),
            None => true,
        })
        &&& (lov matches Some(info) ==> r[r.len() - 1] == info)
    };
    match found {
        Some(c) => {
            if !d1.shares_exclusive_lock(c@) {
                assert(r[0].thread_cycle@ == c@);
            }
        },
        None => {
            if lov is Some {
                assert(r[0] == lov->0);
            }
        },
    }
}

} // verus!
