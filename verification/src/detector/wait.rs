//! Wait intents: which lock a blocked thread wants, and which threads stand in its way.
use vstd::prelude::*;
use crate::detector::{Detector, readers_of};
use crate::fx;
use crate::paths::{drop_out_edges, drop_second, drop_seconds, drop_sources, is_path_between, reachable, lemma_reach_into_ignores_out_edges, lemma_path_monotone};
use crate::relation::{pairs, image, rel_insert, rel_remove, rel_image};
use crate::types::{DeadlockInfo, DeadlockSource, LockId, ThreadId};

verus! {

broadcast use crate::relation::lemma_pairs_image;

/// How a thread wants a lock.
#[derive(Clone, Copy, Debug, PartialEq, Eq, Structural)]
pub enum WaitMode {
    /// Exclusive access to a mutex.
    Mutex,
    /// Shared (read) access to a reader-writer lock.
    RwRead,
    /// Exclusive (write) access to a reader-writer lock.
    RwWrite,
}

/// The lock a blocked thread wants, and how.
#[derive(Clone, Copy, Debug, PartialEq, Eq, Structural)]
pub struct WaitIntent {
    /// The lock.
    pub lock_id: LockId,
    /// The kind of access.
    pub mode: WaitMode,
}

impl WaitIntent {
    /// The intent to take `lock_id` in `mode`.
    pub fn new(lock_id: LockId, mode: WaitMode) -> (r: WaitIntent)
        ensures
            r == (WaitIntent { lock_id, mode }),
    {
        WaitIntent { lock_id, mode }
    }
}

/// The wait-for graph after `w` stops waiting for anyone and then waits for
/// each of `owners`, except the owners from which `w` is reachable: for those
/// the edge would close a cycle and is not added.
pub open spec fn rewire(g: Set<(ThreadId, ThreadId)>, w: ThreadId, owners: Set<ThreadId>) -> Set<(ThreadId, ThreadId)> {
    let g1 = drop_out_edges(g, w);
    g1.union(new_wait_edges(g1, w, owners))
}

/// The edges from `w` to each of `owners` that does not reach `w` in `g`.
pub open spec fn new_wait_edges(g: Set<(ThreadId, ThreadId)>, w: ThreadId, owners: Set<ThreadId>) -> Set<(ThreadId, ThreadId)> {
    Set::new(|e: (ThreadId, ThreadId)| e.0 == w && owners.contains(e.1) && !reachable(g, e.1, w))
}

/// Some owner in `owners` reaches `w` once `w` stops waiting: adding `w`'s edges closes a cycle.
pub open spec fn rewire_finds_cycle(g: Set<(ThreadId, ThreadId)>, w: ThreadId, owners: Set<ThreadId>) -> bool {
    exists|o: ThreadId| #[trigger] owners.contains(o) && reachable(drop_out_edges(g, w), o, w)
}

impl Detector {
    /// The threads whose hold on the lock keeps `intent` from being granted.
    pub open spec fn incompatible(&self, intent: WaitIntent) -> Set<ThreadId> {
        let l = intent.lock_id;
        match intent.mode {
            WaitMode::Mutex => if self.mutex_owners@.contains_key(l) { set![self.mutex_owners@[l]] } else { Set::empty() },
            WaitMode::RwRead => if self.rwlock_writer@.contains_key(l) { set![self.rwlock_writer@[l]] } else { Set::empty() },
            WaitMode::RwWrite => readers_of(self.rwlock_readers@, l).union(
                if self.rwlock_writer@.contains_key(l) { set![self.rwlock_writer@[l]] } else { Set::empty() }),
        }
    }

    /// The threads that block the waiting thread `t`.
    pub open spec fn blockers(&self, t: ThreadId) -> Set<ThreadId> {
        if self.thread_waits_for@.contains_key(t) { self.incompatible(self.thread_waits_for@[t]) } else { Set::empty() }
    }

    /// `c` is a cycle of waits right now: every thread of `c` waits, and the
    /// next one (the first after the last) blocks it.
    pub open spec fn valid_wait_cycle(&self, c: Seq<ThreadId>) -> bool {
        &&& c.len() > 0
        &&& forall|i: int| 0 <= i < c.len() ==> #[trigger] self.waits_on_next(c, i)
    }

    /// Thread `c[i]` waits, and the thread after it in `c` (the first after the last) blocks it.
    pub open spec fn waits_on_next(&self, c: Seq<ThreadId>, i: int) -> bool {
        &&& self.thread_waits_for@.contains_key(c[i])
        &&& self.incompatible(self.thread_waits_for@[c[i]]).contains(c[(i + 1) % (c.len() as int)])
    }

    /// The wait-for graph after rewiring the waiters of `order` one after the other.
    pub open spec fn rewire_all(&self, g: Set<(ThreadId, ThreadId)>, order: Seq<ThreadId>) -> Set<(ThreadId, ThreadId)>
        decreases order.len(),
    {
        if order.len() == 0 {
            g
        } else {
            let g0 = self.rewire_all(g, order.drop_last());
            let w = order[order.len() - 1];
            if self.thread_waits_for@.contains_key(w) { rewire(g0, w, self.blockers(w)) } else { g0 }
        }
    }

    /// Records that `thread_id` now waits for `intent`, replacing any earlier intent.
    pub fn set_wait_intent(&mut self, thread_id: ThreadId, intent: WaitIntent)
        requires
            old(self).wf(),
        ensures
            final(self).wf(),
            final(self).thread_waits_for@ == old(self).thread_waits_for@.insert(thread_id, intent),
            pairs(final(self).lock_waiters)
                == drop_second(pairs(old(self).lock_waiters), thread_id).insert((intent.lock_id, thread_id)),
            final(self).wait_for_graph@ == drop_out_edges(old(self).wait_for_graph@, thread_id),
            final(self).same_except_waits(old(self)),
    {
        self.clear_wait_intent(thread_id);
        fx::map_insert(&mut self.thread_waits_for, thread_id, intent);
        rel_insert(&mut self.lock_waiters, intent.lock_id, thread_id);
        proof {
            assert(pairs(self.lock_waiters)
                =~= drop_second(pairs(old(self).lock_waiters), thread_id).insert((intent.lock_id, thread_id)));
        }
    }

    /// Forgets the wait intent of `thread_id` and the edges leaving it.
    pub fn clear_wait_intent(&mut self, thread_id: ThreadId)
        requires
            old(self).wf(),
        ensures
            final(self).wf(),
            final(self).thread_waits_for@ == old(self).thread_waits_for@.remove(thread_id),
            pairs(final(self).lock_waiters) == drop_second(pairs(old(self).lock_waiters), thread_id),
            final(self).wait_for_graph@ == drop_out_edges(old(self).wait_for_graph@, thread_id),
            final(self).same_except_waits(old(self)),
    {
        match fx::map_remove(&mut self.thread_waits_for, thread_id) {
            None => {
                self.wait_for_graph.clear_wait_edges(thread_id);
                proof {
                    assert(pairs(self.lock_waiters) =~= drop_second(pairs(old(self).lock_waiters), thread_id));
                }
                return;
            },
            Some(intent) => {
                rel_remove(&mut self.lock_waiters, intent.lock_id, thread_id);
                self.wait_for_graph.clear_wait_edges(thread_id);
                proof {
                    assert(pairs(self.lock_waiters) =~= drop_second(pairs(old(self).lock_waiters), thread_id));
                }
            },
        }
    }

    /// The threads whose hold on the lock keeps `intent` from being granted:
    /// the owner of a mutex; the writer of a lock that is to be read; every
    /// reader and the writer of a lock that is to be written.
    pub fn incompatible_owners(&self, _waiting_thread: ThreadId, intent: WaitIntent) -> (r: Vec<ThreadId>)
        requires
            self.wf(),
        ensures
            r@.to_set() == self.incompatible(intent),
            r@.no_duplicates(),
    {
        let l = intent.lock_id;
        match intent.mode {
            WaitMode::Mutex => {
                let mut r: Vec<ThreadId> = Vec::new();
                match fx::map_get(&self.mutex_owners, l) {
                    Some(o) => { r.push(*o); },
                    None => {},
                }
                assert(r@.to_set() =~= self.incompatible(intent)) by {
                    if r@.len() == 1 { assert(r@.contains(r@[0])); }
                }
                r
            },
            WaitMode::RwRead => {
                let mut r: Vec<ThreadId> = Vec::new();
                match fx::map_get(&self.rwlock_writer, l) {
                    Some(w) => { r.push(*w); },
                    None => {},
                }
                assert(r@.to_set() =~= self.incompatible(intent)) by {
                    if r@.len() == 1 { assert(r@.contains(r@[0])); }
                }
                r
            },
            WaitMode::RwWrite => {
                let mut owners: Vec<ThreadId> = match fx::map_get(&self.rwlock_readers, l) {
                    Some(readers) => fx::map_keys(readers),
                    None => {
                        let v: Vec<ThreadId> = Vec::new();
                        assert(v@.to_set() =~= Set::<ThreadId>::empty());
                        v
                    },
                };
                assert(owners@.to_set() == readers_of(self.rwlock_readers@, l));
                match fx::map_get(&self.rwlock_writer, l) {
                    Some(w) => {
                        let writer = *w;
                        let mut found = false;
                        let mut i: usize = 0;
                        while i < owners.len()
                            invariant
                                0 <= i <= owners.len(),
                                found == owners@.subrange(0, i as int).contains(writer),
                            decreases owners.len() - i,
                        {
                            proof {
                                let ip: int = i + 1;
                                assert(owners@.subrange(0, ip) == owners@.subrange(0, i as int).push(owners@[i as int]));
                                crate::paths::lemma_push_contains(owners@.subrange(0, i as int), owners@[i as int]);
                            }
                            if owners[i] == writer {
                                found = true;
                            }
                            i = i + 1;
                        }
                        assert(owners@.subrange(0, owners@.len() as int) == owners@);
                        if !found {
                            let ghost o0 = owners@;
                            owners.push(writer);
                            proof {
                                crate::paths::lemma_push_contains(o0, writer);
                                assert(owners@.to_set() =~= o0.to_set().insert(writer));
                                assert(owners@.no_duplicates()) by {
                                    assert forall|a: int, b: int| 0 <= a < b < owners@.len() implies owners@[a] != owners@[b] by {
                                        if b == o0.len() { assert(o0.contains(o0[a])); }
                                    }
                                }
                            }
                        } else {
                            assert(owners@.contains(writer));
                            assert(owners@.to_set().contains(writer));
                        }
                        assert(owners@.to_set() =~= self.incompatible(intent));
                    },
                    None => {
                        assert(owners@.to_set() =~= self.incompatible(intent));
                    },
                }
                owners
            },
        }
    }

    /// Adds an edge from `w` to each of `owners`, in order, unless the edge
    /// would close a cycle; returns the first cycle met, as a path from an
    /// owner back to `w`. `w` has no outgoing edges when this starts.
    fn add_wait_edges(&mut self, w: ThreadId, owners: &Vec<ThreadId>) -> (r: Option<Vec<ThreadId>>)
        requires
            old(self).wf(),
            drop_out_edges(old(self).wait_for_graph@, w) == old(self).wait_for_graph@,
            owners@.no_duplicates(),
        ensures
            final(self).wf(),
            final(self).wait_for_graph@
                == old(self).wait_for_graph@.union(new_wait_edges(old(self).wait_for_graph@, w, owners@.to_set())),
            r is Some <==> rewire_finds_cycle(old(self).wait_for_graph@, w, owners@.to_set()),
            match r {
                Some(c) => owners@.to_set().contains(c@[0]) && is_path_between(final(self).wait_for_graph@, c@, c@[0], w),
                None => true,
            },
            final(self).thread_waits_for == old(self).thread_waits_for,
            final(self).lock_waiters == old(self).lock_waiters,
            final(self).same_except_waits(old(self)),
    {
        let ghost g1 = self.wait_for_graph@;
        let ghost own = owners@.to_set();
        let mut detected_cycle: Option<Vec<ThreadId>> = None;
        let mut i: usize = 0;
        while i < owners.len()
            invariant
                self.wf(),
                0 <= i <= owners.len(),
                own == owners@.to_set(),
                owners@.no_duplicates(),
                g1 == old(self).wait_for_graph@,
                drop_out_edges(g1, w) == g1,
                self.wait_for_graph@ == g1.union(new_wait_edges(g1, w, owners@.subrange(0, i as int).to_set())),
                self.thread_waits_for == old(self).thread_waits_for,
                self.lock_waiters == old(self).lock_waiters,
                self.same_except_waits(old(self)),
                detected_cycle is Some <==> exists|k: int| 0 <= k < i && reachable(g1, #[trigger] owners@[k], w),
                match detected_cycle {
                    Some(c) => own.contains(c@[0]) && is_path_between(self.wait_for_graph@, c@, c@[0], w),
                    None => true,
                },
            decreases owners.len() - i,
        {
            let owner = owners[i];
            let ghost gi = self.wait_for_graph@;
            let ghost extra = new_wait_edges(g1, w, owners@.subrange(0, i as int).to_set());
            proof {
                lemma_reach_into_ignores_out_edges(g1, extra, w, owner);
                assert(gi.contains((w, owner)) == false) by {
                    if gi.contains((w, owner)) {
                        if g1.contains((w, owner)) {
                            assert(drop_out_edges(g1, w).contains((w, owner)));
                        } else {
                            assert(owners@.subrange(0, i as int).contains(owner));
                            let k = choose|k: int| 0 <= k < i && owners@.subrange(0, i as int)[k] == owner;
                            assert(owners@[k] == owners@[i as int]);
                        }
                    }
                }
            }
            let found = self.wait_for_graph.add_edge(w, owner);
            proof {
                let ip: int = i + 1;
                assert(owners@.subrange(0, ip) == owners@.subrange(0, i as int).push(owner));
                crate::paths::lemma_push_contains(owners@.subrange(0, i as int), owner);
                assert(self.wait_for_graph@ =~= g1.union(new_wait_edges(g1, w, owners@.subrange(0, ip).to_set())));
                if detected_cycle is Some {
                    let c = detected_cycle->0;
                    lemma_path_monotone(gi, self.wait_for_graph@, c@);
                }
                assert(own.contains(owner)) by { assert(owners@.contains(owner)); }
            }
            match found {
                Some(cycle) => {
                    if detected_cycle.is_none() {
                        proof {
                            lemma_path_monotone(gi, self.wait_for_graph@, cycle@);
                        }
                        detected_cycle = Some(cycle);
                    }
                },
                None => {},
            }
            proof {
                assert((exists|k: int| 0 <= k < i + 1 && reachable(g1, #[trigger] owners@[k], w))
                    == ((exists|k: int| 0 <= k < i && reachable(g1, #[trigger] owners@[k], w)) || reachable(g1, owner, w)));
            }
            i = i + 1;
        }
        proof {
            assert(owners@.subrange(0, owners@.len() as int) == owners@);
            if rewire_finds_cycle(g1, w, own) {
                let o = choose|o: ThreadId| #[trigger] own.contains(o) && reachable(drop_out_edges(g1, w), o, w);
                let k = choose|k: int| 0 <= k < owners@.len() && owners@[k] == o;
                assert(reachable(g1, owners@[k], w));
            }
            if detected_cycle is Some {
                let k = choose|k: int| 0 <= k < owners@.len() && reachable(g1, #[trigger] owners@[k], w);
                assert(own.contains(owners@[k])) by { assert(owners@.contains(owners@[k])); }
                assert(reachable(drop_out_edges(g1, w), owners@[k], w));
            }
        }
        detected_cycle
    }

    /// Records that `thread_id` waits for `intent` and adds an edge from it to
    /// every thread that blocks the intent, unless that edge would close a cycle.
    /// Returns the first cycle met: a path from a blocking thread back to `thread_id`.
    pub fn register_wait(&mut self, thread_id: ThreadId, intent: WaitIntent) -> (r: Option<Vec<ThreadId>>)
        requires
            old(self).wf(),
        ensures
            final(self).wf(),
            final(self).thread_waits_for@ == old(self).thread_waits_for@.insert(thread_id, intent),
            pairs(final(self).lock_waiters)
                == drop_second(pairs(old(self).lock_waiters), thread_id).insert((intent.lock_id, thread_id)),
            final(self).wait_for_graph@ == rewire(old(self).wait_for_graph@, thread_id, old(self).incompatible(intent)),
            r is Some <==> rewire_finds_cycle(old(self).wait_for_graph@, thread_id, old(self).incompatible(intent)),
            match r {
                Some(c) => old(self).incompatible(intent).contains(c@[0])
                    && is_path_between(final(self).wait_for_graph@, c@, c@[0], thread_id),
                None => true,
            },
            final(self).same_except_waits(old(self)),
    {
        self.set_wait_intent(thread_id, intent);
        let owners = self.incompatible_owners(thread_id, intent);
        proof {
            let g = old(self).wait_for_graph@;
            assert(drop_out_edges(drop_out_edges(g, thread_id), thread_id) =~= drop_out_edges(g, thread_id));
        }
        self.add_wait_edges(thread_id, &owners)
    }
}

impl Detector {
    /// Rewiring the waiters of `order` from `g`: at step `k` adding the waiter's
    /// edges meets a cycle.
    pub open spec fn step_finds_cycle(&self, g: Set<(ThreadId, ThreadId)>, order: Seq<ThreadId>, k: int) -> bool {
        &&& self.thread_waits_for@.contains_key(order[k])
        &&& rewire_finds_cycle(self.rewire_all(g, order.take(k)), order[k], self.blockers(order[k]))
    }

    /// `c` is the cycle met at step `k` of rewiring `order` from `g`: a path
    /// from a blocker of the waiter back to the waiter, and no earlier step met one.
    pub open spec fn first_cycle_at(&self, g: Set<(ThreadId, ThreadId)>, order: Seq<ThreadId>, k: int, c: Seq<ThreadId>) -> bool {
        &&& 0 <= k < order.len()
        &&& self.step_finds_cycle(g, order, k)
        &&& forall|j: int| 0 <= j < k ==> !(#[trigger] self.step_finds_cycle(g, order, j))
        &&& self.blockers(order[k]).contains(c[0])
        &&& is_path_between(self.rewire_all(g, order.take(k + 1)), c, c[0], order[k])
    }

    /// What refreshing the waiters `order` from the graph `g` gives: the
    /// graph `after` and the first cycle met, if any.
    pub open spec fn refresh_outcome(&self, g: Set<(ThreadId, ThreadId)>, order: Seq<ThreadId>,
        after: Set<(ThreadId, ThreadId)>, r: Option<Vec<ThreadId>>) -> bool {
        &&& after == self.rewire_all(g, order)
        &&& (r is Some <==> exists|k: int| 0 <= k < order.len() && #[trigger] self.step_finds_cycle(g, order, k))
        &&& (r matches Some(c) ==> exists|k: int| #[trigger] self.first_cycle_at(g, order, k, c@))
    }

    /// What refreshing the waiters of `lock_id` does: `after` is this detector
    /// with the edges of the lock's waiters rebuilt one after the other, in some
    /// order of the lock's waiter set, and `r` is the first cycle met.
    pub open spec fn refreshes(&self, lock_id: LockId, after: Detector, r: Option<Vec<ThreadId>>) -> bool {
        &&& after.wf()
        &&& after.thread_waits_for == self.thread_waits_for
        &&& after.lock_waiters == self.lock_waiters
        &&& after.same_except_waits(self)
        &&& exists|order: Seq<ThreadId>| {
            &&& order.to_set() == image(self.lock_waiters, lock_id)
            &&& order.no_duplicates()
            &&& self.refresh_outcome(self.wait_for_graph@, order, after.wait_for_graph@, r)
        }
    }

    /// Rebuilds the edges of every thread waiting for `lock_id`, in the order
    /// of the lock's waiter set: each waiter stops waiting for anyone and then
    /// waits for the threads that now block its intent, unless an edge would
    /// close a cycle. Returns the first cycle met, as a path from a blocker back
    /// to its waiter.
    pub fn refresh_waiters_for_lock(&mut self, lock_id: LockId) -> (r: Option<Vec<ThreadId>>)
        requires
            old(self).wf(),
        ensures
            old(self).refreshes(lock_id, *final(self), r),
    {
        let waiters = rel_image(&self.lock_waiters, lock_id);
        let ghost g0 = self.wait_for_graph@;
        let mut detected_cycle: Option<Vec<ThreadId>> = None;
        let mut i: usize = 0;
        while i < waiters.len()
            invariant
                self.wf(),
                0 <= i <= waiters.len(),
                g0 == old(self).wait_for_graph@,
                self.wait_for_graph@ == old(self).rewire_all(g0, waiters@.take(i as int)),
                self.thread_waits_for == old(self).thread_waits_for,
                self.lock_waiters == old(self).lock_waiters,
                self.same_except_waits(old(self)),
                detected_cycle is Some <==> exists|k: int| 0 <= k < i && #[trigger] old(self).step_finds_cycle(g0, waiters@, k),
                detected_cycle matches Some(c) ==> exists|k: int| k < i && #[trigger] old(self).first_cycle_at(g0, waiters@, k, c@),
            decreases waiters.len() - i,
        {
            let waiter = waiters[i];
            let ghost gi = self.wait_for_graph@;
            proof {
                assert(waiters@.take(i + 1).drop_last() =~= waiters@.take(i as int));
                assert(waiters@.take(i + 1)[i as int] == waiter);
            }
            match fx::map_get(&self.thread_waits_for, waiter) {
                None => {},
                Some(intent_ref) => {
                    let intent = *intent_ref;
                    self.wait_for_graph.clear_wait_edges(waiter);
                    let owners = self.incompatible_owners(waiter, intent);
                    proof {
                        assert(drop_out_edges(drop_out_edges(gi, waiter), waiter) =~= drop_out_edges(gi, waiter));
                        assert(self.incompatible(intent) == old(self).blockers(waiter));
                    }
                    let found = self.add_wait_edges(waiter, &owners);
                    proof {
                        assert(self.wait_for_graph@ == rewire(gi, waiter, old(self).blockers(waiter)));
                    }
                    match found {
                        Some(cycle) => {
                            if detected_cycle.is_none() {
                                proof {
                                    assert(old(self).step_finds_cycle(g0, waiters@, i as int));
                                    assert forall|j: int| 0 <= j < i implies !(#[trigger] old(self).step_finds_cycle(g0, waiters@, j)) by {}
                                    assert(old(self).first_cycle_at(g0, waiters@, i as int, cycle@));
                                }
                                detected_cycle = Some(cycle);
                            }
                        },
                        None => {},
                    }
                },
            }
            proof {
                assert((exists|k: int| 0 <= k < i + 1 && #[trigger] old(self).step_finds_cycle(g0, waiters@, k))
                    == ((exists|k: int| 0 <= k < i && #[trigger] old(self).step_finds_cycle(g0, waiters@, k))
                        || old(self).step_finds_cycle(g0, waiters@, i as int)));
            }
            i = i + 1;
        }
        proof {
            assert(waiters@.take(waiters@.len() as int) =~= waiters@);
            if detected_cycle is Some {
                let c = detected_cycle->0;
                let k = choose|k: int| k < i && #[trigger] old(self).first_cycle_at(g0, waiters@, k, c@);
                assert(old(self).first_cycle_at(g0, waiters@, k, c@));
                assert(exists|k2: int| #[trigger] old(self).first_cycle_at(g0, waiters@, k2, c@));
            }
            assert(self.wait_for_graph@ == old(self).rewire_all(g0, waiters@));
            assert(detected_cycle is Some <==> exists|k: int| 0 <= k < waiters@.len() && #[trigger] old(self).step_finds_cycle(g0, waiters@, k));
            assert(old(self).refresh_outcome(g0, waiters@, self.wait_for_graph@, detected_cycle));
        }
        detected_cycle
    }
}

impl Detector {
    /// The locks that the waiting threads of `c` wait for.
    pub open spec fn cycle_locks(&self, c: Seq<ThreadId>) -> Set<LockId> {
        Set::new(|l: LockId| exists|i: int| 0 <= i < c.len() && #[trigger] self.thread_waits_for@.contains_key(c[i])
            && self.thread_waits_for@[c[i]].lock_id == l)
    }

    /// The threads recorded as waiting for one of `locks`.
    pub open spec fn waiters_of_locks(&self, locks: Set<LockId>) -> Set<ThreadId> {
        Set::new(|t: ThreadId| exists|l: LockId| locks.contains(l) && #[trigger] pairs(self.lock_waiters).contains((l, t)))
    }

    /// Rewiring `o1` and then `o2` is rewiring `o1 + o2`.
    pub proof fn lemma_rewire_all_append(&self, g: Set<(ThreadId, ThreadId)>, o1: Seq<ThreadId>, o2: Seq<ThreadId>)
        ensures
            self.rewire_all(self.rewire_all(g, o1), o2) == self.rewire_all(g, o1 + o2),
        decreases o2.len(),
    {
        if o2.len() == 0 {
            assert(o1 + o2 =~= o1);
        } else {
            self.lemma_rewire_all_append(g, o1, o2.drop_last());
            assert((o1 + o2).drop_last() =~= o1 + o2.drop_last());
            assert((o1 + o2)[(o1 + o2).len() - 1] == o2[o2.len() - 1]);
        }
    }

    /// Step `k` of rewiring `o2` after `o1` is step `o1.len() + k` of rewiring `o1 + o2`.
    pub proof fn lemma_step_append(&self, g: Set<(ThreadId, ThreadId)>, o1: Seq<ThreadId>, o2: Seq<ThreadId>, k: int)
        requires
            0 <= k < o2.len(),
        ensures
            self.step_finds_cycle(self.rewire_all(g, o1), o2, k) == self.step_finds_cycle(g, o1 + o2, o1.len() + k),
            self.rewire_all(self.rewire_all(g, o1), o2.take(k + 1)) == self.rewire_all(g, (o1 + o2).take(o1.len() + k + 1)),
            (o1 + o2)[o1.len() + k] == o2[k],
    {
        self.lemma_rewire_all_append(g, o1, o2.take(k));
        self.lemma_rewire_all_append(g, o1, o2.take(k + 1));
        assert(o1 + o2.take(k) =~= (o1 + o2).take(o1.len() + k));
        assert(o1 + o2.take(k + 1) =~= (o1 + o2).take(o1.len() + k + 1));
    }

    /// Step `m` of rewiring `o1 + o2`, past the end of `o1`, is step `m - o1.len()` of rewiring `o2` after `o1`.
    pub proof fn lemma_step_append_at(&self, g: Set<(ThreadId, ThreadId)>, o1: Seq<ThreadId>, o2: Seq<ThreadId>, m: int)
        requires
            o1.len() <= m < o1.len() + o2.len(),
        ensures
            self.step_finds_cycle(self.rewire_all(g, o1), o2, m - o1.len()) == self.step_finds_cycle(g, o1 + o2, m),
    {
        let k = m - o1.len();
        self.lemma_step_append(g, o1, o2, k);
        assert(o1.len() + k == m);
    }

    /// Refreshing `o1` and then `o2` is refreshing `o1 + o2`: the first cycle
    /// is the one met in `o1`, or else the one met in `o2`.
    pub proof fn lemma_outcome_append(&self, g: Set<(ThreadId, ThreadId)>, o1: Seq<ThreadId>, o2: Seq<ThreadId>,
        after: Set<(ThreadId, ThreadId)>, r1: Option<Vec<ThreadId>>, r2: Option<Vec<ThreadId>>)
        requires
            self.refresh_outcome(g, o1, self.rewire_all(g, o1), r1),
            self.refresh_outcome(self.rewire_all(g, o1), o2, after, r2),
        ensures
            self.refresh_outcome(g, o1 + o2, after, if r1 is Some { r1 } else { r2 }),
    {
        let g1 = self.rewire_all(g, o1);
        let o = o1 + o2;
        self.lemma_rewire_all_append(g, o1, o2);
        assert forall|k: int| 0 <= k < o1.len() implies
            #[trigger] self.step_finds_cycle(g, o, k) == self.step_finds_cycle(g, o1, k) by {
            assert(o.take(k) =~= o1.take(k));
            assert(o[k] == o1[k]);
        }
        assert forall|k: int| o1.len() <= k < o.len() implies
            #[trigger] self.step_finds_cycle(g, o, k) == self.step_finds_cycle(g1, o2, k - o1.len()) by {
            self.lemma_step_append_at(g, o1, o2, k);
        }
        let r = if r1 is Some { r1 } else { r2 };
        if exists|k: int| 0 <= k < o.len() && #[trigger] self.step_finds_cycle(g, o, k) {
            let k = choose|k: int| 0 <= k < o.len() && #[trigger] self.step_finds_cycle(g, o, k);
            if k < o1.len() {
                assert(self.step_finds_cycle(g, o1, k));
            } else {
                assert(self.step_finds_cycle(g1, o2, k - o1.len()));
            }
        }
        if r1 is Some {
            let k = choose|k: int| 0 <= k < o1.len() && #[trigger] self.step_finds_cycle(g, o1, k);
            assert(self.step_finds_cycle(g, o, k));
            let c = r1->0;
            let k1 = choose|k1: int| #[trigger] self.first_cycle_at(g, o1, k1, c@);
            assert(o.take(k1 + 1) =~= o1.take(k1 + 1));
            assert(self.step_finds_cycle(g, o, k1));
            assert forall|m: int| 0 <= m < k1 implies !(#[trigger] self.step_finds_cycle(g, o, m)) by {
                assert(!self.step_finds_cycle(g, o1, m));
            }
            assert(o[k1] == o1[k1]);
            assert(self.first_cycle_at(g, o, k1, c@));
        } else if r2 is Some {
            let k = choose|k: int| 0 <= k < o2.len() && #[trigger] self.step_finds_cycle(g1, o2, k);
            assert(self.step_finds_cycle(g, o, o1.len() + k)) by {
                self.lemma_step_append_at(g, o1, o2, o1.len() + k);
            }
            let c = r2->0;
            let k2 = choose|k2: int| #[trigger] self.first_cycle_at(g1, o2, k2, c@);
            let m0 = o1.len() + k2;
            self.lemma_step_append(g, o1, o2, k2);
            self.lemma_step_append_at(g, o1, o2, m0);
            assert forall|m: int| 0 <= m < m0 implies !(#[trigger] self.step_finds_cycle(g, o, m)) by {
                if m < o1.len() {
                    assert(!self.step_finds_cycle(g, o1, m));
                } else {
                    assert(!self.step_finds_cycle(g1, o2, m - o1.len()));
                }
            }
            assert(self.first_cycle_at(g, o, m0, c@));
        } else {
            assert forall|k: int| 0 <= k < o.len() implies !(#[trigger] self.step_finds_cycle(g, o, k)) by {
                if k < o1.len() {
                    assert(!self.step_finds_cycle(g, o1, k));
                } else {
                    assert(!self.step_finds_cycle(g1, o2, k - o1.len()));
                }
            }
        }
    }

    /// Whether `cycle` is a cycle of waits right now: every thread of it
    /// waits, and the next one (the first after the last) blocks it.
    pub fn validate_wait_cycle(&self, cycle: &[ThreadId]) -> (r: bool)
        requires
            self.wf(),
        ensures
            r == self.valid_wait_cycle(cycle@),
    {
        if cycle.len() == 0 {
            return false;
        }
        let n = cycle.len();
        let mut index: usize = 0;
        while index < n
            invariant
                self.wf(),
                n == cycle@.len(),
                n > 0,
                0 <= index <= n,
                forall|i: int| 0 <= i < index ==> #[trigger] self.waits_on_next(cycle@, i),
            decreases n - index,
        {
            let source = cycle[index];
            let next = if index + 1 == n { 0 } else { index + 1 };
            proof {
                if index + 1 == n {
                    vstd::arithmetic::div_mod::lemma_mod_self_0(n as int);
                } else {
                    vstd::arithmetic::div_mod::lemma_small_mod((index + 1) as nat, n as nat);
                }
            }
            let target = cycle[next];
            match fx::map_get(&self.thread_waits_for, source) {
                None => {
                    assert(!self.waits_on_next(cycle@, index as int));
                    return false;
                },
                Some(intent) => {
                    let owners = self.incompatible_owners(source, *intent);
                    let mut found = false;
                    let mut k: usize = 0;
                    while k < owners.len()
                        invariant
                            0 <= k <= owners.len(),
                            found == owners@.take(k as int).contains(target),
                        decreases owners.len() - k,
                    {
                        proof {
                            assert(owners@.take(k + 1) == owners@.take(k as int).push(owners@[k as int]));
                            crate::paths::lemma_push_contains(owners@.take(k as int), owners@[k as int]);
                        }
                        if owners[k] == target {
                            found = true;
                        }
                        k = k + 1;
                    }
                    assert(owners@.take(owners@.len() as int) =~= owners@);
                    if !found {
                        assert(!owners@.to_set().contains(target));
                        assert(!self.waits_on_next(cycle@, index as int));
                        return false;
                    }
                    assert(owners@.contains(target));
                    assert(owners@.to_set().contains(target));
                    assert(self.incompatible(self.thread_waits_for@[cycle@[index as int]]).contains(cycle@[(index + 1) % (n as int)]));
                    assert(self.waits_on_next(cycle@, index as int));
                },
            }
            index = index + 1;
        }
        true
    }

    /// What checking the reported cycle `cycle` does: a cycle of waits is
    /// reported as it is and nothing changes; otherwise the waiters of the locks
    /// that its threads wait for are refreshed, as one sequence, and the first
    /// cycle met is reported when it is a cycle of waits.
    pub open spec fn validates(&self, cycle: Seq<ThreadId>, after: Detector, r: Option<DeadlockInfo>) -> bool {
        &&& after.wf()
        &&& after.thread_waits_for == self.thread_waits_for
        &&& after.lock_waiters == self.lock_waiters
        &&& after.same_except_waits(self)
        &&& self.valid_wait_cycle(cycle) ==> after == *self && (r matches Some(info) && self.is_cycle_report(info, cycle))
        &&& !self.valid_wait_cycle(cycle) ==> exists|order: Seq<ThreadId>| {
            &&& order.to_set() == self.waiters_of_locks(self.cycle_locks(cycle))
            &&& after.wait_for_graph@ == self.rewire_all(self.wait_for_graph@, order)
            &&& (r matches Some(info) ==> self.valid_wait_cycle(info.thread_cycle@)
                && self.is_cycle_report(info, info.thread_cycle@)
                && exists|k: int| #[trigger] self.first_cycle_at(self.wait_for_graph@, order, k, info.thread_cycle@))
            &&& (r is None ==> (forall|k: int| 0 <= k < order.len() ==> !#[trigger] self.step_finds_cycle(self.wait_for_graph@, order, k))
                || exists|k: int, c: Seq<ThreadId>| #[trigger] self.first_cycle_at(self.wait_for_graph@, order, k, c)
                    && !self.valid_wait_cycle(c))
        }
    }

    /// The report of `cycle` if it is a cycle of waits right now. Otherwise
    /// the cycle may be stale: the waiters of every lock that its threads wait
    /// for are refreshed, lock by lock in increasing order, and the first cycle
    /// met there is reported if it is a cycle of waits right now.
    pub fn validated_deadlock_info(&mut self, cycle: Vec<ThreadId>) -> (r: Option<DeadlockInfo>)
        requires
            old(self).wf(),
        ensures
            old(self).validates(cycle@, *final(self), r),
    {
        if self.validate_wait_cycle(cycle.as_slice()) {
            return Some(self.extract_deadlock_info(cycle));
        }
        let ghost g0 = self.wait_for_graph@;
        let mut lock_list: Vec<LockId> = Vec::new();
        let mut i: usize = 0;
        while i < cycle.len()
            invariant
                0 <= i <= cycle.len(),
                *self == *old(self),
                lock_list@.to_set() == old(self).cycle_locks(cycle@.take(i as int)),
            decreases cycle.len() - i,
        {
            let t = cycle[i];
            let ghost prev = lock_list@;
            match fx::map_get(&self.thread_waits_for, t) {
                Some(intent) => {
                    lock_list.push(intent.lock_id);
                },
                None => {},
            }
            proof {
                assert forall|l: LockId| lock_list@.to_set().contains(l) == old(self).cycle_locks(cycle@.take(i + 1)).contains(l) by {
                    if lock_list@.to_set().contains(l) {
                        if prev.contains(l) {
                            assert(prev.to_set().contains(l));
                            assert(old(self).cycle_locks(cycle@.take(i as int)).contains(l));
                            let j = choose|j: int| 0 <= j < i && #[trigger] old(self).thread_waits_for@.contains_key(cycle@.take(i as int)[j])
                                && old(self).thread_waits_for@[cycle@.take(i as int)[j]].lock_id == l;
                            assert(cycle@.take(i + 1)[j] == cycle@.take(i as int)[j]);
                        } else {
                            assert(lock_list@[lock_list@.len() - 1] == l);
                            assert(cycle@.take(i + 1)[i as int] == t);
                        }
                    }
                    if old(self).cycle_locks(cycle@.take(i + 1)).contains(l) {
                        let j = choose|j: int| 0 <= j < i + 1 && #[trigger] old(self).thread_waits_for@.contains_key(cycle@.take(i + 1)[j])
                            && old(self).thread_waits_for@[cycle@.take(i + 1)[j]].lock_id == l;
                        if j < i {
                            assert(cycle@.take(i + 1)[j] == cycle@.take(i as int)[j]);
                            assert(old(self).cycle_locks(cycle@.take(i as int)).contains(l));
                            assert(prev.contains(l));
                            assert(lock_list@.contains(l)) by {
                                let m = choose|m: int| 0 <= m < prev.len() && prev[m] == l;
                                assert(lock_list@[m] == l);
                            }
                        } else {
                            assert(lock_list@[lock_list@.len() - 1] == l);
                            assert(lock_list@.contains(l));
                        }
                    }
                }
                assert(lock_list@.to_set() =~= old(self).cycle_locks(cycle@.take(i + 1)));
            }
            i = i + 1;
        }
        assert(cycle@.take(cycle@.len() as int) =~= cycle@);
        let locks = crate::sorting::sorted_unique(&lock_list);
        let mut refreshed_cycle: Option<Vec<ThreadId>> = None;
        let ghost mut order: Seq<ThreadId> = Seq::empty();
        let mut j: usize = 0;
        while j < locks.len()
            invariant
                self.wf(),
                0 <= j <= locks.len(),
                g0 == old(self).wait_for_graph@,
                !old(self).valid_wait_cycle(cycle@),
                locks@.to_set() == old(self).cycle_locks(cycle@),
                locks@.no_duplicates(),
                self.thread_waits_for == old(self).thread_waits_for,
                self.lock_waiters == old(self).lock_waiters,
                self.same_except_waits(old(self)),
                order.to_set() == old(self).waiters_of_locks(locks@.take(j as int).to_set()),
                old(self).refresh_outcome(g0, order, self.wait_for_graph@, refreshed_cycle),
            decreases locks.len() - j,
        {
            let ghost gj = self.wait_for_graph@;
            let ghost sj = *self;
            let found = self.refresh_waiters_for_lock(locks[j]);
            proof {
                assert(sj.refreshes(locks@[j as int], *self, found));
                let o2 = choose|o2: Seq<ThreadId>| {
                    &&& o2.to_set() == image(sj.lock_waiters, locks@[j as int])
                    &&& o2.no_duplicates()
                    &&& sj.refresh_outcome(gj, o2, self.wait_for_graph@, found)
                };
                lemma_agree_steps(&sj, old(self), gj, o2);
                assert(o2.to_set() == image(old(self).lock_waiters, locks@[j as int]));
                assert(old(self).refresh_outcome(gj, o2, self.wait_for_graph@, found));
                let o1 = order;
                assert(gj == old(self).rewire_all(g0, o1));
                old(self).lemma_outcome_append(g0, o1, o2, self.wait_for_graph@, refreshed_cycle, found);
                assert(locks@.take(j + 1).to_set() =~= locks@.take(j as int).to_set().insert(locks@[j as int])) by {
                    assert(locks@.take(j + 1) == locks@.take(j as int).push(locks@[j as int]));
                    crate::paths::lemma_push_contains(locks@.take(j as int), locks@[j as int]);
                }
                assert((o1 + o2).to_set() =~= old(self).waiters_of_locks(locks@.take(j + 1).to_set())) by {
                    assert forall|t: ThreadId| (o1 + o2).to_set().contains(t)
                        == old(self).waiters_of_locks(locks@.take(j + 1).to_set()).contains(t) by {
                        let lk = locks@[j as int];
                        let before = locks@.take(j as int).to_set();
                        let now = locks@.take(j + 1).to_set();
                        assert(now == before.insert(lk));
                        if (o1 + o2).contains(t) {
                            let m = choose|m: int| 0 <= m < (o1 + o2).len() && (o1 + o2)[m] == t;
                            if m < o1.len() {
                                assert(o1[m] == t);
                                assert(o1.contains(t));
                                assert(o1.to_set().contains(t));
                                assert(old(self).waiters_of_locks(before).contains(t));
                                let l = choose|l: LockId| before.contains(l) && #[trigger] pairs(old(self).lock_waiters).contains((l, t));
                                assert(now.contains(l));
                                assert(old(self).waiters_of_locks(now).contains(t));
                            } else {
                                assert(o2[m - o1.len()] == t);
                                assert(o2.contains(t));
                                assert(o2.to_set().contains(t));
                                assert(image(old(self).lock_waiters, lk).contains(t));
                                assert(pairs(old(self).lock_waiters).contains((lk, t)));
                                assert(now.contains(lk));
                                assert(old(self).waiters_of_locks(now).contains(t));
                            }
                        }
                        if old(self).waiters_of_locks(now).contains(t) {
                            let l = choose|l: LockId| now.contains(l) && #[trigger] pairs(old(self).lock_waiters).contains((l, t));
                            if l == lk {
                                assert(image(old(self).lock_waiters, lk).contains(t));
                                assert(o2.to_set().contains(t));
                                let m = choose|m: int| 0 <= m < o2.len() && o2[m] == t;
                                assert((o1 + o2)[o1.len() + m] == t);
                                assert((o1 + o2).contains(t));
                            } else {
                                assert(before.contains(l));
                                assert(old(self).waiters_of_locks(before).contains(t));
                                assert(o1.to_set().contains(t));
                                let m = choose|m: int| 0 <= m < o1.len() && o1[m] == t;
                                assert((o1 + o2)[m] == t);
                                assert((o1 + o2).contains(t));
                            }
                        }
                    }
                }
                order = o1 + o2;
            }
            if refreshed_cycle.is_none() {
                refreshed_cycle = found;
            }
            j = j + 1;
        }
        proof {
            assert(locks@.take(locks@.len() as int) =~= locks@);
            lemma_agree_reports(self, old(self));
            assert(order.to_set() == old(self).waiters_of_locks(old(self).cycle_locks(cycle@)));
        }
        match refreshed_cycle {
            None => {
                proof {
                    assert(forall|k: int| 0 <= k < order.len() ==> !#[trigger] old(self).step_finds_cycle(g0, order, k));
                }
                None
            },
            Some(c) => {
                let ghost cv = c@;
                if self.validate_wait_cycle(c.as_slice()) {
                    let info = self.extract_deadlock_info(c);
                    proof {
                        assert(info.thread_cycle@ == cv);
                        assert(old(self).valid_wait_cycle(cv));
                        assert(old(self).is_cycle_report(info, cv));
                    }
                    Some(info)
                } else {
                    proof {
                        let k = choose|k: int| #[trigger] old(self).first_cycle_at(g0, order, k, cv);
                        assert(old(self).first_cycle_at(g0, order, k, cv) && !old(self).valid_wait_cycle(cv));
                    }
                    None
                }
            },
        }
    }
}

/// Two detectors with the same waits and owners rewire graphs alike.
pub proof fn lemma_agree(a: &Detector, b: &Detector, g: Set<(ThreadId, ThreadId)>, o: Seq<ThreadId>)
    requires
        a.thread_waits_for == b.thread_waits_for,
        a.mutex_owners == b.mutex_owners,
        a.rwlock_readers == b.rwlock_readers,
        a.rwlock_writer == b.rwlock_writer,
    ensures
        a.rewire_all(g, o) == b.rewire_all(g, o),
        forall|t: ThreadId| #[trigger] a.blockers(t) == b.blockers(t),
    decreases o.len(),
{
    if o.len() > 0 {
        lemma_agree(a, b, g, o.drop_last());
    }
}

/// Two detectors with the same waits and owners find the same cycles while rewiring `o` from `g`.
pub proof fn lemma_agree_steps(a: &Detector, b: &Detector, g: Set<(ThreadId, ThreadId)>, o: Seq<ThreadId>)
    requires
        a.thread_waits_for == b.thread_waits_for,
        a.mutex_owners == b.mutex_owners,
        a.rwlock_readers == b.rwlock_readers,
        a.rwlock_writer == b.rwlock_writer,
    ensures
        a.rewire_all(g, o) == b.rewire_all(g, o),
        forall|k: int| #![trigger a.step_finds_cycle(g, o, k)] #![trigger b.step_finds_cycle(g, o, k)]
            a.step_finds_cycle(g, o, k) == b.step_finds_cycle(g, o, k),
        forall|k: int, c: Seq<ThreadId>| #![trigger a.first_cycle_at(g, o, k, c)] #![trigger b.first_cycle_at(g, o, k, c)]
            a.first_cycle_at(g, o, k, c) == b.first_cycle_at(g, o, k, c),
{
    lemma_agree(a, b, g, o);
    assert forall|k: int| #![trigger a.step_finds_cycle(g, o, k)] #![trigger b.step_finds_cycle(g, o, k)]
        a.step_finds_cycle(g, o, k) == b.step_finds_cycle(g, o, k) by {
        lemma_agree(a, b, g, o.take(k));
    }
    assert forall|k: int, c: Seq<ThreadId>| #![trigger a.first_cycle_at(g, o, k, c)] #![trigger b.first_cycle_at(g, o, k, c)]
        a.first_cycle_at(g, o, k, c) == b.first_cycle_at(g, o, k, c) by {
        lemma_agree(a, b, g, o.take(k));
        lemma_agree(a, b, g, o.take(k + 1));
    }
}

/// Two detectors with the same waits and owners judge and report cycles alike.
pub proof fn lemma_agree_reports(a: &Detector, b: &Detector)
    requires
        a.thread_waits_for == b.thread_waits_for,
        a.mutex_owners == b.mutex_owners,
        a.rwlock_readers == b.rwlock_readers,
        a.rwlock_writer == b.rwlock_writer,
    ensures
        forall|c: Seq<ThreadId>| #[trigger] a.valid_wait_cycle(c) == b.valid_wait_cycle(c),
        forall|c: Seq<ThreadId>| #[trigger] a.waiting_pairs(c) == b.waiting_pairs(c),
        forall|info: DeadlockInfo, c: Seq<ThreadId>| #[trigger] a.is_cycle_report(info, c) == b.is_cycle_report(info, c),
{
    assert forall|c: Seq<ThreadId>| #[trigger] a.valid_wait_cycle(c) == b.valid_wait_cycle(c) by {
        assert forall|i: int| #![trigger a.waits_on_next(c, i)] #![trigger b.waits_on_next(c, i)]
            a.waits_on_next(c, i) == b.waits_on_next(c, i) by {}
    }
    assert forall|c: Seq<ThreadId>| #[trigger] a.waiting_pairs(c) == b.waiting_pairs(c) by {
        lemma_agree_pairs(a, b, c);
    }
}

/// Two detectors with the same waits pair the threads of `c` with the same locks.
pub proof fn lemma_agree_pairs(a: &Detector, b: &Detector, c: Seq<ThreadId>)
    requires
        a.thread_waits_for == b.thread_waits_for,
    ensures
        a.waiting_pairs(c) == b.waiting_pairs(c),
    decreases c.len(),
{
    if c.len() > 0 {
        lemma_agree_pairs(a, b, c.drop_last());
    }
}

/// The threads whose wait intent names `lock_id`.
pub open spec fn waiting_on(waits: Map<ThreadId, WaitIntent>, lock_id: LockId) -> Set<ThreadId> {
    waits.dom().filter(|t: ThreadId| waits[t].lock_id == lock_id)
}

/// The threads of `ks` whose wait intent names `lock_id`.
pub open spec fn intents_naming(waits: Map<ThreadId, WaitIntent>, ks: Set<ThreadId>, lock_id: LockId) -> Set<ThreadId> {
    ks.filter(|t: ThreadId| waits[t].lock_id == lock_id)
}

impl Detector {
    /// Forgets the wait intent, and the outgoing edges, of every thread whose
    /// intent names `lock_id`.
    pub fn clear_waits_on(&mut self, lock_id: LockId)
        requires
            old(self).wf(),
        ensures
            final(self).wf(),
            final(self).thread_waits_for@
                == old(self).thread_waits_for@.remove_keys(waiting_on(old(self).thread_waits_for@, lock_id)),
            pairs(final(self).lock_waiters)
                == drop_seconds(pairs(old(self).lock_waiters), waiting_on(old(self).thread_waits_for@, lock_id)),
            final(self).wait_for_graph@
                == drop_sources(old(self).wait_for_graph@, waiting_on(old(self).thread_waits_for@, lock_id)),
            final(self).same_except_waits(old(self)),
    {
        let ghost ts = waiting_on(old(self).thread_waits_for@, lock_id);
        let keys = fx::map_keys(&self.thread_waits_for);
        let mut waiters: Vec<ThreadId> = Vec::new();
        let mut i: usize = 0;
        while i < keys.len()
            invariant
                0 <= i <= keys.len(),
                keys@.to_set() == self.thread_waits_for@.dom(),
                keys@.no_duplicates(),
                *self == *old(self),
                waiters@.to_set() == intents_naming(self.thread_waits_for@, keys@.take(i as int).to_set(), lock_id),
                waiters@.no_duplicates(),
                forall|k: int| 0 <= k < waiters@.len() ==> keys@.take(i as int).contains(#[trigger] waiters@[k]),
            decreases keys.len() - i,
        {
            let t = keys[i];
            let ghost w0 = waiters@;
            proof {
                assert(keys@.take(i + 1) == keys@.take(i as int).push(t));
                crate::paths::lemma_push_contains(keys@.take(i as int), t);
                assert(keys@.to_set().contains(t)) by { assert(keys@.contains(t)); }
                assert(!keys@.take(i as int).contains(t)) by {
                    if keys@.take(i as int).contains(t) {
                        let m = choose|m: int| 0 <= m < i && keys@.take(i as int)[m] == t;
                        assert(keys@[m] == keys@[i as int]);
                    }
                }
            }
            let intent = *fx::map_get(&self.thread_waits_for, t).unwrap();
            if intent.lock_id == lock_id {
                waiters.push(t);
                proof {
                    crate::paths::lemma_push_contains(w0, t);
                    assert forall|a: int, b: int| 0 <= a < b < waiters@.len() implies waiters@[a] != waiters@[b] by {
                        if b == w0.len() {
                            assert(keys@.take(i as int).contains(w0[a]));
                        }
                    }
                }
            }
            proof {
                let ks1 = keys@.take(i + 1).to_set();
                assert forall|x: ThreadId| #[trigger] waiters@.to_set().contains(x) == intents_naming(self.thread_waits_for@, ks1, lock_id).contains(x) by {
                    if x == t {
                        assert(ks1.contains(t));
                    } else {
                        assert(ks1.contains(x) == keys@.take(i as int).to_set().contains(x));
                        if intent.lock_id == lock_id {
                            assert(waiters@.to_set().contains(x) == w0.to_set().contains(x));
                        }
                    }
                }
                assert(waiters@.to_set() =~= intents_naming(self.thread_waits_for@, ks1, lock_id));
                assert forall|k: int| 0 <= k < waiters@.len() implies keys@.take(i + 1).contains(#[trigger] waiters@[k]) by {
                    if k < w0.len() {
                        assert(keys@.take(i as int).contains(w0[k]));
                    }
                }
            }
            i = i + 1;
        }
        proof {
            assert(keys@.take(keys@.len() as int) =~= keys@);
            assert(waiters@.to_set() =~= ts);
        }
        let mut k: usize = 0;
        while k < waiters.len()
            invariant
                self.wf(),
                0 <= k <= waiters.len(),
                waiters@.to_set() == ts,
                ts == waiting_on(old(self).thread_waits_for@, lock_id),
                self.thread_waits_for@ == old(self).thread_waits_for@.remove_keys(waiters@.take(k as int).to_set()),
                pairs(self.lock_waiters) == drop_seconds(pairs(old(self).lock_waiters), waiters@.take(k as int).to_set()),
                self.wait_for_graph@ == drop_sources(old(self).wait_for_graph@, waiters@.take(k as int).to_set()),
                self.same_except_waits(old(self)),
            decreases waiters.len() - k,
        {
            let t = waiters[k];
            self.clear_wait_intent(t);
            proof {
                assert(waiters@.take(k + 1) == waiters@.take(k as int).push(t));
                crate::paths::lemma_push_contains(waiters@.take(k as int), t);
                let done = waiters@.take(k + 1).to_set();
                assert(self.thread_waits_for@ =~= old(self).thread_waits_for@.remove_keys(done));
                assert(pairs(self.lock_waiters) =~= drop_seconds(pairs(old(self).lock_waiters), done));
                assert(self.wait_for_graph@ =~= drop_sources(old(self).wait_for_graph@, done));
            }
            k = k + 1;
        }
        proof {
            assert(waiters@.take(waiters@.len() as int) =~= waiters@);
        }
    }
}

} // verus!

verus! {

/// Law: setting a wait intent and then clearing it leaves the waits, the
/// waiter index and the wait-for graph as if the thread had only stopped
/// waiting.
pub proof fn law_set_then_clear_wait_intent(d0: Detector, d1: Detector, d2: Detector, t: ThreadId, intent: WaitIntent)
    requires
        d1.thread_waits_for@ == d0.thread_waits_for@.insert(t, intent),
        pairs(d1.lock_waiters) == drop_second(pairs(d0.lock_waiters), t).insert((intent.lock_id, t)),
        d1.wait_for_graph@ == drop_out_edges(d0.wait_for_graph@, t),
        d2.thread_waits_for@ == d1.thread_waits_for@.remove(t),
        pairs(d2.lock_waiters) == drop_second(pairs(d1.lock_waiters), t),
        d2.wait_for_graph@ == drop_out_edges(d1.wait_for_graph@, t),
    ensures
        d2.thread_waits_for@ == d0.thread_waits_for@.remove(t),
        pairs(d2.lock_waiters) == drop_second(pairs(d0.lock_waiters), t),
        d2.wait_for_graph@ == drop_out_edges(d0.wait_for_graph@, t),
{
    assert(d2.thread_waits_for@ =~= d0.thread_waits_for@.remove(t));
    assert(pairs(d2.lock_waiters) =~= drop_second(pairs(d0.lock_waiters), t));
    assert(d2.wait_for_graph@ =~= drop_out_edges(d0.wait_for_graph@, t));
}

/// Law: a registered wait never leaves a cycle in the wait-for graph; the
/// edge that would close one is left out and the cycle reported instead.
pub proof fn law_register_keeps_graph_acyclic(d: Detector, t: ThreadId, intent: WaitIntent)
    requires
        d.wf(),
    ensures
        crate::paths::acyclic(rewire(d.wait_for_graph@, t, d.incompatible(intent))),
{
    let g = d.wait_for_graph@;
    let g1 = drop_out_edges(g, t);
    let extra = new_wait_edges(g1, t, d.incompatible(intent));
    crate::paths::lemma_subset_keeps_acyclic(g1, g);
    let g2 = g1.union(extra);
    assert forall|y: ThreadId| !#[trigger] crate::paths::on_cycle(g2, y) by {
        if crate::paths::on_cycle(g2, y) {
            let z = choose|z: ThreadId| #[trigger] g2.contains((y, z)) && reachable(g2, z, y);
            lemma_reach_into_ignores_out_edges(g1, extra, t, z);
            if extra.contains((y, z)) {
                assert(!reachable(g1, z, t));
            } else {
                assert(g1.contains((y, z)));
                let p = choose|p: Seq<ThreadId>| crate::paths::is_path_between(g2, p, z, y);
                lemma_path_last_extra(g1, extra, t, p, z, y);
                if reachable(g1, z, y) {
                    assert(crate::paths::on_cycle(g1, y));
                } else {
                    let o = choose|o: ThreadId| #[trigger] extra.contains((t, o)) && reachable(g1, o, y);
                    crate::paths::lemma_reach_edge(g1, o, y, z);
                    crate::paths::lemma_reach_trans(g1, o, z, t);
                }
            }
        }
    }
}

/// A walk in `g` plus edges leaving `w` either stays in `g`, or passes `w`
/// and ends with a walk in `g` from the end of one of the extra edges.
proof fn lemma_path_last_extra(g: Set<(ThreadId, ThreadId)>, extra: Set<(ThreadId, ThreadId)>, w: ThreadId,
    p: Seq<ThreadId>, a: ThreadId, b: ThreadId)
    requires
        forall|e: (ThreadId, ThreadId)| #[trigger] extra.contains(e) ==> e.0 == w,
        crate::paths::is_path_between(g.union(extra), p, a, b),
    ensures
        reachable(g, a, b) || (reachable(g.union(extra), a, w)
            && exists|o: ThreadId| #[trigger] extra.contains((w, o)) && reachable(g, o, b)),
    decreases p.len(),
{
    if p.len() == 1 {
        crate::paths::lemma_reachable_refl(g, a);
    } else {
        let q = p.drop_last();
        let x = q[q.len() - 1];
        assert(crate::paths::is_path_between(g.union(extra), q, a, x)) by {
            assert forall|i: int| 0 <= i < q.len() - 1 implies #[trigger] g.union(extra).contains((q[i], q[i + 1])) by {
                assert(g.union(extra).contains((p[i], p[i + 1])));
            }
        }
        lemma_path_last_extra(g, extra, w, q, a, x);
        let k: int = p.len() - 2;
        assert(g.union(extra).contains((p[k], p[k + 1])));
        if extra.contains((x, b)) {
            assert(x == w);
            assert(reachable(g.union(extra), a, w));
            crate::paths::lemma_reachable_refl(g, b);
            assert(extra.contains((w, b)) && reachable(g, b, b));
        } else {
            assert(g.contains((x, b)));
            if reachable(g, a, x) {
                crate::paths::lemma_reach_edge(g, a, x, b);
            } else {
                let o = choose|o: ThreadId| #[trigger] extra.contains((w, o)) && reachable(g, o, x);
                crate::paths::lemma_reach_edge(g, o, x, b);
            }
        }
    }
}

} // verus!

verus! {

/// Law: a deadlock report that passed validation names threads that are
/// blocked in a cycle right now, after the call: each waits for a lock that
/// the next one holds in a way the wait cannot share, the last one waits on
/// the first, and the report lists the lock each of them waits for.
pub proof fn law_validated_report_is_a_current_wait_cycle(d0: Detector, cycle: Seq<ThreadId>, d1: Detector,
    r: Option<DeadlockInfo>)
    requires
        d0.wf(),
        d0.validates(cycle, d1, r),
    ensures
        r matches Some(info) ==> info.source == DeadlockSource::WaitForGraph
            && d1.valid_wait_cycle(info.thread_cycle@)
            && d1.is_cycle_report(info, info.thread_cycle@),
{
    lemma_agree_reports(&d0, &d1);
}

} // verus!
