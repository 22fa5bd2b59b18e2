//! Turning a detected cycle into a deadlock report.
use vstd::prelude::*;
use crate::detector::Detector;
use crate::fx;
use crate::relation::{rel_contains, rel_image};
use crate::types::{DeadlockInfo, DeadlockSource, LockId, ThreadId};

verus! {

broadcast use crate::relation::lemma_pairs_image;

/// The current time, in RFC 3339 form (`chrono::Utc::now().to_rfc3339()`).
/// It depends on the clock, so nothing is stated of it.
#[verifier::external_body]
pub(crate) fn now_rfc3339() -> String {
    chrono::Utc::now().to_rfc3339()
}

impl Detector {
    /// Some lock that is not read-shared is held by every thread of `c`.
    pub open spec fn shares_exclusive_lock(&self, c: Seq<ThreadId>) -> bool {
        exists|l: LockId| #![trigger self.rwlock_readers@.contains_key(l)]
            !self.rwlock_readers@.contains_key(l)
            && forall|i: int| 0 <= i < c.len() ==> #[trigger] self.held(c[i]).contains(l)
    }

    /// For the threads of `c` in order, each one that waits paired with the lock it waits for.
    pub open spec fn waiting_pairs(&self, c: Seq<ThreadId>) -> Seq<(ThreadId, LockId)>
        decreases c.len(),
    {
        if c.len() == 0 {
            Seq::empty()
        } else {
            let t = c[c.len() - 1];
            let rest = self.waiting_pairs(c.drop_last());
            if self.thread_waits_for@.contains_key(t) {
                rest.push((t, self.thread_waits_for@[t].lock_id))
            } else {
                rest
            }
        }
    }

    /// A report of the cycle `c` of the wait-for graph, with the waits of its threads.
    pub open spec fn is_cycle_report(&self, info: DeadlockInfo, c: Seq<ThreadId>) -> bool {
        &&& info.source == DeadlockSource::WaitForGraph
        &&& info.thread_cycle@ == c
        &&& info.thread_waiting_for_locks@ == self.waiting_pairs(c)
        &&& info.lock_order_cycle is None
    }

    /// Filters out cycles whose threads all hold one common lock: such threads
    /// cannot all be blocked at once, since they would have taken that lock in
    /// turn. A lock read-shared by all of them proves nothing and is ignored.
    /// Returns the cycle when it is kept and an empty list when it is filtered
    /// out (an empty cycle gives an empty list too).
    pub fn filter_cycle_by_common_locks(&self, cycle: &[ThreadId]) -> (r: Vec<ThreadId>)
        ensures
            r@ == (if cycle@.len() == 0 || self.shares_exclusive_lock(cycle@) { Seq::empty() } else { cycle@ }),
    {
        if cycle.len() == 0 {
            return Vec::new();
        }
        let first = cycle[0];
        let candidates = rel_image(&self.thread_holds, first);
        let mut common = false;
        let mut j: usize = 0;
        while j < candidates.len()
            invariant
                0 <= j <= candidates.len(),
                cycle@.len() > 0,
                first == cycle@[0],
                candidates@.to_set() == self.held(first),
                !common ==> forall|k: int| 0 <= k < j ==> !(#[trigger] self.shares_exclusive_witness(cycle@, candidates@[k])),
                common ==> self.shares_exclusive_lock(cycle@),
            decreases candidates.len() - j,
        {
            let l = candidates[j];
            if !fx::map_contains(&self.rwlock_readers, l) {
                let mut all = true;
                let mut i: usize = 1;
                while i < cycle.len()
                    invariant
                        1 <= i <= cycle.len(),
                        all <==> forall|k: int| 1 <= k < i ==> #[trigger] self.held(cycle@[k]).contains(l),
                    decreases cycle.len() - i,
                {
                    let holds = rel_contains(&self.thread_holds, cycle[i], l);
                    proof {
                        if holds {
                            assert forall|k: int| 1 <= k < i + 1 && (forall|k2: int| 1 <= k2 < i ==> #[trigger] self.held(cycle@[k2]).contains(l))
                                implies #[trigger] self.held(cycle@[k]).contains(l) by {
                                if k < i {
                                    assert(self.held(cycle@[k]).contains(l));
                                }
                            }
                        } else {
                            assert(!self.held(cycle@[i as int]).contains(l));
                        }
                    }
                    if !holds {
                        all = false;
                    }
                    i = i + 1;
                }
                proof {
                    assert(candidates@.contains(l));
                    assert(self.held(cycle@[0]).contains(l));
                    if all {
                        assert(self.shares_exclusive_witness(cycle@, l));
                    } else {
                        assert(!self.shares_exclusive_witness(cycle@, l));
                    }
                }
                if all {
                    common = true;
                }
            } else {
                assert(!self.shares_exclusive_witness(cycle@, l));
            }
            j = j + 1;
        }
        proof {
            if !common && self.shares_exclusive_lock(cycle@) {
                let l = choose|l: LockId| #![trigger self.rwlock_readers@.contains_key(l)]
                    !self.rwlock_readers@.contains_key(l)
                    && forall|i: int| 0 <= i < cycle@.len() ==> #[trigger] self.held(cycle@[i]).contains(l);
                assert(self.held(cycle@[0]).contains(l));
                assert(candidates@.to_set().contains(l));
                let k = choose|k: int| 0 <= k < candidates@.len() && candidates@[k] == l;
                assert(self.shares_exclusive_witness(cycle@, candidates@[k]));
            }
        }
        if common {
            Vec::new()
        } else {
            vstd::slice::slice_to_vec(cycle)
        }
    }

    /// `l` is not read-shared and every thread of `c` holds it.
    pub open spec fn shares_exclusive_witness(&self, c: Seq<ThreadId>, l: LockId) -> bool {
        !self.rwlock_readers@.contains_key(l) && forall|i: int| 0 <= i < c.len() ==> #[trigger] self.held(c[i]).contains(l)
    }

    /// The report of the wait-for cycle `cycle`, with the lock each of its
    /// waiting threads wants, stamped with the current time.
    pub fn extract_deadlock_info(&self, cycle: Vec<ThreadId>) -> (r: DeadlockInfo)
        ensures
            self.is_cycle_report(r, cycle@),
    {
        let mut pairs_out: Vec<(ThreadId, LockId)> = Vec::new();
        let mut i: usize = 0;
        while i < cycle.len()
            invariant
                0 <= i <= cycle.len(),
                pairs_out@ == self.waiting_pairs(cycle@.take(i as int)),
            decreases cycle.len() - i,
        {
            let t = cycle[i];
            proof {
                assert(cycle@.take(i + 1).drop_last() =~= cycle@.take(i as int));
            }
            match fx::map_get(&self.thread_waits_for, t) {
                Some(intent) => {
                    pairs_out.push((t, intent.lock_id));
                },
                None => {},
            }
            i = i + 1;
        }
        assert(cycle@.take(cycle@.len() as int) =~= cycle@);
        DeadlockInfo {
            source: DeadlockSource::WaitForGraph,
            thread_cycle: cycle,
            thread_waiting_for_locks: pairs_out,
            lock_order_cycle: None,
            timestamp: now_rfc3339(),
        }
    }

    /// The report of a lock order violation: `thread_id`, about to take
    /// `lock_id`, would close the cycle `lock_cycle` of the lock order graph.
    pub fn extract_lock_order_violation_info(&self, thread_id: ThreadId, lock_id: LockId, lock_cycle: Vec<LockId>) -> (r: DeadlockInfo)
        ensures
            r.source == DeadlockSource::LockOrderViolation,
            r.thread_cycle@ == seq![thread_id],
            r.thread_waiting_for_locks@ == seq![(thread_id, lock_id)],
            r.lock_order_cycle matches Some(c) && c@ == lock_cycle@,
    {
        DeadlockInfo {
            source: DeadlockSource::LockOrderViolation,
            thread_cycle: vec![thread_id],
            thread_waiting_for_locks: vec![(thread_id, lock_id)],
            lock_order_cycle: Some(lock_cycle),
            timestamp: now_rfc3339(),
        }
    }
}

} // verus!
