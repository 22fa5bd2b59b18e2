//! Stress testing: decisions on whether, and how long, to delay a thread
//! before it takes a lock, so that rare interleavings show up more often.
use vstd::prelude::*;
use fxhash::FxHashMap;
use crate::fx;
use crate::types::{LockId, ThreadId};
use rand::Rng;

verus! {

/// Stress testing modes.
#[derive(Debug, Clone, Copy, PartialEq, Eq, Structural)]
pub enum StressMode {
    /// No stress testing (the default).
    NoStress,
    /// Random preemption at lock acquisition points.
    RandomPreemption,
    /// Delays based on the components of the lock acquisition pattern.
    ComponentBased,
}

impl Default for StressMode {
    fn default() -> (r: StressMode)
        ensures
            r == StressMode::NoStress,
    {
        StressMode::NoStress
    }
}

/// `rand::rng().random_range(min..=max)`: a random number from `min` to `max`.
/// The range must not be empty, else the call panics.
#[verifier::external_body]
fn random_inclusive(min: u64, max: u64) -> (r: u64)
    requires
        min <= max,
    ensures
        min <= r <= max,
{
    rand::rng().random_range(min..=max)
}

/// `rand::rng().random_range(0..bound)`: a random number below `bound`.
/// The range must not be empty, else the call panics.
#[verifier::external_body]
fn random_below(bound: u64) -> (r: u64)
    requires
        0 < bound,
    ensures
        r < bound,
{
    rand::rng().random_range(0..bound)
}

/// The delay, in microseconds, for a preemption: `min_us` when the bounds
/// agree, else a random value between them.
pub fn delay_between(min_us: u64, max_us: u64) -> (r: u64)
    requires
        min_us <= max_us,
    ensures
        min_us <= r <= max_us,
        min_us == max_us ==> r == min_us,
{
    if min_us == max_us {
        min_us
    } else {
        random_inclusive(min_us, max_us)
    }
}

/// The component of `l` in `m`, or `usize::MAX` when it has none.
pub open spec fn comp_or_max(m: Map<LockId, usize>, l: LockId) -> usize {
    if m.contains_key(l) { m[l] } else { usize::MAX }
}

/// Groups locks into components by the order in which they were taken.
pub struct ComponentTracker {
    /// The component of each lock.
    pub components: FxHashMap<LockId, usize>,
    /// Each recorded acquisition `(held lock, taken lock)`, in order.
    pub acquisitions: Vec<(LockId, LockId)>,
}

impl ComponentTracker {
    /// A tracker with no component and no acquisition.
    pub fn new() -> (r: ComponentTracker)
        ensures
            r.components@.dom() == Set::<LockId>::empty(),
            r.acquisitions@ == Seq::<(LockId, LockId)>::empty(),
    {
        ComponentTracker { components: fx::map_new(), acquisitions: Vec::new() }
    }

    /// Records that `to_lock` was taken while `from_lock` was held. A lock
    /// seen for the first time as `from_lock` starts a new component (numbered
    /// by the count of locks with a component); a new `to_lock` joins the
    /// component of `from_lock`.
    pub fn record_acquisition(&mut self, from_lock: LockId, to_lock: LockId)
        ensures
            final(self).acquisitions@ == old(self).acquisitions@.push((from_lock, to_lock)),
            final(self).components@ == ({
                let c1 = if old(self).components@.contains_key(from_lock) {
                    old(self).components@
                } else {
                    old(self).components@.insert(from_lock, old(self).components@.dom().len() as usize)
                };
                if c1.contains_key(to_lock) { c1 } else { c1.insert(to_lock, c1[from_lock]) }
            }),
    {
        self.acquisitions.push((from_lock, to_lock));
        if !fx::map_contains(&self.components, from_lock) {
            let comp_id = fx::map_len(&self.components);
            fx::map_insert(&mut self.components, from_lock, comp_id);
        }
        if !fx::map_contains(&self.components, to_lock) {
            let from_comp = *fx::map_get(&self.components, from_lock).unwrap();
            fx::map_insert(&mut self.components, to_lock, from_comp);
        }
    }

    /// Whether taking `to_lock` while holding `from_lock` should be delayed:
    /// both locks are in the same component, or the reverse order was seen.
    pub fn should_delay(&self, from_lock: LockId, to_lock: LockId) -> (r: bool)
        ensures
            r == ((comp_or_max(self.components@, from_lock) == comp_or_max(self.components@, to_lock)
                && comp_or_max(self.components@, from_lock) != usize::MAX)
                || self.acquisitions@.contains((to_lock, from_lock))),
    {
        let from_comp = match fx::map_get(&self.components, from_lock) {
            Some(c) => *c,
            None => usize::MAX,
        };
        let to_comp = match fx::map_get(&self.components, to_lock) {
            Some(c) => *c,
            None => usize::MAX,
        };
        if from_comp == to_comp && from_comp != usize::MAX {
            return true;
        }
        let mut i: usize = 0;
        while i < self.acquisitions.len()
            invariant
                0 <= i <= self.acquisitions@.len(),
                forall|k: int| 0 <= k < i ==> #[trigger] self.acquisitions@[k] != (to_lock, from_lock),
            decreases self.acquisitions@.len() - i,
        {
            let (f, t) = self.acquisitions[i];
            if f == to_lock && t == from_lock {
                assert(self.acquisitions@[i as int] == (to_lock, from_lock));
                return true;
            }
            i = i + 1;
        }
        false
    }
}

/// The stress testing state shared by all threads.
pub struct StressState {
    /// The lock acquisition pattern.
    pub tracker: ComponentTracker,
    /// How many preemptions happened before taking each lock.
    pub preemption_counts: FxHashMap<LockId, usize>,
}

/// How many preemptions `counts` records for `lock_id`.
pub open spec fn count_of(counts: Map<LockId, usize>, lock_id: LockId) -> int {
    if counts.contains_key(lock_id) { counts[lock_id] as int } else { 0 }
}

impl StressState {
    /// A state with nothing recorded.
    pub fn new() -> (r: StressState)
        ensures
            r.tracker.components@.dom() == Set::<LockId>::empty(),
            r.tracker.acquisitions@ == Seq::<(LockId, LockId)>::empty(),
            r.preemption_counts@.dom() == Set::<LockId>::empty(),
    {
        StressState { tracker: ComponentTracker::new(), preemption_counts: fx::map_new() }
    }

    /// Counts one more preemption before `lock_id`.
    pub fn track_preemption(&mut self, lock_id: LockId)
        requires
            count_of(old(self).preemption_counts@, lock_id) < usize::MAX,
        ensures
            final(self).preemption_counts@ == old(self).preemption_counts@.insert(lock_id,
                (count_of(old(self).preemption_counts@, lock_id) + 1) as usize),
            final(self).tracker == old(self).tracker,
    {
        let count: usize = match fx::map_get(&self.preemption_counts, lock_id) {
            Some(c) => *c,
            None => 0,
        };
        fx::map_insert(&mut self.preemption_counts, lock_id, count + 1);
    }

    /// Whether a preemption may still be counted before `lock_id`.
    pub fn can_track(&self, lock_id: LockId) -> (r: bool)
        ensures
            r == (count_of(self.preemption_counts@, lock_id) < usize::MAX),
    {
        match fx::map_get(&self.preemption_counts, lock_id) {
            Some(c) => *c < usize::MAX,
            None => true,
        }
    }
}

/// What a random preemption before `lock_id` gives, whatever the random
/// draws: no delay and no change for a thread that holds no lock or for a
/// zero chance; a delay for a thread that holds a lock when the chance is a
/// million in a million or more; a delay lies between `min_delay_us` and
/// `max_delay_us` (exactly `min_delay_us` when they agree) and is counted
/// for `lock_id` in `after`; no delay leaves the state as it was.
pub open spec fn random_preemption_outcome(before: StressState, lock_id: LockId, held: Seq<LockId>,
    probability_millionths: u64, min_delay_us: u64, max_delay_us: u64, after: StressState, r: Option<u64>) -> bool {
    &&& (held.len() == 0 || probability_millionths == 0) ==> r is None
    &&& (held.len() > 0 && probability_millionths >= 1_000_000) ==> r is Some
    &&& match r {
        Some(d) => {
            &&& min_delay_us <= d <= max_delay_us
            &&& (min_delay_us == max_delay_us ==> d == min_delay_us)
            &&& after.preemption_counts@ == before.preemption_counts@.insert(lock_id,
                (count_of(before.preemption_counts@, lock_id) + 1) as usize)
            &&& after.tracker == before.tracker
        },
        None => after == before,
    }
}

/// Whether a random draw below a million preempts, for a chance of
/// `probability_millionths` in a million: exactly when the draw is below it.
pub fn preemption_decision(draw: u64, probability_millionths: u64) -> (r: bool)
    ensures
        r == (draw < probability_millionths),
{
    draw < probability_millionths
}

/// Random preemption decided by `draw` (a number below a million): a
/// thread that holds a lock, with a non-zero chance, is delayed exactly when
/// [`preemption_decision`] holds for the draw; the delay lies between
/// `min_delay_us` and `max_delay_us` microseconds and is counted.
pub fn preempt_on_draw(state: &mut StressState, lock_id: LockId, held_locks: &[LockId],
    probability_millionths: u64, draw: u64, min_delay_us: u64, max_delay_us: u64) -> (r: Option<u64>)
    requires
        min_delay_us <= max_delay_us,
        count_of(old(state).preemption_counts@, lock_id) < usize::MAX,
        draw < 1_000_000,
    ensures
        random_preemption_outcome(*old(state), lock_id, held_locks@, probability_millionths, min_delay_us, max_delay_us,
            *final(state), r),
        held_locks@.len() > 0 && probability_millionths > 0 ==> (r is Some <==> draw < probability_millionths),
{
    if held_locks.len() == 0 {
        return None;
    }
    if probability_millionths == 0 {
        return None;
    }
    if preemption_decision(draw, probability_millionths) {
        state.track_preemption(lock_id);
        Some(delay_between(min_delay_us, max_delay_us))
    } else {
        None
    }
}

/// Random preemption: a thread that already holds a lock is delayed with a
/// chance of `probability_millionths` in a million, by a delay between
/// `min_delay_us` and `max_delay_us` microseconds; the preemption is counted.
/// The draw comes from `rand`; [`preempt_on_draw`] decides on it.
pub fn try_random_preemption(state: &mut StressState, _thread_id: ThreadId, lock_id: LockId, held_locks: &[LockId],
    probability_millionths: u64, min_delay_us: u64, max_delay_us: u64) -> (r: Option<u64>)
    requires
        min_delay_us <= max_delay_us,
        count_of(old(state).preemption_counts@, lock_id) < usize::MAX,
    ensures
        random_preemption_outcome(*old(state), lock_id, held_locks@, probability_millionths, min_delay_us, max_delay_us,
            *final(state), r),
        exists|draw: u64| draw < 1_000_000 && (held_locks@.len() > 0 && probability_millionths > 0
            ==> (r is Some <==> #[trigger] preemption_decision_spec(draw, probability_millionths))),
{
    if held_locks.len() == 0 || probability_millionths == 0 {
        assert(preemption_decision_spec(0, probability_millionths) == (0 < probability_millionths));
        return None;
    }
    let draw = random_below(1_000_000);
    let r = preempt_on_draw(state, lock_id, held_locks, probability_millionths, draw, min_delay_us, max_delay_us);
    assert(preemption_decision_spec(draw, probability_millionths) == (draw < probability_millionths));
    r
}

/// The decision of [`preemption_decision`], as a spec function.
pub open spec fn preemption_decision_spec(draw: u64, probability_millionths: u64) -> bool {
    draw < probability_millionths
}

/// The acquisitions recorded after those of `acq`: each of the first `k`
/// held locks taken before `lock_id`.
pub open spec fn acquisitions_after(acq: Seq<(LockId, LockId)>, held: Seq<LockId>, lock_id: LockId, k: int) -> Seq<(LockId, LockId)> {
    acq + held.take(k).map_values(|h: LockId| (h, lock_id))
}

/// What a component-based delay before `lock_id` gives: the held locks are
/// recorded as taken before `lock_id`, in order, up to the first one that
/// calls for a delay (all of them when none does); a delay lies between
/// `min_delay_us` and `max_delay_us` and is counted for `lock_id` in `after`.
pub open spec fn component_delay_outcome(before: StressState, lock_id: LockId, held: Seq<LockId>,
    min_delay_us: u64, max_delay_us: u64, after: StressState, r: Option<u64>) -> bool {
    &&& held.len() == 0 ==> r is None && after == before
    &&& exists|k: int| {
        &&& 0 <= k <= held.len()
        &&& after.tracker.acquisitions@ == #[trigger] acquisitions_after(before.tracker.acquisitions@, held, lock_id, k)
        &&& (r is Some <==> k > 0 && after.tracker.should_delay_spec(held[k - 1], lock_id))
        &&& r is None ==> k == held.len()
    }
    &&& match r {
        Some(d) => min_delay_us <= d <= max_delay_us
            && (min_delay_us == max_delay_us ==> d == min_delay_us)
            && after.preemption_counts@ == before.preemption_counts@.insert(lock_id,
                (count_of(before.preemption_counts@, lock_id) + 1) as usize),
        None => after.preemption_counts == before.preemption_counts,
    }
}

/// Component-based delay: each held lock is recorded as taken before
/// `lock_id`, in order, until one of them calls for a delay; then the
/// preemption is counted and a delay between `min_delay_us` and
/// `max_delay_us` microseconds is returned.
pub fn apply_component_delay(state: &mut StressState, _thread_id: ThreadId, lock_id: LockId, held_locks: &[LockId],
    min_delay_us: u64, max_delay_us: u64) -> (r: Option<u64>)
    requires
        min_delay_us <= max_delay_us,
        count_of(old(state).preemption_counts@, lock_id) < usize::MAX,
    ensures
        component_delay_outcome(*old(state), lock_id, held_locks@, min_delay_us, max_delay_us, *final(state), r),
        held_locks@.len() > 0 && old(state).tracker.acquisitions@.contains((lock_id, held_locks@[0])) ==> r is Some
            && final(state).tracker.acquisitions@ == old(state).tracker.acquisitions@.push((held_locks@[0], lock_id)),
        r is None ==> final(state).tracker.acquisitions@
            == old(state).tracker.acquisitions@ + held_locks@.map_values(|h: LockId| (h, lock_id)),
{
    if held_locks.len() == 0 {
        assert(held_locks@.take(0).map_values(|h: LockId| (h, lock_id)) =~= Seq::<(LockId, LockId)>::empty());
        assert(state.tracker.acquisitions@ =~= acquisitions_after(old(state).tracker.acquisitions@, held_locks@, lock_id, 0));
        return None;
    }
    let mut should_delay = false;
    let mut i: usize = 0;
    while i < held_locks.len() && !should_delay
        invariant
            0 <= i <= held_locks@.len(),
            state.tracker.acquisitions@ == acquisitions_after(old(state).tracker.acquisitions@, held_locks@, lock_id, i as int),
            state.preemption_counts == old(state).preemption_counts,
            should_delay ==> i > 0 && state.tracker.should_delay_spec(held_locks@[i - 1], lock_id),
            !should_delay ==> (i == 0 || !state.tracker.should_delay_spec(held_locks@[i - 1], lock_id)),
            i >= 1 && old(state).tracker.acquisitions@.contains((lock_id, held_locks@[0])) ==> should_delay && i == 1,
        decreases held_locks@.len() - i,
    {
        let held_lock = held_locks[i];
        state.tracker.record_acquisition(held_lock, lock_id);
        proof {
            assert(held_locks@.take(i + 1) == held_locks@.take(i as int).push(held_lock));
            assert(held_locks@.take(i + 1).map_values(|h: LockId| (h, lock_id))
                =~= held_locks@.take(i as int).map_values(|h: LockId| (h, lock_id)).push((held_lock, lock_id)));
            assert(state.tracker.acquisitions@ =~= acquisitions_after(old(state).tracker.acquisitions@, held_locks@, lock_id, i + 1));
        }
        let hit = state.tracker.should_delay(held_lock, lock_id);
        proof {
            if i == 0 && old(state).tracker.acquisitions@.contains((lock_id, held_locks@[0])) {
                let k = choose|k: int| 0 <= k < old(state).tracker.acquisitions@.len()
                    && old(state).tracker.acquisitions@[k] == (lock_id, held_locks@[0]);
                assert(state.tracker.acquisitions@[k] == (lock_id, held_lock));
                assert(hit);
            }
        }
        i = i + 1;
        if hit {
            should_delay = true;
        }
    }
    proof {
        assert(state.tracker.acquisitions@ == acquisitions_after(old(state).tracker.acquisitions@, held_locks@, lock_id, i as int));
        if !should_delay {
            assert(held_locks@.take(i as int) =~= held_locks@);
        }
        if i >= 1 && old(state).tracker.acquisitions@.contains((lock_id, held_locks@[0])) {
            assert(held_locks@.take(1).map_values(|h: LockId| (h, lock_id)) =~= seq![(held_locks@[0], lock_id)]);
        }
    }
    if should_delay {
        state.track_preemption(lock_id);
        Some(delay_between(min_delay_us, max_delay_us))
    } else {
        None
    }
}

impl ComponentTracker {
    /// The decision of [`ComponentTracker::should_delay`], as a spec.
    pub open spec fn should_delay_spec(&self, from_lock: LockId, to_lock: LockId) -> bool {
        (comp_or_max(self.components@, from_lock) == comp_or_max(self.components@, to_lock)
            && comp_or_max(self.components@, from_lock) != usize::MAX)
            || self.acquisitions@.contains((to_lock, from_lock))
    }
}

/// The delay before `thread_id` takes `lock_id`, by the stress `mode`
/// (see [`try_random_preemption`] and [`apply_component_delay`]).
pub fn calculate_stress_delay(mode: StressMode, state: &mut StressState, thread_id: ThreadId, lock_id: LockId,
    held_locks: &[LockId], probability_millionths: u64, min_delay_us: u64, max_delay_us: u64) -> (r: Option<u64>)
    requires
        min_delay_us <= max_delay_us,
        count_of(old(state).preemption_counts@, lock_id) < usize::MAX,
    ensures
        mode == StressMode::NoStress ==> r is None && *final(state) == *old(state),
        held_locks@.len() == 0 ==> r is None && *final(state) == *old(state),
        r matches Some(d) ==> min_delay_us <= d <= max_delay_us,
        mode == StressMode::RandomPreemption ==> random_preemption_outcome(*old(state), lock_id, held_locks@,
            probability_millionths, min_delay_us, max_delay_us, *final(state), r),
        mode == StressMode::ComponentBased ==> component_delay_outcome(*old(state), lock_id, held_locks@,
            min_delay_us, max_delay_us, *final(state), r),
{
    match mode {
        StressMode::NoStress => None,
        StressMode::RandomPreemption => try_random_preemption(state, thread_id, lock_id, held_locks,
            probability_millionths, min_delay_us, max_delay_us),
        StressMode::ComponentBased => apply_component_delay(state, thread_id, lock_id, held_locks,
            min_delay_us, max_delay_us),
    }
}

} // verus!
