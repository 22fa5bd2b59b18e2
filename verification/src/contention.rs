//! A count of threads on the slow (contended) path of a lock, shared between
//! threads through an atomic counter. A waiter is counted from `register`
//! until its token is dropped.
use vstd::prelude::*;
use std::sync::atomic::{AtomicUsize, Ordering};

verus! {

/// `AtomicUsize::new`: an atomic counter holding `v`.
#[verifier::external_body]
fn atomic_new(v: usize) -> AtomicUsize {
    AtomicUsize::new(v)
}

/// `AtomicUsize::fetch_add` with acquire-release ordering: adds `v`
/// (wrapping) and returns the previous value. Other threads may change the
/// counter at any time, so nothing is stated of the value.
#[verifier::external_body]
fn atomic_add(a: &AtomicUsize, v: usize) -> usize {
    a.fetch_add(v, Ordering::AcqRel)
}

/// `AtomicUsize::fetch_sub` with acquire-release ordering: subtracts `v`
/// (wrapping, so it never panics) and returns the previous value. Other
/// threads may change the counter at any time, so nothing is stated of the
/// value.
#[verifier::external_body]
fn atomic_sub(a: &AtomicUsize, v: usize) -> usize
    opens_invariants none
    no_unwind
{
    a.fetch_sub(v, Ordering::AcqRel)
}

/// `AtomicUsize::load` with acquire ordering: the current value. Other
/// threads may change the counter at any time, so nothing is stated of it.
#[verifier::external_body]
fn atomic_load(a: &AtomicUsize) -> usize {
    a.load(Ordering::Acquire)
}

/// The number of threads waiting on the slow path of one lock.
pub struct ContentionState {
    slow_waiters: AtomicUsize,
}

/// A registered slow-path waiter; dropping it unregisters the waiter.
pub struct SlowWaiter<'a> {
    pub state: &'a ContentionState,
}

impl ContentionState {
    /// A state with no waiter.
    pub fn new() -> (r: ContentionState) {
        ContentionState { slow_waiters: atomic_new(0) }
    }

    /// Registers a slow-path waiter; it stays counted until the returned token is dropped.
    pub fn register(&self) -> (r: SlowWaiter<'_>)
        ensures
            r.state == self,
    {
        atomic_add(&self.slow_waiters, 1);
        SlowWaiter { state: self }
    }

    /// Whether some thread waits on the slow path.
    pub fn has_waiters(&self) -> (r: bool) {
        atomic_load(&self.slow_waiters) != 0
    }

    /// The number of threads waiting on the slow path.
    pub fn waiter_count(&self) -> (r: usize) {
        atomic_load(&self.slow_waiters)
    }
}

impl<'a> Drop for SlowWaiter<'a> {
    fn drop(&mut self)
        opens_invariants none
        no_unwind
    {
        atomic_sub(&self.state.slow_waiters, 1);
    }
}

} // verus!
