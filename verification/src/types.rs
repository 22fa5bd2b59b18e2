//! Identifiers, events and deadlock reports shared by the whole library.
use vstd::prelude::*;

verus! {

/// Identifies a thread. Each thread gets its own value for its whole life.
pub type ThreadId = usize;

/// Identifies a lock (mutex or reader-writer lock).
pub type LockId = usize;

/// Identifies a condition variable; it shares the id space of locks.
pub type CondvarId = LockId;

/// The thread and lock events that are tracked and logged.
#[derive(Debug, Clone, Copy, PartialEq, Eq, Structural)]
pub enum Events {
    /// A thread was spawned.
    ThreadSpawn,
    /// A thread exited.
    ThreadExit,
    /// A mutex was created.
    MutexSpawn,
    /// A mutex was dropped.
    MutexExit,
    /// A reader-writer lock was created.
    RwSpawn,
    /// A reader-writer lock was dropped.
    RwExit,
    /// A condition variable was created.
    CondvarSpawn,
    /// A condition variable was dropped.
    CondvarExit,
    /// A thread is attempting to acquire a mutex.
    MutexAttempt,
    /// A thread acquired a mutex.
    MutexAcquired,
    /// A thread released a mutex.
    MutexReleased,
    /// A thread is attempting to read-lock a reader-writer lock.
    RwReadAttempt,
    /// A thread acquired a read lock.
    RwReadAcquired,
    /// A thread released a read lock.
    RwReadReleased,
    /// A thread is attempting to write-lock a reader-writer lock.
    RwWriteAttempt,
    /// A thread acquired a write lock.
    RwWriteAcquired,
    /// A thread released a write lock.
    RwWriteReleased,
    /// A thread began waiting on a condition variable.
    CondvarWaitBegin,
    /// A thread finished waiting on a condition variable.
    CondvarWaitEnd,
    /// A condition variable woke one waiter.
    CondvarNotifyOne,
    /// A condition variable woke all waiters.
    CondvarNotifyAll,
}

/// The three lock interactions recorded by the simple thread-lock graph.
#[derive(Debug, Clone, Copy, PartialEq, Eq, Structural)]
pub enum LockEvent {
    /// A thread is attempting to acquire a lock.
    Attempt,
    /// A thread acquired a lock.
    Acquired,
    /// A thread released a lock.
    Released,
}

/// Whether a condition variable notification was for one or for all waiters.
#[derive(Debug, Clone, Copy, PartialEq, Eq, Structural)]
pub enum NotifyKind {
    /// Wake one waiting thread.
    One,
    /// Wake every waiting thread.
    All,
}

/// Where a deadlock report comes from.
#[derive(Debug, Clone, Copy, PartialEq, Eq, Structural)]
pub enum DeadlockSource {
    /// A cycle of threads that are blocked right now.
    WaitForGraph,
    /// An inconsistent historical lock acquisition order (a potential deadlock).
    LockOrderViolation,
}

/// A detected deadlock, as handed to the deadlock callback.
#[derive(Debug, Clone)]
pub struct DeadlockInfo {
    /// Where the report comes from.
    pub source: DeadlockSource,
    /// The threads of the cycle, in order: each waits for the next, the last for the first.
    pub thread_cycle: Vec<ThreadId>,
    /// For threads of the report, the lock each one is waiting to acquire.
    pub thread_waiting_for_locks: Vec<(ThreadId, LockId)>,
    /// For a lock order violation, the cycle of locks in the order graph.
    pub lock_order_cycle: Option<Vec<LockId>>,
    /// RFC 3339 time of detection.
    pub timestamp: String,
}

/// One tracked event, as it goes to the event log.
#[derive(Debug, Clone, Copy, PartialEq, Eq, Structural)]
pub struct EventRecord {
    /// Thread that performed the action (0 for lock-only events).
    pub thread_id: ThreadId,
    /// Lock or condition variable involved (0 for thread-only events).
    pub lock_id: LockId,
    /// What happened.
    pub event: Events,
    /// Parent thread of a spawned thread, or creator of a lock.
    pub parent_id: Option<ThreadId>,
    /// Thread woken by a condition variable notification.
    pub woken_thread: Option<ThreadId>,
}

impl EventRecord {
    /// The record of `event` with its fields, as a spec value.
    pub open spec fn make(
        thread_id: ThreadId,
        lock_id: LockId,
        event: Events,
        parent_id: Option<ThreadId>,
        woken_thread: Option<ThreadId>,
    ) -> EventRecord {
        EventRecord { thread_id, lock_id, event, parent_id, woken_thread }
    }

    /// Builds a record.
    pub fn new(
        thread_id: ThreadId,
        lock_id: LockId,
        event: Events,
        parent_id: Option<ThreadId>,
        woken_thread: Option<ThreadId>,
    ) -> (r: EventRecord)
        ensures
            r == EventRecord::make(thread_id, lock_id, event, parent_id, woken_thread),
    {
        EventRecord { thread_id, lock_id, event, parent_id, woken_thread }
    }
}

} // verus!
