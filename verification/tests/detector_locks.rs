use deloxide::detector::Detector;
use deloxide::detector::wait::{WaitIntent, WaitMode};
use deloxide::detector::{mutex, rwlock, condvar, thread};
use deloxide::types::{DeadlockSource, Events, EventRecord};

#[test]
fn blocking_upgrade_registers_self_cycle() {
    let mut detector = Detector::new();
    detector.rwlock_readers.entry(10).or_default().insert(1, 1);

    let info = detector
        .acquire_write_slow(1, 10, None)
        .expect("blocking upgrade must be reported");

    assert_eq!(info.thread_cycle, vec![1]);
    assert_eq!(info.thread_waiting_for_locks, vec![(1, 10)]);
}

#[test]
fn failed_nonblocking_read_leaves_no_wait_state() {
    let mut detector = Detector::new();
    detector.rwlock_writer.insert(10, 2);

    let result = detector.try_read_nonblocking(1, 10, || None::<()>);

    assert!(result.is_none());
    assert!(!detector.thread_waits_for.contains_key(&1));
    assert!(!detector.lock_waiters.contains_key(&10));
    assert!(detector.wait_for_graph.edges.get(&1).is_none());
}

#[test]
fn recursive_read_release_preserves_remaining_hold() {
    let mut detector = Detector::new();
    detector.rwlock_readers.entry(10).or_default().insert(1, 2);

    detector.release_read(1, 10);
    assert_eq!(detector.rwlock_readers[&10][&1], 1);

    detector.release_read(1, 10);
    assert!(!detector.rwlock_readers.contains_key(&10));
}

#[test]
fn recursive_read_release_preserves_lock_order_hold_until_last_guard() {
    let mut detector = Detector::new();
    detector.complete_read(1, 10);
    detector.complete_read(1, 10);
    detector.register_wait(2, WaitIntent::new(10, WaitMode::RwWrite));
    assert_eq!(detector.wait_for_graph.outgoing(2), vec![1]);

    detector.release_read(1, 10);

    assert_eq!(detector.rwlock_readers[&10][&1], 1);
    assert!(detector.thread_holds[&1].contains(&10));
    assert_eq!(detector.wait_for_graph.outgoing(2), vec![1]);

    detector.release_read(1, 10);

    assert!(!detector.rwlock_readers.contains_key(&10));
    assert!(!detector.thread_holds.contains_key(&1));
    assert!(detector.wait_for_graph.outgoing(2).is_empty());
}

#[test]
fn two_mutexes_taken_in_opposite_orders_are_reported() {
    let mut detector = Detector::new();
    mutex::create_mutex(&mut detector, 10, None, 1);
    mutex::create_mutex(&mut detector, 20, Some(2), 1);
    assert!(mutex::complete_acquire(&mut detector, 1, 10).is_none());
    assert!(mutex::complete_acquire(&mut detector, 2, 20).is_none());
    assert!(detector.acquire_slow(1, 20, Some(2)).is_none());
    let cycle = detector.acquire_slow(2, 10, Some(1)).expect("the second wait closes the cycle");
    let info = detector.validated_deadlock_info(cycle).expect("the cycle is a cycle of waits");
    assert_eq!(info.source, DeadlockSource::WaitForGraph);
    let mut threads = info.thread_cycle.clone();
    threads.sort_unstable();
    assert_eq!(threads, vec![1, 2]);
    let mut waits = info.thread_waiting_for_locks.clone();
    waits.sort_unstable();
    assert_eq!(waits, vec![(1, 20), (2, 10)]);
    assert!(info.lock_order_cycle.is_none());
    assert_eq!(detector.events[0], EventRecord::new(0, 10, Events::MutexSpawn, Some(1), None));
    assert_eq!(detector.events[1], EventRecord::new(0, 20, Events::MutexSpawn, Some(2), None));
}

#[test]
fn acquire_then_release_leaves_no_owner() {
    let mut detector = Detector::new();
    mutex::complete_acquire(&mut detector, 1, 10);
    assert_eq!(detector.mutex_owners.get(&10), Some(&1));
    assert!(detector.thread_holds[&1].contains(&10));
    mutex::release_mutex(&mut detector, 1, 10);
    assert!(detector.mutex_owners.get(&10).is_none());
    assert!(!detector.thread_holds.contains_key(&1));
    let taken = detector.take_events();
    assert_eq!(taken.len(), 2);
    assert_eq!(taken[0].event, Events::MutexAcquired);
    assert_eq!(taken[1].event, Events::MutexReleased);
    assert!(detector.events.is_empty());
}

#[test]
fn release_by_another_thread_keeps_owner() {
    let mut detector = Detector::new();
    detector.complete_acquire(1, 10);
    detector.release_mutex(2, 10);
    assert_eq!(detector.mutex_owners.get(&10), Some(&1));
}

#[test]
fn lock_order_violation_is_reported_when_enabled() {
    let mut detector = Detector::new();
    deloxide::detector::init_detector(&mut detector, true);
    assert!(detector.complete_acquire(1, 10).is_none());
    assert!(detector.complete_acquire(1, 20).is_none());
    detector.release_mutex(1, 20);
    detector.release_mutex(1, 10);
    assert!(detector.complete_acquire(2, 20).is_none());
    let info = detector.complete_acquire(2, 10).expect("10 after 20 reverses the recorded order");
    assert_eq!(info.source, DeadlockSource::LockOrderViolation);
    assert_eq!(info.thread_cycle, vec![2]);
    assert_eq!(info.thread_waiting_for_locks, vec![(2, 10)]);
    let cycle = info.lock_order_cycle.expect("a lock cycle");
    assert!(cycle.contains(&10) && cycle.contains(&20));
}

#[test]
fn lock_order_is_not_checked_when_disabled() {
    let mut detector = Detector::new();
    detector.complete_acquire(1, 10);
    detector.complete_acquire(1, 20);
    detector.release_mutex(1, 20);
    detector.release_mutex(1, 10);
    detector.complete_acquire(2, 20);
    assert!(detector.complete_acquire(2, 10).is_none());
}

#[test]
fn destroying_a_mutex_forgets_waits_and_holds() {
    let mut detector = Detector::new();
    detector.complete_acquire(1, 10);
    detector.acquire_slow(2, 10, None);
    assert_eq!(detector.wait_for_graph.outgoing(2), vec![1]);
    mutex::destroy_mutex(&mut detector, 10);
    assert!(detector.mutex_owners.is_empty());
    assert!(!detector.thread_waits_for.contains_key(&2));
    assert!(detector.wait_for_graph.outgoing(2).is_empty());
    assert!(!detector.thread_holds[&1].contains(&10));
}

#[test]
fn slow_path_with_recheck_completes_when_the_lock_is_free() {
    let mut detector = Detector::new();
    let (acquired, info) = mutex::acquire_slow_with_recheck(&mut detector, 1, 10, || Some(7u8), || None);
    assert_eq!(acquired, Some(7));
    assert!(info.is_none());
    assert_eq!(detector.mutex_owners.get(&10), Some(&1));
    let (acquired, info) = mutex::acquire_slow_with_recheck(&mut detector, 2, 10, || None::<u8>, || Some(1));
    assert!(acquired.is_none());
    assert!(info.is_none());
    assert_eq!(detector.wait_for_graph.outgoing(2), vec![1]);
}

#[test]
fn read_slow_path_waits_for_the_writer() {
    let mut detector = Detector::new();
    let (acquired, info) = rwlock::acquire_read_slow_with_recheck(&mut detector, 1, 10, || None::<()>, || Some(2));
    assert!(acquired.is_none());
    assert!(info.is_none());
    assert_eq!(detector.rwlock_writer.get(&10), Some(&2));
    assert_eq!(detector.wait_for_graph.outgoing(1), vec![2]);
    let (acquired, _) = rwlock::acquire_read_slow_with_recheck(&mut detector, 3, 10, || Some(()), || None);
    assert!(acquired.is_some());
    assert_eq!(detector.rwlock_readers[&10][&3], 1);
}

#[test]
fn write_release_removes_edges_to_the_writer() {
    let mut detector = Detector::new();
    assert!(rwlock::complete_write(&mut detector, 1, 10).is_none());
    let (acquired, info) = rwlock::acquire_write_slow_with_recheck(&mut detector, 2, 10, || None::<()>, || None);
    assert!(acquired.is_none());
    assert!(info.is_none());
    assert_eq!(detector.wait_for_graph.outgoing(2), vec![1]);
    rwlock::release_write(&mut detector, 1, 10);
    assert!(detector.rwlock_writer.is_empty());
    assert!(detector.wait_for_graph.outgoing(2).is_empty());
}

#[test]
fn destroying_a_rwlock_forgets_readers_and_writer() {
    let mut detector = Detector::new();
    rwlock::create_rwlock(&mut detector, 10, None, 4);
    rwlock::complete_read(&mut detector, 1, 10);
    assert_eq!(rwlock::try_read(&mut detector, 2, 10, || Some(())), Some(()));
    rwlock::destroy_rwlock(&mut detector, 10);
    assert!(detector.rwlock_readers.is_empty());
    assert!(!detector.thread_holds[&1].contains(&10));
    assert_eq!(detector.events[0], EventRecord::new(0, 10, Events::RwSpawn, Some(4), None));
}

#[test]
fn notify_one_wakes_the_first_waiter() {
    let mut detector = Detector::new();
    condvar::create_condvar(&mut detector, 50, 9);
    condvar::begin_wait(&mut detector, 1, 50, 10);
    condvar::begin_wait(&mut detector, 2, 50, 10);
    detector.complete_acquire(3, 10);
    let reports = condvar::notify_one(&mut detector, 50, 3);
    assert!(reports.is_empty());
    assert!(detector.cv_woken.contains(&1));
    assert!(!detector.cv_woken.contains(&2));
    assert_eq!(detector.cv_waiters[&50].len(), 1);
    assert_eq!(detector.wait_for_graph.outgoing(1), vec![3]);
    condvar::end_wait(&mut detector, 1, 50, 10);
    assert!(!detector.cv_woken.contains(&1));
    assert!(!detector.thread_wait_cv.contains_key(&1));
}

#[test]
fn notify_all_wakes_every_waiter_in_order() {
    let mut detector = Detector::new();
    condvar::begin_wait(&mut detector, 1, 50, 10);
    condvar::begin_wait(&mut detector, 2, 50, 11);
    let before = detector.events.len();
    let reports = condvar::notify_all(&mut detector, 50, 7);
    assert!(reports.is_empty());
    assert!(detector.cv_woken.contains(&1) && detector.cv_woken.contains(&2));
    assert!(detector.cv_waiters[&50].is_empty());
    let logged: Vec<EventRecord> = detector.events[before..].to_vec();
    assert_eq!(logged[0], EventRecord::new(7, 50, Events::CondvarNotifyAll, None, Some(1)));
    assert_eq!(logged[1], EventRecord::new(1, 10, Events::MutexAttempt, None, None));
    assert_eq!(logged[2], EventRecord::new(2, 11, Events::MutexAttempt, None, None));
    assert_eq!(detector.wait_for_graph.outgoing(1), vec![7]);
    condvar::destroy_condvar(&mut detector, 50);
    assert!(detector.thread_wait_cv.is_empty());
}

#[test]
fn thread_exit_clears_its_edges_and_holds() {
    let mut detector = Detector::new();
    thread::on_thread_spawn(&mut detector, 1, None);
    detector.complete_acquire(1, 10);
    detector.acquire_slow(2, 10, None);
    thread::on_thread_exit(&mut detector, 1);
    assert!(detector.wait_for_graph.outgoing(2).is_empty());
    assert!(!detector.thread_holds.contains_key(&1));
    assert_eq!(detector.events[0], EventRecord::new(1, 0, Events::ThreadSpawn, None, None));
}

#[test]
fn lock_order_check_records_every_held_lock_before_the_new_one() {
    let mut detector = Detector::new();
    deloxide::detector::init_detector(&mut detector, true);
    detector.complete_acquire(1, 10);
    detector.complete_acquire(1, 20);
    assert!(detector.check_lock_order_violation(1, 30).is_none());
    let graph = detector.lock_order_graph.as_ref().expect("lock order checking is on");
    assert!(graph.has_edge(10, 20));
    assert!(graph.has_edge(10, 30));
    assert!(graph.has_edge(20, 30));
    assert!(!graph.has_edge(30, 10));
}

#[test]
fn write_then_release_leaves_no_writer() {
    let mut detector = Detector::new();
    rwlock::complete_read(&mut detector, 3, 40);
    assert!(rwlock::complete_write(&mut detector, 1, 30).is_none());
    assert_eq!(detector.rwlock_writer.get(&30), Some(&1));
    rwlock::release_write(&mut detector, 1, 30);
    assert!(detector.rwlock_writer.get(&30).is_none());
    assert!(detector.thread_holds.get(&1).map_or(true, |h| !h.contains(&30)));
    assert!(detector.thread_holds.get(&3).unwrap().contains(&40));
}

#[test]
fn releasing_the_last_lock_drops_the_holder_entry() {
    let mut detector = Detector::new();
    mutex::complete_acquire(&mut detector, 1, 10);
    mutex::complete_acquire(&mut detector, 1, 20);
    mutex::release_mutex(&mut detector, 1, 10);
    assert!(detector.thread_holds.get(&1).unwrap().contains(&20));
    mutex::release_mutex(&mut detector, 1, 20);
    assert!(!detector.thread_holds.contains_key(&1));
    assert!(rwlock::complete_write(&mut detector, 2, 30).is_none());
    rwlock::release_write(&mut detector, 2, 30);
    assert!(!detector.thread_holds.contains_key(&2));
}

#[test]
fn notify_on_an_empty_queue_keeps_the_owners() {
    let mut detector = Detector::new();
    condvar::create_condvar(&mut detector, 50, 1);
    mutex::complete_acquire(&mut detector, 1, 10);
    rwlock::complete_read(&mut detector, 2, 20);
    assert!(condvar::notify_one(&mut detector, 50, 3).is_empty());
    assert_eq!(detector.mutex_owners.get(&10), Some(&1));
    assert_eq!(detector.rwlock_readers.get(&20).unwrap().get(&2), Some(&1));
}
