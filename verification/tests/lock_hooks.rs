use deloxide::detector::lock_hooks::{self, SimpleDetector};
use deloxide::types::{DeadlockSource, EventRecord, Events};

#[test]
fn opposite_lock_orders_are_reported_by_the_hooks() {
    let mut detector = SimpleDetector::new();
    lock_hooks::on_thread_spawn(&mut detector, 1, None);
    lock_hooks::on_thread_spawn(&mut detector, 2, Some(1));
    lock_hooks::on_lock_create(&mut detector, 10, None, 1);
    lock_hooks::on_lock_create(&mut detector, 20, None, 1);
    assert!(lock_hooks::on_lock_attempt(&mut detector, 1, 10).is_none());
    lock_hooks::on_lock_acquired(&mut detector, 1, 10);
    assert!(lock_hooks::on_lock_attempt(&mut detector, 2, 20).is_none());
    lock_hooks::on_lock_acquired(&mut detector, 2, 20);
    assert!(lock_hooks::on_lock_attempt(&mut detector, 1, 20).is_none());
    let info = lock_hooks::on_lock_attempt(&mut detector, 2, 10).expect("cycle");
    assert_eq!(info.source, DeadlockSource::WaitForGraph);
    assert_eq!(info.thread_cycle, vec![1, 2]);
    let mut waits = info.thread_waiting_for_locks.clone();
    waits.sort_unstable();
    assert_eq!(waits, vec![(1, 20), (2, 10)]);
    assert_eq!(detector.events[2], EventRecord::new(0, 10, Events::MutexSpawn, Some(1), None));
}

#[test]
fn shared_lock_suppresses_the_report() {
    let mut detector = SimpleDetector::new();
    lock_hooks::on_lock_acquired(&mut detector, 1, 99);
    lock_hooks::on_lock_acquired(&mut detector, 1, 10);
    lock_hooks::on_lock_acquired(&mut detector, 2, 20);
    detector.thread_holds.entry(2).or_default().insert(99);
    assert!(lock_hooks::on_lock_attempt(&mut detector, 1, 20).is_none());
    assert!(lock_hooks::on_lock_attempt(&mut detector, 2, 10).is_none());
}

#[test]
fn release_destroy_and_exit_clean_up() {
    let mut detector = SimpleDetector::new();
    lock_hooks::on_lock_acquired(&mut detector, 1, 10);
    lock_hooks::on_lock_attempt(&mut detector, 2, 10);
    assert_eq!(detector.thread_waits_for.get(&2), Some(&10));
    lock_hooks::on_lock_release(&mut detector, 2, 10);
    assert_eq!(detector.lock_owners.get(&10), Some(&1));
    lock_hooks::on_lock_release(&mut detector, 1, 10);
    assert!(detector.lock_owners.is_empty());
    detector.thread_waits_for.insert(3, 0);
    lock_hooks::on_lock_destroy(&mut detector, 10);
    assert!(detector.thread_waits_for.is_empty());
    lock_hooks::on_thread_exit(&mut detector, 2);
    assert!(detector.wait_for_graph.outgoing(2).is_empty());
}
