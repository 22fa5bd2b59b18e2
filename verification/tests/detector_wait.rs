use deloxide::detector::Detector;
use deloxide::detector::wait::{WaitIntent, WaitMode};

#[test]
fn mutex_wait_resolves_current_owner() {
    let mut detector = Detector::new();
    detector.mutex_owners.insert(10, 2);

    let intent = WaitIntent::new(10, WaitMode::Mutex);

    assert_eq!(detector.incompatible_owners(1, intent), vec![2]);
}

#[test]
fn read_wait_resolves_only_writer() {
    let mut detector = Detector::new();
    detector.rwlock_readers.entry(10).or_default().insert(3, 1);
    detector.rwlock_writer.insert(10, 2);

    let intent = WaitIntent::new(10, WaitMode::RwRead);

    assert_eq!(detector.incompatible_owners(1, intent), vec![2]);
}

#[test]
fn write_wait_resolves_all_readers_including_self() {
    let mut detector = Detector::new();
    detector.rwlock_readers.entry(10).or_default().insert(1, 1);
    detector.rwlock_readers.entry(10).or_default().insert(3, 2);

    let intent = WaitIntent::new(10, WaitMode::RwWrite);
    let mut owners = detector.incompatible_owners(1, intent);
    owners.sort_unstable();

    assert_eq!(owners, vec![1, 3]);
}

#[test]
fn wait_intent_updates_forward_and_reverse_indexes() {
    let mut detector = Detector::new();
    let intent = WaitIntent::new(10, WaitMode::Mutex);

    detector.set_wait_intent(1, intent);

    assert_eq!(detector.thread_waits_for.get(&1), Some(&intent));
    assert!(detector.lock_waiters.get(&10).unwrap().contains(&1));

    detector.clear_wait_intent(1);

    assert!(!detector.thread_waits_for.contains_key(&1));
    assert!(!detector.lock_waiters.contains_key(&10));
}

#[test]
fn refresh_retargets_waiter_after_owner_handoff() {
    let mut detector = Detector::new();
    detector.mutex_owners.insert(10, 2);
    detector.register_wait(1, WaitIntent::new(10, WaitMode::Mutex));
    assert_eq!(detector.wait_for_graph.outgoing(1), vec![2]);

    detector.mutex_owners.insert(10, 3);
    detector.refresh_waiters_for_lock(10);

    assert_eq!(detector.wait_for_graph.outgoing(1), vec![3]);
}

#[test]
fn complete_cycle_validation_rejects_stale_older_edge() {
    let mut detector = Detector::new();
    detector.mutex_owners.insert(10, 2);
    detector.mutex_owners.insert(20, 1);
    detector.register_wait(1, WaitIntent::new(10, WaitMode::Mutex));
    detector.register_wait(2, WaitIntent::new(20, WaitMode::Mutex));

    assert!(detector.validate_wait_cycle(&[1, 2]));

    detector.mutex_owners.insert(10, 3);

    assert!(!detector.validate_wait_cycle(&[1, 2]));
}

#[test]
fn stale_cycle_is_not_converted_to_deadlock_report() {
    let mut detector = Detector::new();
    detector.mutex_owners.insert(10, 2);
    detector.mutex_owners.insert(20, 1);
    detector.register_wait(1, WaitIntent::new(10, WaitMode::Mutex));
    let cycle = detector
        .register_wait(2, WaitIntent::new(20, WaitMode::Mutex))
        .expect("cycle");

    detector.mutex_owners.insert(10, 3);

    assert!(detector.validated_deadlock_info(cycle).is_none());
}

#[test]
fn register_wait_records_every_incompatible_owner_after_finding_cycle() {
    let mut detector = Detector::new();
    for owner in [2, 3, 4] {
        detector.rwlock_readers.entry(10).or_default().insert(owner, 1);
    }
    let intent = WaitIntent::new(10, WaitMode::RwWrite);
    let cycle_owner = detector.incompatible_owners(1, intent)[0];
    let dependency_lock = 20 + cycle_owner;
    detector.mutex_owners.insert(dependency_lock, 1);
    detector.register_wait(cycle_owner, WaitIntent::new(dependency_lock, WaitMode::Mutex));

    assert!(detector.register_wait(1, intent).is_some());

    let mut expected = vec![2, 3, 4];
    expected.retain(|owner| *owner != cycle_owner);
    assert_eq!(detector.wait_for_graph.outgoing(1), expected);
}

#[test]
fn refresh_updates_every_waiter_after_finding_cycle() {
    let mut detector = Detector::new();
    detector.mutex_owners.insert(10, 2);
    for waiter in [1, 3, 4] {
        detector.set_wait_intent(waiter, WaitIntent::new(10, WaitMode::Mutex));
        detector.wait_for_graph.add_edge(waiter, 99);
    }

    let cycle_waiter = *detector.lock_waiters[&10].iter().next().unwrap();
    detector.mutex_owners.insert(20, cycle_waiter);
    detector.register_wait(2, WaitIntent::new(20, WaitMode::Mutex));

    assert!(detector.refresh_waiters_for_lock(10).is_some());

    for waiter in [1, 3, 4] {
        let expected = if waiter == cycle_waiter { Vec::new() } else { vec![2] };
        assert_eq!(detector.wait_for_graph.outgoing(waiter), expected);
    }
}

#[test]
fn stale_candidate_returns_valid_cycle_found_during_refresh() {
    let mut detector = Detector::new();
    detector.mutex_owners.insert(10, 2);
    detector.mutex_owners.insert(20, 1);
    detector.set_wait_intent(1, WaitIntent::new(10, WaitMode::Mutex));
    detector.set_wait_intent(2, WaitIntent::new(20, WaitMode::Mutex));
    detector.wait_for_graph.add_edge(1, 3);
    detector.wait_for_graph.add_edge(2, 1);

    let info = detector
        .validated_deadlock_info(vec![1, 3])
        .expect("refresh should recover the current cycle");

    let mut cycle = info.thread_cycle;
    cycle.sort_unstable();
    assert_eq!(cycle, vec![1, 2]);
}

#[test]
fn common_shared_read_lock_does_not_filter_cycle() {
    let mut detector = Detector::new();
    detector.thread_holds.entry(1).or_default().insert(99);
    detector.thread_holds.entry(2).or_default().insert(99);
    detector.rwlock_readers.entry(99).or_default().insert(1, 1);
    detector.rwlock_readers.entry(99).or_default().insert(2, 1);

    assert_eq!(detector.filter_cycle_by_common_locks(&[1, 2]), vec![1, 2]);
}

#[test]
fn common_exclusive_lock_filters_cycle() {
    let mut detector = Detector::new();
    detector.thread_holds.entry(1).or_default().insert(99);
    detector.thread_holds.entry(2).or_default().insert(99);

    assert_eq!(detector.filter_cycle_by_common_locks(&[1, 2]), Vec::<usize>::new());
    assert_eq!(detector.filter_cycle_by_common_locks(&[]), Vec::<usize>::new());
}

#[test]
fn set_then_clear_wait_intent_leaves_no_trace() {
    let mut detector = Detector::new();
    detector.mutex_owners.insert(10, 2);
    detector.register_wait(1, WaitIntent::new(10, WaitMode::Mutex));
    detector.set_wait_intent(1, WaitIntent::new(20, WaitMode::Mutex));
    detector.clear_wait_intent(1);
    assert!(detector.thread_waits_for.is_empty());
    assert!(detector.lock_waiters.is_empty());
    assert!(detector.wait_for_graph.outgoing(1).is_empty());
}

#[test]
fn register_wait_never_closes_a_cycle_in_the_graph() {
    let mut detector = Detector::new();
    detector.mutex_owners.insert(10, 2);
    detector.mutex_owners.insert(20, 1);
    assert!(detector.register_wait(1, WaitIntent::new(10, WaitMode::Mutex)).is_none());
    let cycle = detector.register_wait(2, WaitIntent::new(20, WaitMode::Mutex)).expect("cycle");
    assert_eq!(cycle, vec![1, 2]);
    assert!(detector.wait_for_graph.outgoing(2).is_empty());
    assert_eq!(detector.wait_for_graph.outgoing(1), vec![2]);
}
