use deloxide::contention::ContentionState;
use deloxide::showcase::encoder::{compact_deadlock, compress_and_encode, parse_log_entry, EncodeError, LogEntry};
use deloxide::stress::{calculate_stress_delay, delay_between, preempt_on_draw, preemption_decision, ComponentTracker, StressMode, StressState};
use deloxide::types::{DeadlockInfo, DeadlockSource};

#[test]
fn waiter_token_balances_count() {
    let state = ContentionState::new();
    assert!(!state.has_waiters());

    {
        let _waiter = state.register();
        assert!(state.has_waiters());
        assert_eq!(state.waiter_count(), 1);
    }

    assert!(!state.has_waiters());
}

#[test]
fn test_parse_log_entry() {
    let log_entry = LogEntry {
        sequence: 42,
        thread_id: 1,
        lock_id: 2,
        event: "ThreadSpawn".to_string(),
        timestamp_bits: 1754931441.237695f64.to_bits(),
        parent_id: Some(5),
        woken_thread: None,
    };

    let result = parse_log_entry(log_entry).expect("Failed to parse log entry");

    assert_eq!(result.0, 42);
    assert_eq!(result.1, 1);
    assert_eq!(result.2, 2);
    assert_eq!(result.3, 0);
    assert_eq!(result.5, 5);
    assert_eq!(result.6, 0);
}

#[test]
fn test_unique_event_codes() {
    let events = vec![
        ("ThreadSpawn", 0u8),
        ("ThreadExit", 1u8),
        ("MutexSpawn", 2u8),
        ("MutexExit", 3u8),
        ("RwSpawn", 4u8),
        ("RwExit", 5u8),
        ("CondvarSpawn", 6u8),
        ("CondvarExit", 7u8),
        ("MutexAttempt", 10u8),
        ("MutexAcquired", 11u8),
        ("MutexReleased", 12u8),
        ("RwReadAttempt", 20u8),
        ("RwReadAcquired", 21u8),
        ("RwReadReleased", 22u8),
        ("RwWriteAttempt", 23u8),
        ("RwWriteAcquired", 24u8),
        ("RwWriteReleased", 25u8),
        ("CondvarWaitBegin", 30u8),
        ("CondvarWaitEnd", 31u8),
        ("CondvarNotifyOne", 32u8),
        ("CondvarNotifyAll", 33u8),
    ];

    for (event_name, expected_code) in events {
        let log_entry = LogEntry {
            sequence: 0,
            thread_id: 1,
            lock_id: 2,
            event: event_name.to_string(),
            timestamp_bits: 1754931441.237695f64.to_bits(),
            parent_id: None,
            woken_thread: None,
        };

        let result = parse_log_entry(log_entry).unwrap_or_else(|_| panic!("Failed to parse {event_name}"));
        assert_eq!(result.3, expected_code, "Event {event_name} should have code {expected_code}",);
    }
}

#[test]
fn unknown_event_names_are_refused() {
    let entry = LogEntry {
        sequence: 1,
        thread_id: 1,
        lock_id: 2,
        event: "Spawn".to_string(),
        timestamp_bits: 0,
        parent_id: None,
        woken_thread: Some(3),
    };
    assert_eq!(parse_log_entry(entry), Err(EncodeError::InvalidEventType("Spawn".to_string())));
}

#[test]
fn woken_thread_and_time_stamp_are_kept() {
    let entry = LogEntry {
        sequence: 7,
        thread_id: 4,
        lock_id: 50,
        event: "CondvarNotifyOne".to_string(),
        timestamp_bits: 2.5f64.to_bits(),
        parent_id: None,
        woken_thread: Some(3),
    };
    let event = parse_log_entry(entry).unwrap();
    assert_eq!(event, (7, 4, 50, 32, 2.5f64.to_bits(), 0, 3));
}

#[test]
fn deadlock_reports_are_compacted() {
    let info = DeadlockInfo {
        source: DeadlockSource::WaitForGraph,
        thread_cycle: vec![1, 2],
        thread_waiting_for_locks: vec![(1, 20), (2, 10)],
        lock_order_cycle: None,
        timestamp: "2024-01-01T00:00:00+00:00".to_string(),
    };
    let compact = compact_deadlock(&info);
    assert_eq!(compact.thread_cycle, vec![1u64, 2]);
    assert_eq!(compact.thread_waiting_for_locks, vec![(1u64, 20u64), (2, 10)]);
    assert_eq!(compact.timestamp, info.timestamp);
}

#[test]
fn packed_logs_are_compressed_and_url_safe() {
    let packed: Vec<u8> = (0..200u32).map(|i| (i % 7) as u8).collect();
    let encoded = compress_and_encode(&packed).expect("compression works in memory");
    assert!(!encoded.is_empty());
    assert!(encoded.len() < 4 * packed.len() / 3);
    assert!(encoded.chars().all(|c| c.is_ascii_alphanumeric() || c == '-' || c == '_' || c == '='));
    assert_eq!(compress_and_encode(&packed).unwrap(), encoded);
}

#[test]
fn delays_stay_in_bounds() {
    assert_eq!(delay_between(250, 250), 250);
    for _ in 0..50 {
        let d = delay_between(250, 2000);
        assert!((250..=2000).contains(&d));
    }
}

#[test]
fn component_tracker_joins_locks_and_sees_reverse_orders() {
    let mut tracker = ComponentTracker::new();
    assert!(!tracker.should_delay(1, 2));
    tracker.record_acquisition(1, 2);
    assert_eq!(tracker.components[&1], 0);
    assert_eq!(tracker.components[&2], 0);
    assert!(tracker.should_delay(1, 2));
    tracker.record_acquisition(3, 4);
    assert_eq!(tracker.components[&3], 2);
    assert!(!tracker.should_delay(1, 3));
    tracker.record_acquisition(5, 6);
    assert!(tracker.should_delay(6, 5));
}

#[test]
fn stress_modes_decide_delays() {
    let mut state = StressState::new();
    assert_eq!(StressMode::default(), StressMode::NoStress);
    assert!(calculate_stress_delay(StressMode::NoStress, &mut state, 1, 10, &[5], 1_000_000, 250, 2000).is_none());
    assert!(calculate_stress_delay(StressMode::RandomPreemption, &mut state, 1, 10, &[], 1_000_000, 250, 2000).is_none());
    let d = calculate_stress_delay(StressMode::RandomPreemption, &mut state, 1, 10, &[5], 1_000_000, 250, 2000)
        .expect("certain preemption");
    assert!((250..=2000).contains(&d));
    assert_eq!(state.preemption_counts[&10], 1);
    assert!(calculate_stress_delay(StressMode::RandomPreemption, &mut state, 1, 10, &[5], 0, 250, 2000).is_none());
    let first = calculate_stress_delay(StressMode::ComponentBased, &mut state, 1, 20, &[5], 0, 100, 100);
    assert_eq!(first, Some(100));
    assert_eq!(state.tracker.acquisitions, vec![(5, 20)]);
}

#[test]
fn certain_preemption_always_delays_a_lock_holder() {
    let mut state = StressState::new();
    for _ in 0..20 {
        assert_eq!(
            calculate_stress_delay(StressMode::RandomPreemption, &mut state, 1, 10, &[5], 1_000_000, 40, 40),
            Some(40)
        );
    }
    assert_eq!(state.preemption_counts.get(&10), Some(&20));
    assert!(calculate_stress_delay(StressMode::RandomPreemption, &mut state, 1, 10, &[], 1_000_000, 40, 40).is_none());
    assert!(calculate_stress_delay(StressMode::RandomPreemption, &mut state, 1, 10, &[5], 0, 40, 40).is_none());
    assert_eq!(state.preemption_counts.get(&10), Some(&20));
}

#[test]
fn the_draw_decides_a_random_preemption() {
    assert!(preemption_decision(499_999, 500_000));
    assert!(!preemption_decision(500_000, 500_000));
    let mut state = StressState::new();
    assert_eq!(preempt_on_draw(&mut state, 10, &[5], 500_000, 123, 70, 70), Some(70));
    assert_eq!(state.preemption_counts.get(&10), Some(&1));
    assert_eq!(preempt_on_draw(&mut state, 10, &[5], 500_000, 700_000, 70, 70), None);
    assert_eq!(preempt_on_draw(&mut state, 10, &[], 500_000, 0, 70, 70), None);
    assert_eq!(preempt_on_draw(&mut state, 10, &[5], 0, 0, 70, 70), None);
    assert_eq!(state.preemption_counts.get(&10), Some(&1));
}
