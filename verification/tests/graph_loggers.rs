use deloxide::graph_logger::{self as simple, GraphLogger as SimpleGraphLogger};
use deloxide::logger::graph_logger::GraphLogger;
use deloxide::types::{Events, LockEvent};

#[test]
fn test_lock_creation_and_destruction() {
    let mut logger = GraphLogger::new();

    logger.update_lock_create(10, 5);

    assert!(logger.locks.contains(&10));
    assert!(logger.was_lock_created_by(10, 5));

    let state = logger.get_current_state();
    assert!(state.locks.contains(&10));

    logger.update_lock_destroy(10);

    assert!(!logger.locks.contains(&10));
}

#[test]
fn test_thread_parent_relationship() {
    let mut logger = GraphLogger::new();

    logger.update_thread_spawn(5, None);

    logger.update_thread_spawn(10, Some(5));

    assert_eq!(logger.get_thread_parent(10), Some(5));

    logger.update_thread_exit(5);

    assert_eq!(logger.get_thread_parent(10), None);
}

#[test]
fn test_thread_exit_cleans_up_created_locks() {
    let mut logger = GraphLogger::new();

    logger.update_thread_spawn(1, None);

    logger.update_lock_create(10, 1);

    assert!(logger.threads.contains(&1));
    assert!(logger.locks.contains(&10));
    assert!(logger.was_lock_created_by(10, 1));

    logger.update_thread_exit(1);

    assert!(!logger.threads.contains(&1));
    assert!(!logger.locks.contains(&10));
}

#[test]
fn test_thread_exit_releases_non_created_locks() {
    let mut logger = GraphLogger::new();

    logger.update_thread_spawn(1, None);
    logger.update_thread_spawn(2, None);

    logger.update_lock_create(10, 1);

    logger.update_lock_event(2, 10, Events::MutexAcquired);

    assert_eq!(logger.mutex_owners.get(&10), Some(&2));
    assert!(logger.was_lock_created_by(10, 1));

    logger.update_thread_exit(2);

    assert!(!logger.threads.contains(&2));
    assert!(logger.locks.contains(&10));
    assert!(logger.mutex_owners.get(&10).is_none());

    logger.update_thread_exit(1);

    assert!(!logger.threads.contains(&1));
    assert!(!logger.locks.contains(&10));
}

#[test]
fn test_multiple_locks_with_mixed_ownership() {
    let mut logger = GraphLogger::new();

    logger.update_thread_spawn(1, None);
    logger.update_thread_spawn(2, None);

    logger.update_lock_create(10, 1);
    logger.update_lock_create(11, 1);

    logger.update_lock_create(20, 2);

    logger.update_lock_event(1, 20, Events::MutexAcquired);

    logger.update_lock_event(2, 10, Events::MutexAcquired);

    logger.update_thread_exit(1);

    assert!(!logger.locks.contains(&10));
    assert!(!logger.locks.contains(&11));

    assert!(logger.locks.contains(&20));
    assert!(logger.mutex_owners.get(&20).is_none());

    logger.update_thread_exit(2);

    assert!(!logger.locks.contains(&20));
}

#[test]
fn test_attempt_and_acquisition_tracking() {
    let mut logger = GraphLogger::new();

    logger.update_thread_spawn(1, None);
    logger.update_lock_create(10, 1);

    logger.update_lock_event(1, 10, Events::MutexAttempt);

    assert!(logger.thread_attempts.get(&1).unwrap().contains(&10));

    logger.update_lock_event(1, 10, Events::MutexAcquired);

    assert!(logger.mutex_owners.get(&10) == Some(&1));
    assert!(logger.thread_attempts.get(&1).is_none());

    logger.update_lock_event(1, 10, Events::MutexReleased);

    assert!(logger.mutex_owners.get(&10).is_none());
}

#[test]
fn test_graph_state_generation() {
    let mut logger = GraphLogger::new();

    logger.update_thread_spawn(1, None);
    logger.update_thread_spawn(2, Some(1));
    logger.update_lock_create(10, 1);
    logger.update_lock_create(20, 2);

    logger.update_lock_event(1, 20, Events::MutexAttempt);
    logger.update_lock_event(2, 10, Events::MutexAcquired);

    let state = logger.get_current_state();

    assert_eq!(state.threads.len(), 2);
    assert_eq!(state.locks.len(), 2);
    assert_eq!(state.links.len(), 2);

    let attempt_link = state.links.iter().find(|l| l.link_type == "Attempt").unwrap();
    assert_eq!(attempt_link.source, 1);
    assert_eq!(attempt_link.target, 20);

    let acquired_link = state.links.iter().find(|l| l.link_type == "Acquired").unwrap();
    assert_eq!(acquired_link.source, 2);
    assert_eq!(acquired_link.target, 10);
}

#[test]
fn read_write_and_wait_links_are_listed_in_order() {
    let mut logger = GraphLogger::new();
    logger.update_lock_event(1, 10, Events::RwReadAcquired);
    logger.update_lock_event(2, 11, Events::RwWriteAcquired);
    logger.update_lock_event(3, 50, Events::CondvarWaitBegin);
    let kinds: Vec<String> = logger.get_current_state().links.iter().map(|l| l.link_type.clone()).collect();
    assert_eq!(kinds, vec!["Read".to_string(), "Write".to_string(), "Wait".to_string()]);
    logger.update_lock_event(1, 10, Events::RwReadReleased);
    logger.update_lock_event(2, 11, Events::RwWriteReleased);
    logger.update_lock_event(3, 50, Events::CondvarWaitEnd);
    assert!(logger.get_current_state().links.is_empty());
}

#[test]
fn simple_graph_tracks_owners_and_attempts() {
    let mut logger = SimpleGraphLogger::new();
    simple::update_graph(&mut logger, 1, 10, LockEvent::Attempt);
    simple::update_graph(&mut logger, 2, 10, LockEvent::Acquired);
    let state = simple::get_current_graph_state(&logger);
    assert_eq!(state.links.len(), 2);
    assert_eq!(state.links[0].link_type, "Acquired");
    assert_eq!(state.links[0].source, 2);
    assert_eq!(state.links[1].link_type, "Attempt");
    assert_eq!(state.links[1].source, 1);
    simple::update_graph(&mut logger, 1, 10, LockEvent::Released);
    assert_eq!(logger.lock_owners.get(&10), Some(&2));
    simple::update_graph(&mut logger, 2, 10, LockEvent::Released);
    assert!(logger.lock_owners.is_empty());
    assert_eq!(logger.get_current_state().threads.len(), 2);
}

#[test]
fn attempt_acquire_release_leaves_no_trace() {
    let mut logger = GraphLogger::new();
    logger.update_lock_event(2, 10, Events::MutexAcquired);
    logger.update_lock_event(1, 20, Events::MutexAttempt);

    logger.update_lock_event(3, 10, Events::MutexAttempt);
    logger.update_lock_event(3, 10, Events::MutexAcquired);
    logger.update_lock_event(3, 10, Events::MutexReleased);

    assert!(logger.mutex_owners.get(&10).is_none());
    assert!(logger.thread_attempts.get(&3).is_none());
    assert!(logger.thread_attempts.get(&1).unwrap().contains(&20));
}

#[test]
fn thread_exit_releases_reads_writes_and_waits() {
    let mut logger = GraphLogger::new();
    logger.update_lock_create(10, 1);
    logger.update_lock_create(11, 1);
    logger.update_lock_create(12, 3);
    logger.update_lock_event(2, 10, Events::RwWriteAcquired);
    logger.update_lock_event(2, 11, Events::RwReadAcquired);
    logger.update_lock_event(2, 12, Events::CondvarWaitBegin);
    logger.update_lock_event(4, 12, Events::RwReadAcquired);
    logger.update_thread_exit(2);
    let state = logger.get_current_state();
    assert!(state.links.iter().all(|l| l.source != 2));
    assert!(state.links.iter().any(|l| l.source == 4 && l.target == 12 && l.link_type == "Read"));
}

#[test]
fn thread_exit_forgets_links_to_the_locks_it_created() {
    let mut logger = GraphLogger::new();
    logger.update_lock_create(10, 1);
    logger.update_lock_event(2, 10, Events::RwReadAcquired);
    logger.update_lock_event(3, 10, Events::CondvarWaitBegin);
    logger.update_thread_exit(1);
    let state = logger.get_current_state();
    assert!(state.links.iter().all(|l| l.target != 10));
    assert!(!state.locks.contains(&10));
}

#[test]
fn destroying_a_lock_removes_every_link_to_it() {
    let mut logger = GraphLogger::new();
    logger.update_lock_event(1, 10, Events::RwReadAcquired);
    logger.update_lock_event(2, 10, Events::RwWriteAcquired);
    logger.update_lock_event(3, 10, Events::CondvarWaitBegin);
    logger.update_lock_event(4, 10, Events::MutexAttempt);
    logger.update_lock_event(1, 20, Events::RwReadAcquired);
    logger.update_lock_destroy(10);
    let state = logger.get_current_state();
    assert!(!state.locks.contains(&10));
    assert!(state.links.iter().all(|l| l.target != 10));
    assert!(state.links.iter().any(|l| l.source == 1 && l.target == 20));
}
