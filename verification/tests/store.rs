use moe_counter_rs::cache::CounterCache;
use moe_counter_rs::db_adpater::{BackendError, DBManager, KVDBClient};
use moe_counter_rs::memory::MemoryBackend;
use moe_counter_rs::scheduler::{
    SchedulerAction, SchedulerEvent, SchedulerState, SyncScheduler, SYNC_INTERVAL_SECS,
};

#[test]
fn unseen_key_counts_one() {
    let mut store = DBManager::new(MemoryBackend::new());
    assert_eq!(store.count("never-seen"), Some(1));
    assert_eq!(store.count("another"), Some(1));
}

#[test]
fn first_count_follows_the_stored_value() {
    let mut backend = MemoryBackend::new();
    assert!(backend.set("page", 41).is_ok());
    let mut store = DBManager::new(backend);
    assert_eq!(store.count("page"), Some(42));
    assert_eq!(store.count("page"), Some(43));
    assert_eq!(store.count("page"), Some(44));
}

#[test]
fn later_counts_do_not_read_the_table() {
    let mut store = DBManager::new(MemoryBackend::new());
    assert_eq!(store.count("page"), Some(1));
    // a row written behind the store's back is not seen once the key is cached
    let mut backend = store.into_backend();
    assert!(backend.set("page", 500).is_ok());
    let mut store = DBManager::new(backend);
    assert_eq!(store.count("page"), Some(501));
    assert!(store.check_in_cache("page"));
    assert_eq!(store.count("page"), Some(502));
}

#[test]
fn many_requests_are_all_counted() {
    let mut store = DBManager::new(MemoryBackend::new());
    let mut last = 0;
    for expected in 1..=1000u64 {
        last = store.count("busy").unwrap();
        assert_eq!(last, expected);
    }
    assert_eq!(last, 1000);
    assert!(store.sync_to_backend().is_ok());
    assert_eq!(store.into_backend().stored("busy"), Some(1000));
}

#[test]
fn keys_are_counted_apart() {
    let mut store = DBManager::new(MemoryBackend::new());
    assert_eq!(store.count("a"), Some(1));
    assert_eq!(store.count("b"), Some(1));
    assert_eq!(store.count("a"), Some(2));
    assert_eq!(store.count("a"), Some(3));
    assert_eq!(store.count("b"), Some(2));
}

#[test]
fn flush_twice_changes_nothing() {
    let mut store = DBManager::new(MemoryBackend::new());
    store.count("a");
    store.count("a");
    store.count("b");
    assert!(store.sync_to_backend().is_ok());
    let first = (
        store.backend_ref().stored("a"),
        store.backend_ref().stored("b"),
        store.backend_ref().len(),
    );
    assert_eq!(first, (Some(2), Some(1), 2));
    assert!(store.sync_to_backend().is_ok());
    let second = (
        store.backend_ref().stored("a"),
        store.backend_ref().stored("b"),
        store.backend_ref().len(),
    );
    assert_eq!(first, second);
}

#[test]
fn flush_keeps_rows_of_other_keys() {
    let mut backend = MemoryBackend::new();
    assert!(backend.set("old", 7).is_ok());
    let mut store = DBManager::new(backend);
    store.count("new");
    assert!(store.sync_to_backend().is_ok());
    let backend = store.into_backend();
    assert_eq!(backend.stored("old"), Some(7));
    assert_eq!(backend.stored("new"), Some(1));
    assert_eq!(backend.len(), 2);
}

#[test]
fn restart_continues_from_the_flushed_value() {
    let mut store = DBManager::new(MemoryBackend::new());
    for _ in 0..5 {
        store.count("k");
    }
    assert!(store.sync_to_backend().is_ok());
    let mut restarted = DBManager::new(store.into_backend());
    assert!(!restarted.check_in_cache("k"));
    assert_eq!(restarted.count("k"), Some(6));
}

#[test]
fn counts_after_the_last_flush_are_lost_on_restart() {
    let mut store = DBManager::new(MemoryBackend::new());
    store.count("k");
    store.count("k");
    assert!(store.sync_to_backend().is_ok());
    store.count("k");
    let mut restarted = DBManager::new(store.into_backend());
    assert_eq!(restarted.count("k"), Some(3));
}

#[test]
fn scenario_count_flush_restart() {
    let mut store = DBManager::new(MemoryBackend::new());
    assert!(store.init().is_ok());
    assert_eq!(store.count("abc"), Some(1));
    assert_eq!(store.count("abc"), Some(2));
    assert!(store.sync_to_backend().is_ok());
    let mut store = DBManager::new(store.into_backend());
    assert!(store.init().is_ok());
    assert_eq!(store.count("abc"), Some(3));
}

#[test]
fn shutdown_flushes_every_count() {
    let mut store = DBManager::new(MemoryBackend::new());
    let mut scheduler = SyncScheduler::new();
    store.count("a");
    store.count("b");
    store.count("b");
    store.count("c");
    assert_eq!(store.backend_ref().len(), 0);
    let done = scheduler.handle(&mut store, SchedulerEvent::ShutdownRequested);
    assert_eq!(done.action, SchedulerAction::CancelThenFlush);
    assert!(done.failures.is_empty());
    assert!(scheduler.should_exit());
    let backend = store.into_backend();
    assert_eq!(backend.stored("a"), Some(1));
    assert_eq!(backend.stored("b"), Some(2));
    assert_eq!(backend.stored("c"), Some(1));
}

#[test]
fn timer_tick_flushes_and_keeps_running() {
    let mut store = DBManager::new(MemoryBackend::new());
    let mut scheduler = SyncScheduler::new();
    store.count("a");
    let done = scheduler.handle(&mut store, SchedulerEvent::TimerFired);
    assert_eq!(done.action, SchedulerAction::Flush);
    assert_eq!(scheduler.current_state(), SchedulerState::Running);
    assert_eq!(store.backend_ref().stored("a"), Some(1));
    store.count("a");
    scheduler.handle(&mut store, SchedulerEvent::TimerFired);
    assert_eq!(store.backend_ref().stored("a"), Some(2));
}

#[test]
fn stopped_scheduler_does_not_flush() {
    let mut store = DBManager::new(MemoryBackend::new());
    let mut scheduler = SyncScheduler::new();
    scheduler.handle(&mut store, SchedulerEvent::ShutdownRequested);
    store.count("late");
    assert_eq!(scheduler.handle(&mut store, SchedulerEvent::TimerFired).action, SchedulerAction::Idle);
    assert_eq!(
        scheduler.handle(&mut store, SchedulerEvent::ShutdownRequested).action,
        SchedulerAction::Idle
    );
    assert_eq!(store.backend_ref().stored("late"), None);
    assert_eq!(scheduler.current_state(), SchedulerState::Stopped);
}

#[test]
fn scheduler_steps() {
    let mut scheduler = SyncScheduler::new();
    assert_eq!(scheduler.interval_secs(), 900);
    assert_eq!(SYNC_INTERVAL_SECS, 15 * 60);
    assert!(!scheduler.should_exit());
    assert_eq!(scheduler.step(SchedulerEvent::TimerFired), SchedulerAction::Flush);
    assert_eq!(scheduler.current_state(), SchedulerState::Running);
    assert_eq!(scheduler.step(SchedulerEvent::ShutdownRequested), SchedulerAction::CancelThenFlush);
    assert_eq!(scheduler.current_state(), SchedulerState::Stopped);
    assert_eq!(scheduler.step(SchedulerEvent::TimerFired), SchedulerAction::Idle);
    assert_eq!(scheduler.step(SchedulerEvent::ShutdownRequested), SchedulerAction::Idle);
    assert_eq!(SyncScheduler::with_interval(5).interval_secs(), 5);
}

#[test]
fn count_stays_at_the_largest_number() {
    let mut store = DBManager::new(MemoryBackend::new());
    let mut backend = MemoryBackend::new();
    assert!(backend.set("full", u64::MAX - 1).is_ok());
    let mut store = DBManager::new(backend);
    assert_eq!(store.count("full"), Some(u64::MAX));
    assert_eq!(store.count("full"), Some(u64::MAX));
    assert_eq!(store.count("full"), Some(u64::MAX));
}

#[test]
fn count_loaded_prefers_the_cache() {
    let mut store = DBManager::new(MemoryBackend::new());
    assert_eq!(store.count_loaded("k", Some(10)), 11);
    // the key is cached now: what the table says is not looked at
    assert_eq!(store.count_loaded("k", Some(100)), 12);
    assert_eq!(store.count_loaded("k", None), 13);
    assert_eq!(store.count_loaded("fresh", None), 1);
    assert_eq!(store.count_loaded("top", Some(u64::MAX)), u64::MAX);
}

#[test]
fn unreachable_table_counts_from_zero() {
    let mut backend = MemoryBackend::new();
    assert!(backend.set("k", 9).is_ok());
    backend.set_reachable(false);
    assert!(matches!(backend.get("k"), Err(BackendError::Unavailable { .. })));
    assert_eq!(backend.stored("k"), Some(9));
    let mut store = DBManager::new(backend);
    assert!(matches!(store.init(), Err(BackendError::Unavailable { .. })));
    // the read fails: the key counts as one without a row, and the failure is handed back
    let counted = store.count_report("k");
    assert_eq!(counted.count, 1);
    assert!(matches!(counted.failure, Some(BackendError::Unavailable { .. })));
    // the key is in memory now: the table is not read again
    let counted = store.count_report("k");
    assert_eq!(counted.count, 2);
    assert!(counted.failure.is_none());
    assert_eq!(store.count("other"), Some(1));
    // nothing is written while the table is out of reach, and the flush still succeeds
    assert!(store.sync_to_backend().is_ok());
    assert_eq!(store.backend_ref().stored("k"), Some(9));
}

#[test]
fn refused_entry_does_not_stop_the_flush() {
    let mut store = DBManager::new(MemoryBackend::with_limit(2));
    store.count("small");
    for _ in 0..3 {
        store.count("large");
    }
    store.count("tail");
    store.count("tail");
    assert!(store.sync_to_backend().is_ok());
    assert_eq!(store.backend_ref().stored("small"), Some(1));
    assert_eq!(store.backend_ref().stored("large"), None);
    assert_eq!(store.backend_ref().stored("tail"), Some(2));
    let failures = store.sync_report();
    assert_eq!(failures.len(), 1);
    assert_eq!(failures[0].0, "large");
    assert!(matches!(failures[0].1, BackendError::Rejected { .. }));
}

#[test]
fn flush_reports_every_failed_write() {
    let mut store = DBManager::new(MemoryBackend::new());
    assert!(store.sync_report().is_empty());
    store.count("a");
    store.count("b");
    assert!(store.sync_report().is_empty());
    let mut backend = store.into_backend();
    backend.set_reachable(false);
    let mut store = DBManager::new(backend);
    store.count("b");
    store.count("c");
    let failures = store.sync_report();
    let keys: Vec<&str> = failures.iter().map(|failure| failure.0.as_str()).collect();
    assert_eq!(keys, vec!["b", "c"]);
    assert!(failures.iter().all(|failure| matches!(failure.1, BackendError::Unavailable { .. })));
    let mut scheduler = SyncScheduler::new();
    let done = scheduler.handle(&mut store, SchedulerEvent::ShutdownRequested);
    assert_eq!(done.failures.len(), 2);
    assert_eq!(store.backend_ref().stored("a"), Some(1));
    assert_eq!(store.backend_ref().stored("b"), Some(1));
    assert_eq!(store.backend_ref().stored("c"), None);
}

#[test]
fn memory_backend_reports_why_it_failed() {
    let mut backend = MemoryBackend::with_limit(5);
    assert!(backend.init().is_ok());
    assert!(backend.set("k", 5).is_ok());
    match backend.set("k", 6) {
        Err(error @ BackendError::Rejected { .. }) => assert!(!error.message().is_empty()),
        other => panic!("expected a rejection, got {:?}", other),
    }
    assert_eq!(backend.get("k").unwrap(), Some(5));
    backend.set_reachable(false);
    assert!(matches!(backend.set("k", 1), Err(BackendError::Unavailable { .. })));
    assert!(matches!(backend.init(), Err(BackendError::Unavailable { .. })));
    backend.set_reachable(true);
    assert_eq!(backend.get("k").unwrap(), Some(5));
    assert_eq!(backend.get("absent").unwrap(), None);
}

#[test]
fn count_report_tells_a_failed_read_from_an_absent_key() {
    let mut backend = MemoryBackend::new();
    assert!(backend.set("stored", 4).is_ok());
    let mut store = DBManager::new(backend);
    let counted = store.count_report("absent");
    assert_eq!(counted.count, 1);
    assert!(counted.failure.is_none());
    let counted = store.count_report("stored");
    assert_eq!(counted.count, 5);
    assert!(counted.failure.is_none());
    let mut backend = store.into_backend();
    backend.set_reachable(false);
    let mut store = DBManager::new(backend);
    let counted = store.count_report("stored");
    assert_eq!(counted.count, 1);
    assert!(counted.failure.is_some());
}

#[test]
fn upsert_overwrites() {
    let mut backend = MemoryBackend::new();
    assert!(backend.set("k", 10).is_ok());
    assert!(backend.set("k", 3).is_ok());
    assert_eq!(backend.get("k").unwrap(), Some(3));
    assert_eq!(backend.len(), 1);
}

#[test]
fn cache_operations() {
    let mut cache = CounterCache::new();
    assert!(!cache.contains("a"));
    assert_eq!(cache.get("a"), None);
    cache.load("a", 4);
    assert!(cache.contains("a"));
    assert_eq!(cache.increment_existing("a"), 5);
    assert_eq!(cache.get("a"), Some(5));
    cache.load("b", 0);
    cache.load("a", 100);
    assert_eq!(cache.increment_existing("b"), 1);
    assert_eq!(
        cache.snapshot(),
        vec![("a".to_string(), 100), ("b".to_string(), 1)]
    );
    cache.load("max", u64::MAX);
    assert_eq!(cache.increment_existing("max"), u64::MAX);
}

#[test]
fn snapshot_is_in_order_of_arrival() {
    let mut cache = CounterCache::new();
    for key in ["zeta", "alpha", "mid", "alpha", "zeta", "new"] {
        if cache.contains(key) {
            cache.increment_existing(key);
        } else {
            cache.load(key, 1);
        }
    }
    let snapshot = cache.snapshot();
    let keys: Vec<&str> = snapshot.iter().map(|entry| entry.0.as_str()).collect();
    assert_eq!(keys, vec!["zeta", "alpha", "mid", "new"]);
    let values: Vec<u64> = snapshot.iter().map(|entry| entry.1).collect();
    assert_eq!(values, vec![2, 2, 1, 1]);
}

#[test]
fn empty_key_and_unicode_keys() {
    let mut store = DBManager::new(MemoryBackend::new());
    assert_eq!(store.count("ключ/页"), Some(1));
    assert_eq!(store.count("ключ/页"), Some(2));
    assert_eq!(store.count("ключ"), Some(1));
    assert!(store.sync_to_backend().is_ok());
    assert_eq!(store.backend_ref().stored("ключ/页"), Some(2));
}
