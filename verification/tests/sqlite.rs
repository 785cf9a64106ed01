use moe_counter_rs::db_adpater::{
    statement_done, value_read, BackendError, DBManager, KVDBClient, SqliteClient, SQLITE_LARGEST,
};

fn sqlite_shared(name: &str) -> String {
    format!("file:{}?mode=memory&cache=shared", name)
}

#[test]
fn sqlite_statements() {
    let client = SqliteClient::new(":memory:", "count").unwrap();
    assert_eq!(
        client.create_sql(),
        "CREATE TABLE IF NOT EXISTS count (\n                key TEXT NOT NULL UNIQUE,\n                value INTEGER NOT NULL\n            )"
    );
    assert_eq!(client.select_sql(), "SELECT value FROM count WHERE key = ?1");
    assert_eq!(
        client.upsert_sql(),
        "INSERT INTO count (key, value) VALUES (?1, ?2) ON CONFLICT(key) DO UPDATE SET value=excluded.value"
    );
    let other = SqliteClient::new(":memory:", "hits_2").unwrap();
    assert_eq!(other.select_sql(), "SELECT value FROM hits_2 WHERE key = ?1");
}

#[test]
fn sqlite_get_and_set() {
    let mut client = SqliteClient::new(":memory:", "count").unwrap();
    assert!(client.init().is_ok());
    // init is safe to repeat
    assert!(client.init().is_ok());
    assert_eq!(client.get("k").unwrap(), None);
    assert!(client.set("k", 7).is_ok());
    assert_eq!(client.get("k").unwrap(), Some(7));
    assert!(client.set("k", 3).is_ok());
    assert_eq!(client.get("k").unwrap(), Some(3));
    assert!(client.set("other", 0).is_ok());
    assert_eq!(client.get("other").unwrap(), Some(0));
    assert_eq!(client.get("k").unwrap(), Some(3));
}

#[test]
fn sqlite_without_table_fails_softly() {
    let mut client = SqliteClient::new(":memory:", "count").unwrap();
    // no init: the table is missing, which is no absent key
    match client.get("k") {
        Err(BackendError::Rejected { reason }) => assert!(reason.contains("count")),
        other => panic!("expected a rejection, got {:?}", other),
    }
    match client.set("k", 1) {
        Err(BackendError::Rejected { reason }) => assert!(reason.contains("count")),
        other => panic!("expected a rejection, got {:?}", other),
    }
}

#[test]
fn sqlite_refuses_values_above_its_range() {
    let mut client = SqliteClient::new(":memory:", "count").unwrap();
    assert!(client.init().is_ok());
    assert!(client.set("top", i64::MAX as u64).is_ok());
    assert_eq!(client.get("top").unwrap(), Some(i64::MAX as u64));
    assert!(matches!(
        client.set("over", i64::MAX as u64 + 1),
        Err(BackendError::Rejected { .. })
    ));
    assert_eq!(client.get("over").unwrap(), None);
}

#[test]
fn sqlite_values_outside_the_range_are_not_read() {
    assert_eq!(SQLITE_LARGEST, i64::MAX as u64);
    let path = sqlite_shared("range");
    let keeper = rusqlite::Connection::open(&path).unwrap();
    let mut client = SqliteClient::new(&path, "count").unwrap();
    assert!(client.init().is_ok());
    keeper.execute("INSERT INTO count (key, value) VALUES ('below', -5)", ()).unwrap();
    keeper.execute("INSERT INTO count (key, value) VALUES ('top', 9223372036854775807)", ()).unwrap();
    assert!(matches!(client.get("below"), Err(BackendError::Rejected { .. })));
    assert_eq!(client.get("top").unwrap(), Some(SQLITE_LARGEST));
    assert!(client.set("top", SQLITE_LARGEST + 1).is_err());
    assert!(client.set("top", u64::MAX).is_err());
    assert_eq!(client.get("top").unwrap(), Some(SQLITE_LARGEST));
    // a count whose row cannot be read starts from zero, and the failure is handed back
    let mut store = DBManager::new(client);
    let counted = store.count_report("below");
    assert_eq!(counted.count, 1);
    assert!(matches!(counted.failure, Some(BackendError::Rejected { .. })));
    let counted = store.count_report("never written");
    assert_eq!(counted.count, 1);
    assert!(counted.failure.is_none());
}

#[test]
fn sqlite_open_failure_is_reported() {
    match SqliteClient::new("/no/such/directory/anywhere/data.db", "count") {
        Err(BackendError::Unavailable { reason }) => assert!(!reason.is_empty()),
        Err(other) => panic!("expected the table to be unavailable, got {:?}", other),
        Ok(_) => panic!("the database cannot have been opened"),
    }
}

#[test]
fn sqlite_bad_table_name_fails_init() {
    let client = SqliteClient::new(":memory:", "not a name (").unwrap();
    assert!(matches!(client.init(), Err(BackendError::Rejected { .. })));
}

#[test]
fn sqlite_store_scenario() {
    let path = sqlite_shared("scenario");
    // keeps the shared database alive across the restart
    let keeper = rusqlite::Connection::open(&path).unwrap();
    let mut store = DBManager::new(SqliteClient::new(&path, "count").unwrap());
    assert!(store.init().is_ok());
    assert_eq!(store.count("abc"), Some(1));
    assert_eq!(store.count("abc"), Some(2));
    assert!(store.sync_to_backend().is_ok());
    drop(store);
    let mut store = DBManager::new(SqliteClient::new(&path, "count").unwrap());
    assert!(store.init().is_ok());
    assert_eq!(store.count("abc"), Some(3));
    assert_eq!(store.count("fresh"), Some(1));
    drop(store);
    let stored: u64 = keeper
        .query_row("SELECT value FROM count WHERE key = 'abc'", (), |row| row.get(0))
        .unwrap();
    assert_eq!(stored, 2);
}

#[test]
fn sqlite_flush_writes_every_entry_it_can() {
    let path = sqlite_shared("partial");
    let keeper = rusqlite::Connection::open(&path).unwrap();
    let mut store = DBManager::new(SqliteClient::new(&path, "count").unwrap());
    assert!(store.init().is_ok());
    store.count("first");
    assert_eq!(store.count_loaded("too-big", Some(u64::MAX - 1)), u64::MAX);
    store.count("last");
    store.count("last");
    let failures = store.sync_report();
    assert_eq!(failures.len(), 1);
    assert_eq!(failures[0].0, "too-big");
    assert!(store.sync_to_backend().is_ok());
    let client = store.into_backend();
    assert_eq!(client.get("first").unwrap(), Some(1));
    assert_eq!(client.get("too-big").unwrap(), None);
    assert_eq!(client.get("last").unwrap(), Some(2));
    let rows: u64 = keeper.query_row("SELECT COUNT(*) FROM count", (), |row| row.get(0)).unwrap();
    assert_eq!(rows, 2);
}

#[test]
fn sqlite_flush_twice_and_shutdown() {
    let path = sqlite_shared("twice");
    let keeper = rusqlite::Connection::open(&path).unwrap();
    let mut store = DBManager::new(SqliteClient::new(&path, "hits").unwrap());
    assert!(store.init().is_ok());
    store.count("a");
    store.count("b");
    store.count("b");
    assert!(store.sync_to_backend().is_ok());
    assert!(store.sync_to_backend().is_ok());
    assert_eq!(store.backend_ref().get("a").unwrap(), Some(1));
    assert_eq!(store.backend_ref().get("b").unwrap(), Some(2));
    store.count("a");
    let mut scheduler = moe_counter_rs::scheduler::SyncScheduler::new();
    scheduler.handle(&mut store, moe_counter_rs::scheduler::SchedulerEvent::ShutdownRequested);
    drop(store);
    let stored: u64 =
        keeper.query_row("SELECT value FROM hits WHERE key = 'a'", (), |row| row.get(0)).unwrap();
    assert_eq!(stored, 2);
}

#[test]
fn sqlite_keys_are_bound_not_spliced() {
    let mut client = SqliteClient::new(":memory:", "count").unwrap();
    assert!(client.init().is_ok());
    let odd = "x'; DROP TABLE count; --";
    assert!(client.set(odd, 5).is_ok());
    assert_eq!(client.get(odd).unwrap(), Some(5));
    assert!(client.set("plain", 1).is_ok());
    assert_eq!(client.get("plain").unwrap(), Some(1));
}

#[test]
fn outcomes_of_statements_and_reads() {
    assert_eq!(value_read(Ok(Some(12))).unwrap(), Some(12));
    assert_eq!(value_read(Ok(None)).unwrap(), None);
    match value_read(Err(rusqlite::Error::InvalidQuery)) {
        Err(BackendError::Rejected { reason }) => assert!(!reason.is_empty()),
        other => panic!("expected a rejection, got {:?}", other),
    }
    assert!(statement_done(Ok(0)).is_ok());
    assert!(statement_done(Ok(3)).is_ok());
    match statement_done(Err(rusqlite::Error::InvalidQuery)) {
        Err(BackendError::Rejected { reason }) => assert!(!reason.is_empty()),
        other => panic!("expected a rejection, got {:?}", other),
    }
}
