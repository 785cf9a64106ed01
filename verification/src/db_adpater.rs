//! The counter store: counts are served from memory, read from the durable
//! table the first time a key is asked for, and written back as a whole.

use crate::cache::{next_count, CounterCache};
use crate::table::{
    cached, counted, entries_of, flushed_known, lemma_written_accepts, lemma_written_is_flushed, refused,
    upsert_known, written_known, TableModel,
};
use vstd::prelude::*;

verus! {

/// Why a durable table did not do what it was asked.
#[derive(Debug)]
pub enum BackendError {
    /// The table could not be opened or reached.
    Unavailable { reason: String },
    /// The table refused the statement or the value.
    Rejected { reason: String },
}

impl BackendError {
    /// The reason in words.
    pub fn message(&self) -> (text: &String)
        ensures
            text == match *self {
                BackendError::Unavailable { reason } => reason,
                BackendError::Rejected { reason } => reason,
            },
    {
        match self {
            BackendError::Unavailable { reason } => reason,
            BackendError::Rejected { reason } => reason,
        }
    }
}

/// A durable table from key to count with point reads and upserts.
pub trait KVDBClient {
    /// What is known of the table. A table that lives outside the process
    /// and can change behind its client has no model.
    spec fn model(&self) -> Option<TableModel>;

    /// Makes sure that the table exists. Safe to call at every start.
    fn init(&self) -> (outcome: Result<(), BackendError>)
        ensures
            self.model() matches Some(table) ==> (outcome is Ok <==> table.reachable),
    ;

    /// The stored value of `key`, or nothing where the key was never
    /// written. A read that fails says so.
    fn get(&self, key: &str) -> (value: Result<Option<u64>, BackendError>)
        ensures
            self.model() matches Some(table) ==> (value is Ok <==> table.reachable),
            self.model() matches Some(table) ==> (value matches Ok(found) ==> found == table.lookup(
                key@,
            )),
    ;

    /// Stores `value` under `key`, whether or not the key had a value.
    fn set(&mut self, key: &str, value: u64) -> (outcome: Result<(), BackendError>)
        ensures
            final(self).model() == upsert_known(old(self).model(), key@, value),
            old(self).model() matches Some(table) ==> (outcome is Ok <==> table.accepts(value)),
    ;
}

/// A connection to an SQLite database, as `rusqlite` holds it.
#[verifier::external_type_specification]
#[verifier::external_body]
pub struct ExConnection(rusqlite::Connection);

/// What `rusqlite` reports when a call fails.
#[verifier::external_type_specification]
#[verifier::external_body]
pub struct ExSqliteError(rusqlite::Error);

/// The statement that creates the table `table` unless it is there.
pub open spec fn create_statement(table: Seq<char>) -> Seq<char> {
    "CREATE TABLE IF NOT EXISTS "@ + table
        + " (\n                key TEXT NOT NULL UNIQUE,\n                value INTEGER NOT NULL\n            )"@
}

/// The statement that reads the value of the key bound to `?1`.
pub open spec fn select_statement(table: Seq<char>) -> Seq<char> {
    "SELECT value FROM "@ + table + " WHERE key = ?1"@
}

/// The statement that stores the value bound to `?2` under the key bound to
/// `?1`, over any value that the key had.
pub open spec fn upsert_statement(table: Seq<char>) -> Seq<char> {
    "INSERT INTO "@ + table
        + " (key, value) VALUES (?1, ?2) ON CONFLICT(key) DO UPDATE SET value=excluded.value"@
}

/// `head`, `table` and `tail` in one string.
fn statement(head: &str, table: &str, tail: &str) -> (sql: String)
    ensures
        sql@ == head@ + table@ + tail@,
{
    let mut sql: String = head.to_owned();
    sql.append(table);
    sql.append(tail);
    sql
}

/// `rusqlite::Connection::open`: opens the database file at `path`, creating
/// it where there is none. Nothing is claimed of the outcome.
#[verifier::external_body]
fn open_connection(path: &str) -> (outcome: Result<rusqlite::Connection, rusqlite::Error>) {
    rusqlite::Connection::open(path)
}

/// `rusqlite::Connection::execute` without parameters: runs the one
/// statement `sql`. Nothing is claimed of the outcome.
#[verifier::external_body]
fn execute_plain(connection: &rusqlite::Connection, sql: &str) -> (outcome: Result<
    usize,
    rusqlite::Error,
>) {
    connection.execute(sql, ())
}

/// `rusqlite::Connection::execute` with `key` bound to `?1` and `value` to
/// `?2`. SQLite holds signed 64-bit integers: `rusqlite` refuses to bind an
/// unsigned value above the largest of them, so the call fails for such a
/// value. Nothing else is claimed of the outcome.
#[verifier::external_body]
fn execute_with_entry(connection: &rusqlite::Connection, sql: &str, key: &str, value: u64) -> (outcome:
    Result<usize, rusqlite::Error>)
    ensures
        value > i64::MAX ==> outcome is Err,
{
    connection.execute(sql, (key, value))
}

/// `rusqlite::Connection::query_row` with `key` bound to `?1`, then
/// `rusqlite::OptionalExtension::optional`: the first column of the first
/// row that `sql` selects, read as an unsigned number, and nothing where it
/// selects no row. `rusqlite` reads a signed 64-bit integer and fails where
/// it is negative, so a value that is read is at most the largest signed
/// one. Nothing else is claimed of the outcome.
#[verifier::external_body]
fn query_first_value(connection: &rusqlite::Connection, sql: &str, key: &str) -> (outcome: Result<
    Option<u64>,
    rusqlite::Error,
>)
    ensures
        outcome matches Ok(Some(found)) ==> found <= i64::MAX,
{
    rusqlite::OptionalExtension::optional(connection.query_row(sql, (key,), |row| row.get(0)))
}

/// The text that `rusqlite::Error` displays. Nothing is claimed of it.
#[verifier::external_body]
fn error_text(error: &rusqlite::Error) -> (text: String) {
    error.to_string()
}

/// What a read returns for the outcome of its query: the value that was
/// found or that there is no row, and a rejection where the query failed.
pub fn value_read(outcome: Result<Option<u64>, rusqlite::Error>) -> (value: Result<
    Option<u64>,
    BackendError,
>)
    ensures
        match outcome {
            Ok(found) => value == Ok::<Option<u64>, BackendError>(found),
            Err(_) => value matches Err(error) && error is Rejected,
        },
{
    match outcome {
        Ok(found) => Ok(found),
        Err(error) => Err(BackendError::Rejected { reason: error_text(&error) }),
    }
}

/// What a statement returns for the outcome of its execution: success
/// whatever the number of rows it changed, and a rejection where it failed.
pub fn statement_done(outcome: Result<usize, rusqlite::Error>) -> (done: Result<(), BackendError>)
    ensures
        done is Ok <==> outcome is Ok,
        done is Err ==> done->Err_0 is Rejected,
{
    match outcome {
        Ok(_) => Ok(()),
        Err(error) => Err(BackendError::Rejected { reason: error_text(&error) }),
    }
}

/// The largest count that an SQLite table holds: its integers are signed.
pub const SQLITE_LARGEST: u64 = 0x7fff_ffff_ffff_ffff;

/// A table of counts in an SQLite database.
pub struct SqliteClient {
    table_name: String,
    connection: rusqlite::Connection,
}

impl SqliteClient {
    /// The name of the table that holds the counts.
    pub closed spec fn table_name(&self) -> Seq<char> {
        self.table_name@
    }

    /// Opens the database at `path`, creating the file where there is none.
    /// The table `table_name` is not touched before `init`.
    pub fn new(path: &str, table_name: &str) -> (client: Result<SqliteClient, BackendError>)
        ensures
            client matches Ok(opened) ==> opened.table_name() == table_name@,
            client matches Err(error) ==> error is Unavailable,
    {
        match open_connection(path) {
            Ok(connection) => Ok(SqliteClient { table_name: table_name.to_owned(), connection }),
            Err(error) => Err(BackendError::Unavailable { reason: error_text(&error) }),
        }
    }

    /// The statement that `init` runs.
    pub fn create_sql(&self) -> (sql: String)
        ensures
            sql@ == create_statement(self.table_name()),
    {
        statement(
            "CREATE TABLE IF NOT EXISTS ",
            self.table_name.as_str(),
            " (\n                key TEXT NOT NULL UNIQUE,\n                value INTEGER NOT NULL\n            )",
        )
    }

    /// The statement that `get` runs.
    pub fn select_sql(&self) -> (sql: String)
        ensures
            sql@ == select_statement(self.table_name()),
    {
        statement("SELECT value FROM ", self.table_name.as_str(), " WHERE key = ?1")
    }

    /// The statement that `set` runs.
    pub fn upsert_sql(&self) -> (sql: String)
        ensures
            sql@ == upsert_statement(self.table_name()),
    {
        statement(
            "INSERT INTO ",
            self.table_name.as_str(),
            " (key, value) VALUES (?1, ?2) ON CONFLICT(key) DO UPDATE SET value=excluded.value",
        )
    }
}

impl KVDBClient for SqliteClient {
    /// The database is a file that other connections can change: nothing is
    /// known of its rows.
    open spec fn model(&self) -> Option<TableModel> {
        None
    }

    /// Whether the table is there afterwards is for the database to say; a
    /// failure is reported as a rejection with the reason that it gave.
    fn init(&self) -> (outcome: Result<(), BackendError>)
        ensures
            outcome matches Err(error) ==> error is Rejected,
    {
        let sql = self.create_sql();
        statement_done(execute_plain(&self.connection, sql.as_str()))
    }

    /// A value that is read fits in a signed 64-bit integer, which is what
    /// SQLite holds. Whether there is a row to read is for the database to
    /// say; a failure is reported as a rejection with the reason that it gave.
    fn get(&self, key: &str) -> (value: Result<Option<u64>, BackendError>)
        ensures
            value matches Ok(Some(found)) ==> found <= SQLITE_LARGEST,
            value matches Err(error) ==> error is Rejected,
    {
        let sql = self.select_sql();
        value_read(query_first_value(&self.connection, sql.as_str(), key))
    }

    /// A value above the largest signed 64-bit integer is refused, whatever
    /// the database holds; whether another value is stored is for the
    /// database to say. The client goes on naming the same table.
    fn set(&mut self, key: &str, value: u64) -> (outcome: Result<(), BackendError>)
        ensures
            final(self).table_name() == old(self).table_name(),
            value > SQLITE_LARGEST ==> outcome is Err,
            outcome matches Err(error) ==> error is Rejected,
    {
        let sql = self.upsert_sql();
        statement_done(execute_with_entry(&self.connection, sql.as_str(), key, value))
    }
}

/// A count, and why the table could not be read for it where it could not.
#[derive(Debug)]
pub struct Counted {
    pub count: u64,
    pub failure: Option<BackendError>,
}

/// The keys of the writes that failed.
pub open spec fn failed_keys(failures: Seq<(String, BackendError)>) -> Seq<Seq<char>> {
    Seq::new(failures.len(), |i: int| failures[i].0@)
}

/// The counter store: a cache of counts in front of a durable table.
pub struct DBManager<B: KVDBClient> {
    cache: CounterCache,
    backend: B,
}

impl<B: KVDBClient> DBManager<B> {
    /// The counts held in memory.
    pub closed spec fn counts(&self) -> Map<Seq<char>, u64> {
        self.cache.counts()
    }

    /// The cached keys in the order in which they were first asked for.
    pub closed spec fn keys(&self) -> Seq<Seq<char>> {
        self.cache.keys()
    }

    /// The durable table behind the store.
    pub closed spec fn backend(&self) -> B {
        self.backend
    }

    /// The cache is well formed.
    pub closed spec fn wf(&self) -> bool {
        self.cache.wf()
    }

    /// A store with an empty cache in front of `backend`.
    pub fn new(backend: B) -> (store: DBManager<B>)
        ensures
            store.wf(),
            store.counts() == Map::<Seq<char>, u64>::empty(),
            store.keys() == Seq::<Seq<char>>::empty(),
            store.backend() == backend,
    {
        DBManager { cache: CounterCache::new(), backend }
    }

    /// Gives the durable table back, and with it all that outlives the store.
    pub fn into_backend(self) -> (backend: B)
        ensures
            backend == self.backend(),
    {
        self.backend
    }

    /// The durable table behind the store.
    pub fn backend_ref(&self) -> (backend: &B)
        ensures
            *backend == self.backend(),
    {
        &self.backend
    }

    /// Makes sure that the durable table exists. The cache is untouched.
    pub fn init(&mut self) -> (outcome: Result<(), BackendError>)
        ensures
            *final(self) == *old(self),
            old(self).backend().model() matches Some(table) ==> (outcome is Ok <==> table.reachable),
    {
        self.backend.init()
    }

    /// Whether `key` has a count in memory.
    pub fn check_in_cache(&self, key: &str) -> (found: bool)
        ensures
            found == self.counts().contains_key(key@),
    {
        self.cache.contains(key)
    }

    /// Puts `value` into memory as the count of `key`, over any count it had.
    fn load_to_cache(&mut self, key: &str, value: u64)
        requires
            old(self).wf(),
        ensures
            final(self).wf(),
            final(self).backend() == old(self).backend(),
            final(self).counts() == old(self).counts().insert(key@, value),
            final(self).keys() == if old(self).counts().contains_key(key@) {
                old(self).keys()
            } else {
                old(self).keys().push(key@)
            },
    {
        self.cache.load(key, value);
    }

    /// Adds one to the count that `key` has in memory and returns the new count.
    fn count_on_cache(&mut self, key: &str) -> (count: Option<u64>)
        requires
            old(self).wf(),
            old(self).counts().contains_key(key@),
        ensures
            final(self).wf(),
            final(self).backend() == old(self).backend(),
            count == Some(counted(Some(old(self).counts()[key@]), None)),
            final(self).counts() == old(self).counts().insert(key@, count->0),
            final(self).keys() == old(self).keys(),
    {
        Some(self.cache.increment_existing(key))
    }

    /// The next count of `key`, given what a read of the durable table
    /// returned for it. A key that has a count in memory is counted from
    /// there and `loaded` is not looked at; another key starts from `loaded`,
    /// or from zero without it.
    pub fn count_loaded(&mut self, key: &str, loaded: Option<u64>) -> (count: u64)
        requires
            old(self).wf(),
        ensures
            final(self).wf(),
            final(self).backend() == old(self).backend(),
            count == counted(cached(old(self).counts(), key@), loaded),
            final(self).counts() == old(self).counts().insert(key@, count),
            final(self).keys() == if old(self).counts().contains_key(key@) {
                old(self).keys()
            } else {
                old(self).keys().push(key@)
            },
    {
        if !self.check_in_cache(key) {
            let start: u64 = match loaded {
                Some(value) => value,
                None => 0,
            };
            self.load_to_cache(key, start);
        }
        let ghost loaded_counts = self.counts();
        let count: u64 = match self.count_on_cache(key) {
            Some(count) => count,
            None => 0,
        };
        assert(loaded_counts.insert(key@, count) =~= old(self).counts().insert(key@, count));
        count
    }

    /// The next count of `key`. The durable table is read only where the key
    /// has no count in memory yet; a read that fails counts as no row.
    pub fn count(&mut self, key: &str) -> (count: Option<u64>)
        requires
            old(self).wf(),
        ensures
            final(self).wf(),
            final(self).backend() == old(self).backend(),
            count is Some,
            count->0 >= 1,
            old(self).counts().contains_key(key@) ==> count->0 == next_count(
                old(self).counts()[key@],
            ),
            old(self).backend().model() matches Some(table) ==> count->0 == counted(
                cached(old(self).counts(), key@),
                table.lookup(key@),
            ),
            final(self).counts() == old(self).counts().insert(key@, count->0),
            final(self).keys() == if old(self).counts().contains_key(key@) {
                old(self).keys()
            } else {
                old(self).keys().push(key@)
            },
    {
        Some(self.count_report(key).count)
    }

    /// Does what `count` does and returns, with the count, the failure of
    /// the read where the table was read and the read failed. The key is
    /// then counted as one that has no row.
    pub fn count_report(&mut self, key: &str) -> (report: Counted)
        requires
            old(self).wf(),
        ensures
            final(self).wf(),
            final(self).backend() == old(self).backend(),
            report.count >= 1,
            old(self).counts().contains_key(key@) ==> report.count == next_count(
                old(self).counts()[key@],
            ),
            old(self).counts().contains_key(key@) ==> report.failure is None,
            report.failure is Some ==> report.count == 1,
            old(self).backend().model() matches Some(table) ==> report.count == counted(
                cached(old(self).counts(), key@),
                table.lookup(key@),
            ),
            old(self).backend().model() matches Some(table) ==> (report.failure is Some <==> (
            !old(self).counts().contains_key(key@) && !table.reachable)),
            final(self).counts() == old(self).counts().insert(key@, report.count),
            final(self).keys() == if old(self).counts().contains_key(key@) {
                old(self).keys()
            } else {
                old(self).keys().push(key@)
            },
    {
        if self.check_in_cache(key) {
            let count: u64 = match self.count_on_cache(key) {
                Some(count) => count,
                None => 0,
            };
            return Counted { count, failure: None };
        }
        match self.backend.get(key) {
            Ok(loaded) => Counted { count: self.count_loaded(key, loaded), failure: None },
            Err(error) => Counted { count: self.count_loaded(key, None), failure: Some(error) },
        }
    }

    /// Writes every count held in memory to the durable table, in the order
    /// of `keys`. A write that fails is passed over and the rest are still
    /// made. The cache is untouched.
    pub fn sync_to_backend(&mut self) -> (outcome: Result<(), BackendError>)
        requires
            old(self).wf(),
        ensures
            final(self).wf(),
            outcome is Ok,
            final(self).counts() == old(self).counts(),
            final(self).keys() == old(self).keys(),
            final(self).backend().model() == flushed_known(
                old(self).backend().model(),
                old(self).counts(),
            ),
    {
        let _ = self.sync_report();
        Ok(())
    }

    /// Does what `sync_to_backend` does and returns the writes that failed,
    /// in the order of `keys`, each with the reason that the table gave.
    pub fn sync_report(&mut self) -> (failures: Vec<(String, BackendError)>)
        requires
            old(self).wf(),
        ensures
            final(self).wf(),
            final(self).counts() == old(self).counts(),
            final(self).keys() == old(self).keys(),
            final(self).backend().model() == flushed_known(
                old(self).backend().model(),
                old(self).counts(),
            ),
            failures.len() <= old(self).keys().len(),
            forall|i: int|
                0 <= i < failures.len() ==> old(self).counts().contains_key(
                    (#[trigger] failures[i]).0@,
                ),
            old(self).backend().model() matches Some(table) ==> failed_keys(failures@) == refused(
                table,
                entries_of(old(self).keys(), old(self).counts()),
                old(self).keys().len() as int,
            ),
    {
        let entries = self.cache.snapshot();
        let ghost written = self.cache.entries();
        let mut failures: Vec<(String, BackendError)> = Vec::new();
        let mut i: usize = 0;
        proof {
            self.cache.lemma_keys();
        }
        while i < entries.len()
            invariant
                i <= entries.len(),
                self.cache == old(self).cache,
                written == entries_of(self.cache.keys(), self.cache.counts()),
                forall|key: Seq<char>| self.cache.counts().contains_key(key) <==> self.cache.keys().contains(key),
                entries.len() == written.len(),
                forall|j: int|
                    0 <= j < entries.len() ==> (#[trigger] entries[j]).0@ == written[j].0
                        && entries[j].1 == written[j].1,
                self.backend.model() == written_known(
                    old(self).backend.model(),
                    written,
                    i as int,
                ),
                failures.len() <= i,
                forall|j: int|
                    0 <= j < failures.len() ==> self.cache.counts().contains_key((#[trigger] failures[j]).0@),
                old(self).backend.model() matches Some(table) ==> failed_keys(failures@) == refused(
                    table,
                    written,
                    i as int,
                ),
            decreases entries.len() - i,
        {
            proof {
                if let Some(table) = old(self).backend.model() {
                    lemma_written_accepts(table, written, i as int);
                }
                assert(self.cache.keys().contains(written[i as int].0)) by {
                    assert(self.cache.keys()[i as int] == written[i as int].0);
                }
            }
            let ghost failed_before = failures@;
            match self.backend.set(entries[i].0.as_str(), entries[i].1) {
                Ok(()) => {},
                Err(error) => {
                    failures.push((entries[i].0.clone(), error));
                    assert(failed_keys(failures@) =~= failed_keys(failed_before).push(
                        written[i as int].0,
                    ));
                },
            }
            i = i + 1;
        }
        proof {
            if let Some(table) = old(self).backend.model() {
                lemma_written_is_flushed(table, self.cache.keys(), self.cache.counts());
            }
        }
        failures
    }
}

} // verus!
