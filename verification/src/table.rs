//! What the store knows of a durable table, as plain mathematics.

use crate::cache::next_count;
use vstd::prelude::*;

verus! {

/// A durable table of counts as far as its owner can describe it.
pub struct TableModel {
    /// The stored value of each key that was ever written.
    pub rows: Map<Seq<char>, u64>,
    /// Whether the table answers at all.
    pub reachable: bool,
    /// The largest value that the table stores.
    pub limit: u64,
}

impl TableModel {
    /// A reachable table without rows.
    pub open spec fn empty(limit: u64) -> TableModel {
        TableModel { rows: Map::empty(), reachable: true, limit }
    }

    /// What the store takes a read of `key` for: the stored value, or
    /// nothing where the key was never written or the table does not
    /// answer, in which case the read fails.
    pub open spec fn lookup(self, key: Seq<char>) -> Option<u64> {
        if self.reachable && self.rows.contains_key(key) {
            Some(self.rows[key])
        } else {
            None
        }
    }

    /// Whether a write of `value` succeeds.
    pub open spec fn accepts(self, value: u64) -> bool {
        self.reachable && value <= self.limit
    }

    /// The table after a write of `value` under `key`: the row is inserted or
    /// overwritten where the write succeeds, and nothing changes where it fails.
    pub open spec fn upsert(self, key: Seq<char>, value: u64) -> TableModel {
        if self.accepts(value) {
            TableModel { rows: self.rows.insert(key, value), ..self }
        } else {
            self
        }
    }

    /// The table after the first `n` of `entries` were written, one by one.
    pub open spec fn written(self, entries: Seq<(Seq<char>, u64)>, n: int) -> TableModel
        decreases n,
    {
        if 0 < n <= entries.len() {
            self.written(entries, n - 1).upsert(entries[n - 1].0, entries[n - 1].1)
        } else {
            self
        }
    }

    /// The table after every entry of `counts` that it accepts was written.
    pub open spec fn flushed(self, counts: Map<Seq<char>, u64>) -> TableModel {
        if self.reachable {
            TableModel {
                rows: Map::new(
                    |key: Seq<char>|
                        self.rows.contains_key(key) || (counts.contains_key(key) && counts[key]
                            <= self.limit),
                    |key: Seq<char>|
                        if counts.contains_key(key) && counts[key] <= self.limit {
                            counts[key]
                        } else {
                            self.rows[key]
                        },
                ),
                ..self
            }
        } else {
            self
        }
    }
}

/// Entry `j` is among the first `n` of `entries`, is for `key`, and fits under `limit`.
pub open spec fn writes(
    entries: Seq<(Seq<char>, u64)>,
    limit: u64,
    n: int,
    key: Seq<char>,
    j: int,
) -> bool {
    0 <= j < n && entries[j].0 == key && entries[j].1 <= limit
}

/// The rows of a reachable table after the first `n` of `entries`, whose keys
/// all differ, were written: each accepted entry is there, and every other
/// key is as it was.
pub proof fn lemma_written_rows(table: TableModel, entries: Seq<(Seq<char>, u64)>, n: int)
    requires
        0 <= n <= entries.len(),
        table.reachable,
        forall|i: int, j: int| 0 <= i < j < entries.len() ==> entries[i].0 != entries[j].0,
    ensures
        table.written(entries, n).reachable,
        table.written(entries, n).limit == table.limit,
        forall|key: Seq<char>, j: int| #[trigger]
            writes(entries, table.limit, n, key, j) ==> table.written(entries, n).rows.contains_key(
                key,
            ) && table.written(entries, n).rows[key] == entries[j].1,
        forall|key: Seq<char>|
            (forall|j: int| !writes(entries, table.limit, n, key, j)) ==> (#[trigger] table.written(
                entries,
                n,
            ).rows.contains_key(key) <==> table.rows.contains_key(key)) && table.written(
                entries,
                n,
            ).rows[key] == table.rows[key],
    decreases n,
{
    if n > 0 {
        lemma_written_rows(table, entries, n - 1);
        let before = table.written(entries, n - 1);
        let after = table.written(entries, n);
        let last = entries[n - 1];
        let m = n - 1;
        assert(after == before.upsert(last.0, last.1));
        assert forall|key: Seq<char>, j: int| #[trigger]
            writes(entries, table.limit, n, key, j) implies after.rows.contains_key(key)
            && after.rows[key] == entries[j].1 by {
            if j < m {
                assert(writes(entries, table.limit, m, key, j));
            }
        }
        assert forall|key: Seq<char>|
            (forall|j: int| !writes(entries, table.limit, n, key, j)) implies (
        #[trigger] after.rows.contains_key(key) <==> table.rows.contains_key(key)) && after.rows[key]
            == table.rows[key] by {
            assert forall|j: int| !#[trigger] writes(entries, table.limit, m, key, j) by {
                assert(!writes(entries, table.limit, n, key, j));
            }
            assert(!writes(entries, table.limit, n, key, m));
        }
    }
}

/// Writing the entries of a cache one by one, each key once, gives the
/// flushed table.
pub proof fn lemma_written_is_flushed(
    table: TableModel,
    keys: Seq<Seq<char>>,
    counts: Map<Seq<char>, u64>,
)
    requires
        keys.no_duplicates(),
        forall|key: Seq<char>| counts.contains_key(key) <==> keys.contains(key),
    ensures
        table.written(entries_of(keys, counts), keys.len() as int) == table.flushed(counts),
{
    let entries = entries_of(keys, counts);
    let n = keys.len() as int;
    if table.reachable {
        lemma_written_rows(table, entries, n);
        let after = table.written(entries, n);
        assert forall|key: Seq<char>|
            after.rows.contains_key(key) == table.flushed(counts).rows.contains_key(key) && (
            after.rows.contains_key(key) ==> after.rows[key] == table.flushed(counts).rows[key]) by {
            if counts.contains_key(key) && counts[key] <= table.limit {
                assert(keys.contains(key));
                let j = choose|j: int| 0 <= j < keys.len() && keys[j] == key;
                assert(entries[j] == (key, counts[key]));
                assert(writes(entries, table.limit, n, key, j));
            } else {
                assert forall|j: int| !writes(entries, table.limit, n, key, j) by {
                    if 0 <= j < n && entries[j].0 == key {
                        assert(keys.contains(key));
                    }
                }
            }
        }
        assert(after.rows =~= table.flushed(counts).rows);
    } else {
        lemma_written_unreachable(table, entries, n);
    }
}

/// Nothing is written to a table that does not answer.
pub proof fn lemma_written_unreachable(table: TableModel, entries: Seq<(Seq<char>, u64)>, n: int)
    requires
        !table.reachable,
    ensures
        table.written(entries, n) == table,
    decreases n,
{
    if 0 < n <= entries.len() {
        lemma_written_unreachable(table, entries, n - 1);
    }
}

/// The entries of a cache: each key of `keys` with its count.
pub open spec fn entries_of(keys: Seq<Seq<char>>, counts: Map<Seq<char>, u64>) -> Seq<
    (Seq<char>, u64),
> {
    Seq::new(keys.len(), |i: int| (keys[i], counts[keys[i]]))
}

/// The keys among the first `n` of `entries` whose value the table does
/// not accept, in their order.
pub open spec fn refused(table: TableModel, entries: Seq<(Seq<char>, u64)>, n: int) -> Seq<Seq<char>>
    decreases n,
{
    if 0 < n <= entries.len() {
        if table.accepts(entries[n - 1].1) {
            refused(table, entries, n - 1)
        } else {
            refused(table, entries, n - 1).push(entries[n - 1].0)
        }
    } else {
        Seq::empty()
    }
}

/// Writing does not change whether a table answers or what it accepts.
pub proof fn lemma_written_accepts(table: TableModel, entries: Seq<(Seq<char>, u64)>, n: int)
    ensures
        table.written(entries, n).reachable == table.reachable,
        table.written(entries, n).limit == table.limit,
    decreases n,
{
    if 0 < n <= entries.len() {
        lemma_written_accepts(table, entries, n - 1);
    }
}

/// `TableModel::written` for a table that may be unknown.
pub open spec fn written_known(
    table: Option<TableModel>,
    entries: Seq<(Seq<char>, u64)>,
    n: int,
) -> Option<TableModel> {
    match table {
        Some(table) => Some(table.written(entries, n)),
        None => None,
    }
}

/// The table that a backend of unknown content turns into: unknown again.
pub open spec fn upsert_known(table: Option<TableModel>, key: Seq<char>, value: u64) -> Option<
    TableModel,
> {
    match table {
        Some(table) => Some(table.upsert(key, value)),
        None => None,
    }
}

/// `TableModel::flushed` for a table that may be unknown.
pub open spec fn flushed_known(table: Option<TableModel>, counts: Map<Seq<char>, u64>) -> Option<
    TableModel,
> {
    match table {
        Some(table) => Some(table.flushed(counts)),
        None => None,
    }
}

/// The count that a request returns: one more than the cached count, or,
/// without one, one more than what the table gave, or 1 where it gave nothing.
pub open spec fn counted(cached: Option<u64>, loaded: Option<u64>) -> u64 {
    match cached {
        Some(value) => next_count(value),
        None => match loaded {
            Some(value) => next_count(value),
            None => 1,
        },
    }
}

/// The cached count of `key`, if there is one.
pub open spec fn cached(counts: Map<Seq<char>, u64>, key: Seq<char>) -> Option<u64> {
    if counts.contains_key(key) {
        Some(counts[key])
    } else {
        None
    }
}

/// The counts after `n` requests for `key` in a row, each of which found
/// `loaded` in the table where it looked.
pub open spec fn counted_times(
    counts: Map<Seq<char>, u64>,
    key: Seq<char>,
    loaded: Option<u64>,
    n: nat,
) -> Map<Seq<char>, u64>
    decreases n,
{
    if n == 0 {
        counts
    } else {
        let before = counted_times(counts, key, loaded, (n - 1) as nat);
        before.insert(key, counted(cached(before, key), loaded))
    }
}

/// The number from which a key without a cached count starts.
pub open spec fn baseline(loaded: Option<u64>) -> u64 {
    match loaded {
        Some(value) => value,
        None => 0,
    }
}

/// A key that has no count in memory and no row in the table is counted as 1.
pub proof fn lemma_unseen_key_counts_one(
    counts: Map<Seq<char>, u64>,
    table: TableModel,
    key: Seq<char>,
)
    requires
        !counts.contains_key(key),
        !table.rows.contains_key(key),
    ensures
        counted(cached(counts, key), table.lookup(key)) == 1,
{
}

/// With an empty cache, a key whose row holds `stored` is counted as
/// `stored + 1`, as long as that is a 64-bit number.
pub proof fn lemma_first_count_follows_table(table: TableModel, key: Seq<char>, stored: u64)
    requires
        table.lookup(key) == Some(stored),
        stored < u64::MAX,
    ensures
        counted(cached(Map::empty(), key), table.lookup(key)) == stored + 1,
{
}

/// A key with a count in memory is counted as one more than that count,
/// whatever the table holds, as long as that is a 64-bit number.
pub proof fn lemma_next_count_follows_cache(
    counts: Map<Seq<char>, u64>,
    key: Seq<char>,
    loaded: Option<u64>,
)
    requires
        counts.contains_key(key),
        counts[key] < u64::MAX,
    ensures
        counted(cached(counts, key), loaded) == counts[key] + 1,
{
}

/// After `n` requests in a row for a key that had no count in memory, its
/// count is `n` more than what the table gave, or the largest 64-bit number
/// where that is less. No other count has changed.
pub proof fn lemma_counted_times(
    counts: Map<Seq<char>, u64>,
    key: Seq<char>,
    loaded: Option<u64>,
    n: nat,
)
    requires
        !counts.contains_key(key),
        n >= 1,
    ensures
        counted_times(counts, key, loaded, n) == counts.insert(
            key,
            if baseline(loaded) + n <= u64::MAX {
                (baseline(loaded) + n) as u64
            } else {
                u64::MAX
            },
        ),
    decreases n,
{
    if n > 1 {
        lemma_counted_times(counts, key, loaded, (n - 1) as nat);
        let before = counted_times(counts, key, loaded, (n - 1) as nat);
        assert(before.contains_key(key));
        assert(before.insert(key, counted(cached(before, key), loaded)) =~= counts.insert(
            key,
            counted(cached(before, key), loaded),
        ));
    } else {
        assert(counted_times(counts, key, loaded, 0) == counts);
    }
}

/// After `n` requests in a row for a key that had neither a count in memory
/// nor a row in the table, its count in memory is `n`.
pub proof fn lemma_fresh_key_counts_requests(
    counts: Map<Seq<char>, u64>,
    table: TableModel,
    key: Seq<char>,
    n: nat,
)
    requires
        !counts.contains_key(key),
        !table.rows.contains_key(key),
        1 <= n <= u64::MAX,
    ensures
        counted_times(counts, key, table.lookup(key), n)[key] == n,
{
    lemma_counted_times(counts, key, table.lookup(key), n);
}

/// Each request for a key returns one more than the request before it, as
/// long as the count stays a 64-bit number.
pub proof fn lemma_counts_follow_each_other(
    counts: Map<Seq<char>, u64>,
    key: Seq<char>,
    loaded: Option<u64>,
    n: nat,
)
    requires
        !counts.contains_key(key),
        n >= 1,
        baseline(loaded) + n + 1 <= u64::MAX,
    ensures
        counted_times(counts, key, loaded, n + 1)[key] == counted_times(counts, key, loaded, n)[key]
            + 1,
{
    lemma_counted_times(counts, key, loaded, n);
    lemma_counted_times(counts, key, loaded, n + 1);
}

/// A count never falls: a request returns at least the count that the key
/// had in memory, and for a key without one at least what the table gave.
pub proof fn lemma_count_never_falls(
    counts: Map<Seq<char>, u64>,
    key: Seq<char>,
    loaded: Option<u64>,
)
    ensures
        counts.contains_key(key) ==> counted(cached(counts, key), loaded) >= counts[key],
        !counts.contains_key(key) ==> counted(cached(counts, key), loaded) >= baseline(loaded),
        counted(cached(counts, key), loaded) >= 1,
{
}

/// A second flush of the same counts changes nothing.
pub proof fn lemma_flush_twice(table: TableModel, counts: Map<Seq<char>, u64>)
    ensures
        table.flushed(counts).flushed(counts) == table.flushed(counts),
{
    assert(table.flushed(counts).flushed(counts).rows =~= table.flushed(counts).rows);
}

/// After a flush, the table holds every count that it accepts.
pub proof fn lemma_flushed_holds_counts(
    table: TableModel,
    counts: Map<Seq<char>, u64>,
    key: Seq<char>,
)
    requires
        counts.contains_key(key),
        table.accepts(counts[key]),
    ensures
        table.flushed(counts).lookup(key) == Some(counts[key]),
{
}

/// A flush leaves the rows of keys that have no count in memory as they were.
pub proof fn lemma_flushed_keeps_other_rows(
    table: TableModel,
    counts: Map<Seq<char>, u64>,
    key: Seq<char>,
)
    requires
        !counts.contains_key(key),
    ensures
        table.flushed(counts).lookup(key) == table.lookup(key),
{
}

/// After a flush, a store that starts with an empty cache on the same table
/// counts a flushed key as one more than its flushed count, as long as that
/// is a 64-bit number.
pub proof fn lemma_restart_continues(
    table: TableModel,
    counts: Map<Seq<char>, u64>,
    key: Seq<char>,
)
    requires
        counts.contains_key(key),
        table.accepts(counts[key]),
        counts[key] < u64::MAX,
    ensures
        counted(cached(Map::empty(), key), table.flushed(counts).lookup(key)) == counts[key] + 1,
{
}

} // verus!
