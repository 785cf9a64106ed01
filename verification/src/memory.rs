//! A table of counts that lives in memory: for a process that needs no
//! durability, and to stand for a durable table whose faults can be chosen.

use crate::db_adpater::{BackendError, KVDBClient};
use crate::table::TableModel;
use vstd::hash_map::StringHashMap;
use vstd::prelude::*;

verus! {

/// A table held in memory. It can be taken out of reach, and it can be
/// given a largest value above which it refuses to store.
pub struct MemoryBackend {
    rows: StringHashMap<u64>,
    reachable: bool,
    limit: u64,
}

impl MemoryBackend {
    /// The table as it stands.
    pub closed spec fn table(&self) -> TableModel {
        TableModel { rows: self.rows@, reachable: self.reachable, limit: self.limit }
    }

    /// A reachable table without rows that stores every value.
    pub fn new() -> (backend: MemoryBackend)
        ensures
            backend.table() == TableModel::empty(u64::MAX),
    {
        MemoryBackend { rows: StringHashMap::new(), reachable: true, limit: u64::MAX }
    }

    /// A reachable table without rows that stores values up to `limit`.
    pub fn with_limit(limit: u64) -> (backend: MemoryBackend)
        ensures
            backend.table() == TableModel::empty(limit),
    {
        MemoryBackend { rows: StringHashMap::new(), reachable: true, limit }
    }

    /// Puts the table within or out of reach. Its rows stay.
    pub fn set_reachable(&mut self, reachable: bool)
        ensures
            final(self).table() == (TableModel { reachable, ..old(self).table() }),
    {
        self.reachable = reachable;
    }

    /// The row of `key` as it is stored, whether or not the table is in reach.
    pub fn stored(&self, key: &str) -> (value: Option<u64>)
        ensures
            value == if self.table().rows.contains_key(key@) {
                Some(self.table().rows[key@])
            } else {
                None
            },
    {
        match self.rows.get(key) {
            Some(value) => Some(*value),
            None => None,
        }
    }

    /// The number of rows.
    pub fn len(&self) -> (rows: usize)
        ensures
            rows == self.table().rows.len(),
    {
        self.rows.len()
    }
}

impl KVDBClient for MemoryBackend {
    open spec fn model(&self) -> Option<TableModel> {
        Some(self.table())
    }

    fn init(&self) -> (outcome: Result<(), BackendError>) {
        if self.reachable {
            Ok(())
        } else {
            Err(BackendError::Unavailable { reason: "the table is out of reach".to_owned() })
        }
    }

    fn get(&self, key: &str) -> (value: Result<Option<u64>, BackendError>) {
        if self.reachable {
            Ok(self.stored(key))
        } else {
            Err(BackendError::Unavailable { reason: "the table is out of reach".to_owned() })
        }
    }

    fn set(&mut self, key: &str, value: u64) -> (outcome: Result<(), BackendError>) {
        if !self.reachable {
            Err(BackendError::Unavailable { reason: "the table is out of reach".to_owned() })
        } else if value > self.limit {
            Err(BackendError::Rejected { reason: "the value is above the table's limit".to_owned() })
        } else {
            self.rows.insert(key.to_owned(), value);
            Ok(())
        }
    }
}

} // verus!
