//! The in-memory counts: one entry per key, never removed.

use crate::table::entries_of;
use vstd::hash_map::StringHashMap;
use vstd::prelude::*;

verus! {

/// One more than `value`, staying at the largest number once it is reached.
pub open spec fn next_count(value: u64) -> u64 {
    if value < u64::MAX {
        (value + 1) as u64
    } else {
        value
    }
}

/// What a cache holds: the count of each key, and the keys in the order in
/// which they first came in.
pub struct CacheModel {
    pub counts: Map<Seq<char>, u64>,
    pub keys: Seq<Seq<char>>,
}

/// The counts held in memory.
pub struct CounterCache {
    counts: StringHashMap<u64>,
    /// The keys of `counts`, each once, in the order in which they came in.
    order: Vec<String>,
}

impl View for CounterCache {
    type V = CacheModel;

    closed spec fn view(&self) -> CacheModel {
        CacheModel {
            counts: self.counts@,
            keys: Seq::new(self.order.len() as nat, |i: int| self.order[i]@),
        }
    }
}

impl CounterCache {
    /// The count of each key.
    pub open spec fn counts(&self) -> Map<Seq<char>, u64> {
        self@.counts
    }

    /// The keys in the order in which they first came in.
    pub open spec fn keys(&self) -> Seq<Seq<char>> {
        self@.keys
    }

    /// Every key with a count stands in `keys`, once, and no other does.
    pub closed spec fn wf(&self) -> bool {
        &&& self.keys().no_duplicates()
        &&& forall|key: Seq<char>| self.counts@.contains_key(key) <==> self.keys().contains(key)
    }

    /// What `wf` says, for those who cannot look inside.
    pub proof fn lemma_keys(&self)
        requires
            self.wf(),
        ensures
            self.keys().no_duplicates(),
            forall|key: Seq<char>| self.counts().contains_key(key) <==> self.keys().contains(key),
    {
    }

    /// The entries in the order of `keys`.
    pub open spec fn entries(&self) -> Seq<(Seq<char>, u64)> {
        entries_of(self.keys(), self.counts())
    }

    /// A cache without entries.
    pub fn new() -> (cache: CounterCache)
        ensures
            cache.wf(),
            cache.counts() == Map::<Seq<char>, u64>::empty(),
            cache.keys() == Seq::<Seq<char>>::empty(),
    {
        let cache = CounterCache { counts: StringHashMap::new(), order: Vec::new() };
        assert(cache.keys() =~= Seq::<Seq<char>>::empty());
        cache
    }

    /// Whether `key` has an entry.
    pub fn contains(&self, key: &str) -> (found: bool)
        ensures
            found == self.counts().contains_key(key@),
    {
        self.counts.contains_key(key)
    }

    /// The count of `key`, if it has an entry.
    pub fn get(&self, key: &str) -> (value: Option<u64>)
        ensures
            value == if self.counts().contains_key(key@) {
                Some(self.counts()[key@])
            } else {
                None
            },
    {
        match self.counts.get(key) {
            Some(value) => Some(*value),
            None => None,
        }
    }

    /// Sets the count of `key` to `value`, whether or not it had one.
    pub fn load(&mut self, key: &str, value: u64)
        requires
            old(self).wf(),
        ensures
            final(self).wf(),
            final(self).counts() == old(self).counts().insert(key@, value),
            final(self).keys() == if old(self).counts().contains_key(key@) {
                old(self).keys()
            } else {
                old(self).keys().push(key@)
            },
    {
        let known = self.counts.contains_key(key);
        let ghost keys_before = self.keys();
        if !known {
            self.order.push(key.to_owned());
            assert(self.keys() =~= keys_before.push(key@));
        }
        self.counts.insert(key.to_owned(), value);
        proof {
            let keys_after = self.keys();
            if known {
                assert(keys_after =~= keys_before);
            } else {
                assert(keys_after =~= keys_before.push(key@));
                assert forall|i: int, j: int|
                    0 <= i < keys_after.len() && 0 <= j < keys_after.len() && i != j implies keys_after[i]
                    != keys_after[j] by {
                    if i < keys_before.len() && j < keys_before.len() {
                    } else if i < keys_before.len() {
                        assert(keys_before.contains(keys_before[i]));
                    } else {
                        assert(keys_before.contains(keys_before[j]));
                    }
                }
            }
            assert forall|other: Seq<char>| self.counts@.contains_key(other) <==> keys_after.contains(
                other,
            ) by {
                if !known {
                    if other == key@ {
                        assert(keys_after[keys_after.len() - 1] == other);
                    } else if keys_before.contains(other) {
                        let i = choose|i: int| 0 <= i < keys_before.len() && keys_before[i] == other;
                        assert(keys_after[i] == other);
                    }
                }
            }
        }
    }

    /// Adds one to the count of `key`, which must have an entry, and returns
    /// the new count. A count at the largest number stays there.
    pub fn increment_existing(&mut self, key: &str) -> (count: u64)
        requires
            old(self).wf(),
            old(self).counts().contains_key(key@),
        ensures
            final(self).wf(),
            count == next_count(old(self).counts()[key@]),
            final(self).counts() == old(self).counts().insert(key@, count),
            final(self).keys() == old(self).keys(),
    {
        let previous: u64 = match self.counts.get(key) {
            Some(value) => *value,
            None => 0,
        };
        let count: u64 = previous.saturating_add(1);
        let ghost keys_before = self.keys();
        self.counts.insert(key.to_owned(), count);
        assert(self.keys() =~= keys_before);
        count
    }

    /// All entries, in the order in which their keys first came in.
    pub fn snapshot(&self) -> (entries: Vec<(String, u64)>)
        requires
            self.wf(),
        ensures
            entries.len() == self.entries().len(),
            forall|i: int|
                0 <= i < entries.len() ==> (#[trigger] entries[i]).0@ == self.entries()[i].0
                    && entries[i].1 == self.entries()[i].1,
    {
        let mut entries: Vec<(String, u64)> = Vec::new();
        let mut i: usize = 0;
        while i < self.order.len()
            invariant
                self.wf(),
                i <= self.order.len(),
                entries.len() == i,
                forall|j: int|
                    0 <= j < i ==> (#[trigger] entries[j]).0@ == self.entries()[j].0
                        && entries[j].1 == self.entries()[j].1,
            decreases self.order.len() - i,
        {
            let key: &String = &self.order[i];
            assert(self.keys()[i as int] == key@);
            assert(self.keys().contains(key@));
            let value: u64 = match self.counts.get(key.as_str()) {
                Some(value) => *value,
                None => 0,
            };
            entries.push((key.clone(), value));
            i = i + 1;
        }
        entries
    }
}

} // verus!
