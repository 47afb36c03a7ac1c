//! The state cache: maps a contract id to the state, validity table and
//! last processed interaction index of its most recent completed replay.
//! It is an optimization only: dropping an entry never changes results.

use vstd::prelude::*;
use crate::json::clone_value;
use crate::validity::ValidityTable;

verus! {

/// What the cache remembers for one contract.
pub struct CacheEntry {
    pub state: serde_json::Value,
    pub validity: ValidityTable,
    pub last_processed_index: usize,
}

/// The spec-level shape of a cache entry.
pub struct CacheEntryModel {
    pub state: serde_json::Value,
    pub validity: Map<Seq<char>, bool>,
    pub last_processed_index: int,
}

impl View for CacheEntry {
    type V = CacheEntryModel;

    open spec fn view(&self) -> CacheEntryModel {
        CacheEntryModel {
            state: self.state,
            validity: self.validity@,
            last_processed_index: self.last_processed_index as int,
        }
    }
}

impl Clone for CacheEntry {
    /// A clone describes the same entry.
    fn clone(&self) -> (r: Self)
        ensures
            r@ == self@,
    {
        CacheEntry {
            state: clone_value(&self.state),
            validity: self.validity.clone(),
            last_processed_index: self.last_processed_index,
        }
    }
}

/// The mapping described by a list of (contract id, entry) pairs, later
/// pairs taking precedence.
pub open spec fn cache_entries_map(s: Seq<(String, CacheEntry)>) -> Map<Seq<char>, CacheEntryModel>
    decreases s.len(),
{
    if s.len() == 0 {
        Map::empty()
    } else {
        cache_entries_map(s.drop_last()).insert(s.last().0@, s.last().1@)
    }
}

/// A keyed store of replay snapshots, one entry per contract id.
/// Callers receive cloned snapshots; a write replaces the whole entry.
pub struct StateCache {
    entries: Vec<(String, CacheEntry)>,
}

impl StateCache {
    /// The mapping this cache holds.
    pub closed spec fn view(&self) -> Map<Seq<char>, CacheEntryModel> {
        cache_entries_map(self.entries@)
    }

    /// An empty cache.
    pub fn new() -> (r: StateCache)
        ensures
            r@ == Map::<Seq<char>, CacheEntryModel>::empty(),
    {
        StateCache { entries: Vec::new() }
    }

    /// Returns a snapshot of the entry for this contract, if one exists.
    pub fn find_state(&self, contract_id: &String) -> (r: Option<CacheEntry>)
        ensures
            match r {
                Some(e) => self@.contains_key(contract_id@) && e@ == self@[contract_id@],
                None => !self@.contains_key(contract_id@),
            },
    {
        let n = self.entries.len();
        let mut i: usize = n;
        proof {
            assert(self.entries@.take(n as int) =~= self.entries@);
        }
        while i > 0
            invariant
                i <= n,
                n == self.entries@.len(),
                cache_entries_map(self.entries@).contains_key(contract_id@) == cache_entries_map(
                    self.entries@.take(i as int),
                ).contains_key(contract_id@),
                cache_entries_map(self.entries@).contains_key(contract_id@) ==> cache_entries_map(
                    self.entries@,
                )[contract_id@] == cache_entries_map(self.entries@.take(i as int))[contract_id@],
            decreases i,
        {
            proof {
                assert(self.entries@.take(i as int).drop_last() =~= self.entries@.take(i - 1));
                assert(self.entries@.take(i as int).last() == self.entries@[i - 1]);
            }
            if self.entries[i - 1].0 == *contract_id {
                return Some(self.entries[i - 1].1.clone());
            }
            i = i - 1;
        }
        proof {
            assert(self.entries@.take(0) =~= Seq::<(String, CacheEntry)>::empty());
        }
        None
    }

    /// Overwrites the entry for this contract with a fresh snapshot.
    pub fn cache_states(
        &mut self,
        contract_id: String,
        state: serde_json::Value,
        validity: ValidityTable,
        last_processed_index: usize,
    )
        ensures
            final(self)@ == old(self)@.insert(
                contract_id@,
                CacheEntryModel {
                    state: state,
                    validity: validity@,
                    last_processed_index: last_processed_index as int,
                },
            ),
    {
        let ghost before = self.entries@;
        self.entries.push((contract_id, CacheEntry { state, validity, last_processed_index }));
        proof {
            assert(self.entries@.drop_last() =~= before);
        }
    }
}

} // verus!
