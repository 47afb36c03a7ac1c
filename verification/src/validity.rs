//! The validity table: a mapping from interaction transaction id to the
//! boolean result of applying that interaction.  Insertion order is not
//! material; a later insert for the same id overrides an earlier one.

use vstd::prelude::*;

verus! {

/// The mapping described by a list of (id, flag) entries, later entries
/// taking precedence.
pub open spec fn entries_map(s: Seq<(String, bool)>) -> Map<Seq<char>, bool>
    decreases s.len(),
{
    if s.len() == 0 {
        Map::empty()
    } else {
        entries_map(s.drop_last()).insert(s.last().0@, s.last().1)
    }
}

/// Maps each interaction's transaction id to whether its application
/// succeeded.
pub struct ValidityTable {
    entries: Vec<(String, bool)>,
}

impl ValidityTable {
    /// The mapping this table holds.
    pub closed spec fn view(&self) -> Map<Seq<char>, bool> {
        entries_map(self.entries@)
    }

    /// An empty table.
    pub fn new() -> (r: ValidityTable)
        ensures
            r@ == Map::<Seq<char>, bool>::empty(),
    {
        ValidityTable { entries: Vec::new() }
    }

    /// Records the outcome of one interaction.
    pub fn insert(&mut self, id: String, valid: bool)
        ensures
            final(self)@ == old(self)@.insert(id@, valid),
    {
        let ghost before = self.entries@;
        self.entries.push((id, valid));
        proof {
            assert(self.entries@.drop_last() =~= before);
        }
    }

    /// Looks an interaction up: its recorded outcome, if any.
    pub fn get(&self, id: &String) -> (r: Option<bool>)
        ensures
            match r {
                Some(b) => self@.contains_key(id@) && self@[id@] == b,
                None => !self@.contains_key(id@),
            },
    {
        let n = self.entries.len();
        let mut i: usize = n;
        proof {
            assert(self.entries@.take(n as int) =~= self.entries@);
        }
        while i > 0
            invariant
                i <= n,
                n == self.entries@.len(),
                entries_map(self.entries@).contains_key(id@) == entries_map(
                    self.entries@.take(i as int),
                ).contains_key(id@),
                entries_map(self.entries@).contains_key(id@) ==> entries_map(self.entries@)[id@]
                    == entries_map(self.entries@.take(i as int))[id@],
            decreases i,
        {
            proof {
                assert(self.entries@.take(i as int).drop_last() =~= self.entries@.take(i - 1));
                assert(self.entries@.take(i as int).last() == self.entries@[i - 1]);
            }
            if self.entries[i - 1].0 == *id {
                return Some(self.entries[i - 1].1);
            }
            i = i - 1;
        }
        proof {
            assert(self.entries@.take(0) =~= Seq::<(String, bool)>::empty());
        }
        None
    }

    /// Whether the table holds an entry for this id.
    pub fn contains(&self, id: &String) -> (r: bool)
        ensures
            r == self@.contains_key(id@),
    {
        match self.get(id) {
            Some(_) => true,
            None => false,
        }
    }
}

impl Clone for ValidityTable {
    /// A clone holds the same mapping.
    fn clone(&self) -> (r: Self)
        ensures
            r@ == self@,
    {
        let n = self.entries.len();
        let mut entries: Vec<(String, bool)> = Vec::new();
        let mut i: usize = 0;
        while i < n
            invariant
                i <= n,
                n == self.entries@.len(),
                entries@ =~= self.entries@.take(i as int),
            decreases n - i,
        {
            entries.push((self.entries[i].0.clone(), self.entries[i].1));
            proof {
                assert(entries@ =~= self.entries@.take(i + 1));
            }
            i = i + 1;
        }
        proof {
            assert(self.entries@.take(n as int) =~= self.entries@);
        }
        ValidityTable { entries }
    }
}

} // verus!
