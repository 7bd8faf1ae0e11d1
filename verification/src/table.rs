//! The method-identifier-to-character table.
//!
//! Built once from the helper methods, read-only afterwards. Entries are kept
//! in insertion order; on a repeated identifier the later entry wins, so the
//! table's meaning is the map folded left over the entries.
use vstd::prelude::*;

verus! {

/// The map meaning of an entry list: later entries overwrite earlier ones.
pub open spec fn entries_map(s: Seq<(u32, u8)>) -> Map<u32, u8>
    decreases s.len()
{
    if s.len() == 0 {
        Map::empty()
    } else {
        entries_map(s.drop_last()).insert(s.last().0, s.last().1)
    }
}

/// Mapping from method identifier to the single character the method returns.
pub struct CharTable {
    pub entries: Vec<(u32, u8)>,
}

impl View for CharTable {
    type V = Map<u32, u8>;

    open spec fn view(&self) -> Map<u32, u8> {
        entries_map(self.entries@)
    }
}

impl CharTable {
    pub fn new() -> (r: CharTable)
        ensures
            r@ == Map::<u32, u8>::empty(),
    {
        CharTable { entries: Vec::new() }
    }

    pub fn insert(&mut self, name: u32, byte: u8)
        ensures
            final(self)@ == old(self)@.insert(name, byte),
    {
        self.entries.push((name, byte));
        proof {
            assert(self.entries@.drop_last() =~= old(self).entries@);
        }
    }

    /// Look the identifier up; the latest entry for it wins.
    pub fn get(&self, name: u32) -> (r: Option<u8>)
        ensures
            r == (if self@.contains_key(name) {
                Some(self@[name])
            } else {
                None::<u8>
            }),
    {
        let mut j: usize = self.entries.len();
        proof {
            assert(self.entries@.take(j as int) =~= self.entries@);
        }
        while j > 0
            invariant
                j <= self.entries@.len(),
                entries_map(self.entries@).contains_key(name) <==> entries_map(
                    self.entries@.take(j as int),
                ).contains_key(name),
                entries_map(self.entries@).contains_key(name) ==> entries_map(
                    self.entries@.take(j as int),
                )[name] == entries_map(self.entries@)[name],
            decreases j,
        {
            j = j - 1;
            let (k, v) = self.entries[j];
            proof {
                assert(self.entries@.take(j as int + 1).drop_last() =~= self.entries@.take(
                    j as int,
                ));
                assert(self.entries@.take(j as int + 1).last() == self.entries@[j as int]);
            }
            if k == name {
                return Some(v);
            }
        }
        proof {
            assert(self.entries@.take(0) =~= Seq::<(u32, u8)>::empty());
        }
        None
    }
}

} // verus!
