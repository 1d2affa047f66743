//! The cache of interned texts: language and site codes with the
//! identifiers that the store gave them.

use crate::text::str_eq;
use crate::TextId;
use vstd::prelude::*;

verus! {

/// The map that a list of rows stands for, a later row of a text
/// overriding an earlier one.
pub open spec fn rows_map(rows: Seq<(String, TextId)>) -> Map<Seq<char>, TextId>
    decreases rows.len(),
{
    if rows.len() == 0 {
        Map::empty()
    } else {
        rows_map(rows.drop_last()).insert(rows.last().0@, rows.last().1)
    }
}

/// Texts with their identifiers. Entries are only ever added, and the
/// entry that was added last speaks for its text.
pub struct TextCache {
    entries: Vec<(String, TextId)>,
}

impl View for TextCache {
    type V = Map<Seq<char>, TextId>;

    closed spec fn view(&self) -> Map<Seq<char>, TextId> {
        rows_map(self.entries@)
    }
}

/// Rows none of which has the key from `from` on map the key as the rows
/// before `from` do.
proof fn lemma_rows_map_skips(rows: Seq<(String, TextId)>, from: int, key: Seq<char>)
    requires
        0 <= from <= rows.len(),
        forall|j: int| from <= j < rows.len() ==> (#[trigger] rows[j]).0@ != key,
    ensures
        rows_map(rows).contains_key(key) == rows_map(rows.take(from)).contains_key(key),
        rows_map(rows).contains_key(key) ==> rows_map(rows)[key] == rows_map(rows.take(from))[key],
    decreases rows.len() - from,
{
    if from == rows.len() {
        assert(rows.take(from) =~= rows);
    } else {
        let before = rows.drop_last();
        assert(rows.last().0@ != key);
        assert(before.take(from) =~= rows.take(from));
        assert forall|j: int| from <= j < before.len() implies (#[trigger] before[j]).0@ != key by {
            assert(before[j] == rows[j]);
        }
        lemma_rows_map_skips(before, from, key);
    }
}

impl TextCache {
    /// A cache without entries.
    pub fn new() -> (r: TextCache)
        ensures
            r@ == Map::<Seq<char>, TextId>::empty(),
    {
        TextCache { entries: Vec::new() }
    }

    /// Whether the cache has no entry yet.
    pub fn is_empty(&self) -> (r: bool)
        ensures
            r == (self@ == Map::<Seq<char>, TextId>::empty()),
    {
        proof {
            if self.entries.len() > 0 {
                assert(self@.contains_key(self.entries@.last().0@));
            }
        }
        self.entries.len() == 0
    }

    /// The identifier of a text, if the cache has it.
    pub fn get(&self, text: &str) -> (r: Option<TextId>)
        ensures
            r == (if self@.contains_key(text@) {
                Some(self@[text@])
            } else {
                None
            }),
    {
        let mut i: usize = self.entries.len();
        while i > 0
            invariant
                0 <= i <= self.entries.len(),
                forall|j: int|
                    i <= j < self.entries.len() ==> (#[trigger] self.entries@[j]).0@ != text@,
            decreases i,
        {
            i -= 1;
            if str_eq(self.entries[i].0.as_str(), text) {
                proof {
                    lemma_rows_map_skips(self.entries@, i + 1, text@);
                    assert(self.entries@.take(i + 1).drop_last() =~= self.entries@.take(i as int));
                }
                return Some(self.entries[i].1);
            }
        }
        proof {
            lemma_rows_map_skips(self.entries@, 0, text@);
        }
        None
    }

    /// Enters a text with its identifier; no other text changes.
    pub fn insert(&mut self, text: &str, id: TextId)
        ensures
            final(self)@ == old(self)@.insert(text@, id),
    {
        let entry = (text.to_owned(), id);
        proof {
            assert(self.entries@.push(entry).drop_last() =~= self.entries@);
        }
        self.entries.push(entry);
    }

    /// Loads the whole table of texts into a cache that has no entry yet,
    /// a later row of a text overriding an earlier one. A cache that has
    /// entries stays as it is.
    pub fn warm(&mut self, rows: &Vec<(String, TextId)>)
        ensures
            final(self)@ == (if old(self)@ == Map::<Seq<char>, TextId>::empty() {
                rows_map(rows@)
            } else {
                old(self)@
            }),
    {
        if !self.is_empty() {
            return ;
        }
        let mut i: usize = 0;
        proof {
            assert(rows@.take(0) =~= Seq::<(String, TextId)>::empty());
        }
        while i < rows.len()
            invariant
                0 <= i <= rows.len(),
                self@ == rows_map(rows@.take(i as int)),
            decreases rows.len() - i,
        {
            proof {
                assert(rows@.take(i + 1).drop_last() =~= rows@.take(i as int));
            }
            self.insert(rows[i].0.as_str(), rows[i].1);
            i += 1;
        }
        proof {
            assert(rows@.take(rows.len() as int) =~= rows@);
        }
    }
}

} // verus!
