//! Values filed under texts.

use crate::text::same_text;
use vstd::prelude::*;

verus! {

/// Values filed under texts. Where a text occurs twice, the later value counts.
#[derive(Debug, Clone, PartialEq, Eq)]
pub struct Table<V> {
    /// The texts and their values.
    pub entries: Vec<(String, V)>,
}

/// What is filed under which text.
pub open spec fn filed<V: View>(entries: Seq<(String, V)>) -> Map<Seq<char>, V::V>
    decreases entries.len(),
{
    if entries.len() == 0 {
        Map::empty()
    } else {
        filed(entries.drop_last()).insert(entries.last().0@, entries.last().1@)
    }
}

/// No text occurs twice.
pub open spec fn are_distinct<V>(entries: Seq<(String, V)>) -> bool {
    forall|i: int, j: int|
        0 <= i < j < entries.len() ==> (#[trigger] entries[i]).0@ != (#[trigger] entries[j]).0@
}

impl<V: View> View for Table<V> {
    type V = Map<Seq<char>, V::V>;

    open spec fn view(&self) -> Map<Seq<char>, V::V> {
        filed(self.entries@)
    }
}

/// The value under a text is the one of its last entry.
pub(crate) proof fn lemma_filed<V: View>(entries: Seq<(String, V)>, i: int)
    requires
        0 <= i < entries.len(),
        forall|j: int| i < j < entries.len() ==> (#[trigger] entries[j]).0@ != entries[i].0@,
    ensures
        filed(entries).contains_key(entries[i].0@),
        filed(entries)[entries[i].0@] == entries[i].1@,
    decreases entries.len(),
{
    if i < entries.len() - 1 {
        lemma_filed(entries.drop_last(), i);
    }
}

/// Nothing is filed under a text that no entry has.
pub(crate) proof fn lemma_not_filed<V: View>(entries: Seq<(String, V)>, key: Seq<char>)
    requires
        forall|j: int| 0 <= j < entries.len() ==> (#[trigger] entries[j]).0@ != key,
    ensures
        !filed(entries).contains_key(key),
    decreases entries.len(),
{
    if entries.len() > 0 {
        assert(entries.last().0@ != key);
        lemma_not_filed(entries.drop_last(), key);
    }
}

/// To replace the value of the last entry with a text is to file the new value under it.
pub(crate) proof fn lemma_replaced<V: View>(entries: Seq<(String, V)>, i: int, e: (String, V))
    requires
        0 <= i < entries.len(),
        e.0@ == entries[i].0@,
        forall|j: int| i < j < entries.len() ==> (#[trigger] entries[j]).0@ != entries[i].0@,
    ensures
        filed(entries.update(i, e)) == filed(entries).insert(e.0@, e.1@),
    decreases entries.len(),
{
    let updated = entries.update(i, e);
    if i < entries.len() - 1 {
        lemma_replaced(entries.drop_last(), i, e);
        assert(updated.drop_last() =~= entries.drop_last().update(i, e));
        assert(updated.last() == entries.last());
        assert(filed(updated) =~= filed(entries).insert(e.0@, e.1@));
    } else {
        assert(updated.drop_last() =~= entries.drop_last());
        assert(filed(updated) =~= filed(entries).insert(e.0@, e.1@));
    }
}

impl<V: View> Table<V> {
    /// A table that holds nothing.
    pub fn new() -> (table: Table<V>)
        ensures
            table@ == Map::<Seq<char>, V::V>::empty(),
            are_distinct(table.entries@),
    {
        Table { entries: Vec::new() }
    }

    /// The index of the last entry with the text.
    pub(crate) fn index_of(&self, key: &str) -> (r: Option<usize>)
        ensures
            match r {
                Some(i) => {
                    &&& i < self.entries@.len()
                    &&& self.entries@[i as int].0@ == key@
                    &&& forall|j: int|
                        i < j < self.entries@.len() ==> (#[trigger] self.entries@[j]).0@ != key@
                },
                None => forall|j: int|
                    0 <= j < self.entries@.len() ==> (#[trigger] self.entries@[j]).0@ != key@,
            },
    {
        let mut i: usize = self.entries.len();
        while i > 0
            invariant
                i <= self.entries@.len(),
                forall|j: int|
                    i <= j < self.entries@.len() ==> (#[trigger] self.entries@[j]).0@ != key@,
            decreases i,
        {
            i = i - 1;
            if same_text(&self.entries[i].0, key) {
                return Some(i);
            }
        }
        None
    }

    /// What is filed under the text.
    pub fn get(&self, key: &str) -> (r: Option<&V>)
        ensures
            match r {
                Some(v) => self@.contains_key(key@) && self@[key@] == v@,
                None => !self@.contains_key(key@),
            },
    {
        match self.index_of(key) {
            Some(i) => {
                proof {
                    lemma_filed(self.entries@, i as int);
                }
                Some(&self.entries[i].1)
            },
            None => {
                proof {
                    lemma_not_filed(self.entries@, key@);
                }
                None
            },
        }
    }

    /// Files a value under a text, in the place of what was filed under it.
    pub fn insert(&mut self, key: String, value: V)
        ensures
            final(self)@ == old(self)@.insert(key@, value@),
            are_distinct(old(self).entries@) ==> are_distinct(final(self).entries@),
    {
        match self.index_of(&key) {
            Some(i) => {
                let ghost before = self.entries@;
                proof {
                    lemma_replaced(before, i as int, (key, value));
                }
                self.entries[i] = (key, value);
            },
            None => {
                let ghost before = self.entries@;
                self.entries.push((key, value));
                assert(self.entries@.drop_last() =~= before);
            },
        }
    }
}

} // verus!
