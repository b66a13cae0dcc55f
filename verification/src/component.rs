//! The component store: a mapping from glyph names to raw record text.
//!
//! The store behaves as a name-to-data map with last-writer-wins semantics on
//! duplicate names.  It is read-only during a glyph build.

use vstd::map::*;
use vstd::prelude::*;

verus! {

/// A name-to-record mapping for glyph components, last writer wins.
pub struct Components {
    entries: Vec<(String, String)>,
}

impl Components {
    /// The store as a mathematical map from names to record text.
    pub closed spec fn view(&self) -> Map<Seq<char>, Seq<char>> {
        Self::entries_map(self.entries@)
    }

    /// The map induced by a prefix of the entry list, later entries winning.
    pub closed spec fn entries_map(entries: Seq<(String, String)>) -> Map<Seq<char>, Seq<char>>
        decreases entries.len(),
    {
        if entries.len() == 0 {
            Map::empty()
        } else {
            Self::entries_map(entries.drop_last()).insert(
                entries.last().0@,
                entries.last().1@,
            )
        }
    }

    /// The entry list never holds two entries with the same name.
    pub closed spec fn wf(&self) -> bool {
        forall|i: int, j: int|
            0 <= i < j < self.entries@.len() ==> self.entries@[i].0@ != self.entries@[j].0@
    }

    pub fn new() -> (r: Self)
        ensures
            r@ == Map::<Seq<char>, Seq<char>>::empty(),
            r.wf(),
    {
        Components { entries: Vec::new() }
    }

    /// Adds or updates an element with the given glyph name and record data.
    /// Returns whether an entry with that name was already present.
    pub fn set(&mut self, name: String, data: String) -> (overwritten: bool)
        requires
            old(self).wf(),
        ensures
            final(self)@ == old(self)@.insert(name@, data@),
            overwritten == old(self)@.dom().contains(name@),
            final(self).wf(),
    {
        let n = self.entries.len();
        let mut i: usize = 0;
        while i < n
            invariant
                n == self.entries@.len(),
                i <= n,
                self.entries@ == old(self).entries@,
                forall|k: int| 0 <= k < i ==> self.entries@[k].0@ != name@,
                forall|p: int, q: int|
                    0 <= p < q < self.entries@.len() ==> self.entries@[p].0@
                        != self.entries@[q].0@,
            decreases n - i,
        {
            if self.entries[i].0 == name {
                proof {
                    Self::lemma_entries_map_update(self.entries@, i as int, name@, data@);
                    Self::lemma_entries_map_contains(self.entries@, i as int);
                }
                let ghost before = self.entries@;
                self.entries[i] = (name, data);
                proof {
                    assert forall|p: int, q: int|
                        0 <= p < q < self.entries@.len() implies self.entries@[p].0@
                        != self.entries@[q].0@ by {
                        assert(self.entries@[p].0@ == before[p].0@);
                        assert(self.entries@[q].0@ == before[q].0@);
                    }
                }
                return true;
            }
            i += 1;
        }
        proof {
            Self::lemma_entries_map_absent(self.entries@, name@);
        }
        self.entries.push((name, data));
        proof {
            assert(self.entries@.drop_last() =~= old(self).entries@);
        }
        false
    }

    /// Adds or updates an element with the given glyph name and record data.
    /// It does the same as the `set` method.
    pub fn push(&mut self, name: String, data: String) -> (overwritten: bool)
        requires
            old(self).wf(),
        ensures
            final(self)@ == old(self)@.insert(name@, data@),
            overwritten == old(self)@.dom().contains(name@),
            final(self).wf(),
    {
        self.set(name, data)
    }

    /// Searches the store for the given glyph name and returns the
    /// corresponding record data.
    pub fn search(&self, name: &str) -> (r: Option<&str>)
        requires
            self.wf(),
        ensures
            match r {
                Some(data) => self@.dom().contains(name@) && data@ == self@[name@],
                None => !self@.dom().contains(name@),
            },
    {
        let key = String::from_str(name);
        let n = self.entries.len();
        let mut i: usize = 0;
        while i < n
            invariant
                n == self.entries@.len(),
                i <= n,
                key@ == name@,
                forall|k: int| 0 <= k < i ==> self.entries@[k].0@ != name@,
                forall|p: int, q: int|
                    0 <= p < q < self.entries@.len() ==> self.entries@[p].0@
                        != self.entries@[q].0@,
            decreases n - i,
        {
            if self.entries[i].0 == key {
                proof {
                    Self::lemma_entries_map_contains(self.entries@, i as int);
                }
                return Some(self.entries[i].1.as_str());
            }
            i += 1;
        }
        proof {
            Self::lemma_entries_map_absent(self.entries@, name@);
        }
        None
    }

    /// The number of distinct names in the store.
    pub fn len(&self) -> (n: usize)
        requires
            self.wf(),
        ensures
            n == self@.dom().len(),
    {
        proof {
            Self::lemma_entries_map_len(self.entries@);
        }
        self.entries.len()
    }

    /// A name that occurs at index `i` of a duplicate-free entry list is in
    /// the induced map, bound to the data stored beside it.
    proof fn lemma_entries_map_contains(entries: Seq<(String, String)>, i: int)
        requires
            0 <= i < entries.len(),
            forall|p: int, q: int|
                0 <= p < q < entries.len() ==> entries[p].0@ != entries[q].0@,
        ensures
            Self::entries_map(entries).dom().contains(entries[i].0@),
            Self::entries_map(entries)[entries[i].0@] == entries[i].1@,
        decreases entries.len(),
    {
        if i < entries.len() - 1 {
            Self::lemma_entries_map_contains(entries.drop_last(), i);
        }
    }

    /// A name that occurs nowhere in the entry list is not in the induced map.
    proof fn lemma_entries_map_absent(entries: Seq<(String, String)>, name: Seq<char>)
        requires
            forall|k: int| 0 <= k < entries.len() ==> entries[k].0@ != name,
        ensures
            !Self::entries_map(entries).dom().contains(name),
        decreases entries.len(),
    {
        if entries.len() > 0 {
            Self::lemma_entries_map_absent(entries.drop_last(), name);
        }
    }

    /// Replacing the data at index `i` updates the induced map at that name.
    proof fn lemma_entries_map_update(
        entries: Seq<(String, String)>,
        i: int,
        name: Seq<char>,
        data: Seq<char>,
    )
        requires
            0 <= i < entries.len(),
            entries[i].0@ == name,
            forall|p: int, q: int|
                0 <= p < q < entries.len() ==> entries[p].0@ != entries[q].0@,
        ensures
            forall|e: (String, String)|
                e.0@ == name && e.1@ == data ==> Self::entries_map(entries.update(i, e))
                    == Self::entries_map(entries).insert(name, data),
        decreases entries.len(),
    {
        assert forall|e: (String, String)|
            e.0@ == name && e.1@ == data implies Self::entries_map(entries.update(i, e))
            == Self::entries_map(entries).insert(name, data) by {
            let updated = entries.update(i, e);
            if i == entries.len() - 1 {
                assert(updated.drop_last() == entries.drop_last());
                assert_maps_equal!(
                    Self::entries_map(updated),
                    Self::entries_map(entries).insert(name, data)
                );
            } else {
                Self::lemma_entries_map_update(entries.drop_last(), i, name, data);
                assert(updated.drop_last() == entries.drop_last().update(i, e));
                assert(updated.last() == entries.last());
                assert(Self::entries_map(updated) == Self::entries_map(
                    entries.drop_last(),
                ).insert(name, data).insert(entries.last().0@, entries.last().1@));
                assert(entries.last().0@ != name);
                assert_maps_equal!(
                    Self::entries_map(entries.drop_last())
                        .insert(name, data)
                        .insert(entries.last().0@, entries.last().1@),
                    Self::entries_map(entries)
                        .insert(name, data)
                );
            }
        }
    }

    /// On a duplicate-free entry list the induced map has one binding per
    /// entry.
    proof fn lemma_entries_map_len(entries: Seq<(String, String)>)
        requires
            forall|p: int, q: int|
                0 <= p < q < entries.len() ==> entries[p].0@ != entries[q].0@,
        ensures
            Self::entries_map(entries).dom().len() == entries.len(),
            Self::entries_map(entries).dom().finite(),
        decreases entries.len(),
    {
        if entries.len() > 0 {
            Self::lemma_entries_map_len(entries.drop_last());
            Self::lemma_entries_map_absent(entries.drop_last(), entries.last().0@);
        }
    }
}

} // verus!
