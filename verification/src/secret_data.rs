//! The data of a secret object, modelled as an association list from field
//! name to opaque byte value and viewed as a map. Source and destination
//! secrets, and the pending update set the diff engine computes, all use
//! this shape.
use vstd::prelude::*;

verus! {

/// The map a sequence of (name, value) views stands for; a later entry
/// with the same name overrides an earlier one.
pub open spec fn entries_map(es: Seq<(Seq<char>, Seq<u8>)>) -> Map<Seq<char>, Seq<u8>>
    decreases es.len(),
{
    if es.len() == 0 {
        Map::empty()
    } else {
        entries_map(es.drop_last()).insert(es.last().0, es.last().1)
    }
}

/// A key-value bag of opaque byte-string values, with pairwise-distinct
/// keys. Its view is the map from field name to value.
#[derive(Debug)]
pub struct SecretData {
    entries: Vec<(String, Vec<u8>)>,
}

impl SecretData {
    /// The map a sequence of entries stands for; a later entry with the
    /// same key overrides an earlier one.
    pub closed spec fn map_of(entries: Seq<(String, Vec<u8>)>) -> Map<Seq<char>, Seq<u8>>
        decreases entries.len(),
    {
        if entries.len() == 0 {
            Map::empty()
        } else {
            Self::map_of(entries.drop_last()).insert(entries.last().0@, entries.last().1@)
        }
    }

    /// The map this data stands for.
    pub closed spec fn view(&self) -> Map<Seq<char>, Seq<u8>> {
        Self::map_of(self.entries@)
    }

    /// Keys are pairwise distinct.
    pub closed spec fn well_formed(&self) -> bool {
        forall|i: int, j: int|
            0 <= i < j < self.entries@.len() ==> self.entries@[i].0@ != self.entries@[j].0@
    }

    /// The views of a sequence of entries, in order.
    pub closed spec fn entry_views(entries: Seq<(String, Vec<u8>)>) -> Seq<(Seq<char>, Seq<u8>)>
        decreases entries.len(),
    {
        if entries.len() == 0 {
            Seq::empty()
        } else {
            Self::entry_views(entries.drop_last()).push(
                (entries.last().0@, entries.last().1@),
            )
        }
    }

    proof fn lemma_entry_views(entries: Seq<(String, Vec<u8>)>)
        ensures
            Self::entry_views(entries).len() == entries.len(),
            forall|i: int|
                0 <= i < entries.len() ==> #[trigger] Self::entry_views(entries)[i] == (
                entries[i].0@,
                entries[i].1@,
                ),
        decreases entries.len(),
    {
        if entries.len() > 0 {
            Self::lemma_entry_views(entries.drop_last());
        }
    }

    /// The entries in insertion order, as (name, value) views.
    pub closed spec fn entry_seq(&self) -> Seq<(Seq<char>, Seq<u8>)> {
        Self::entry_views(self.entries@)
    }

    proof fn lemma_map_of_is_entries_map(entries: Seq<(String, Vec<u8>)>)
        ensures
            Self::map_of(entries) == entries_map(Self::entry_views(entries)),
        decreases entries.len(),
    {
        if entries.len() == 0 {
        } else {
            Self::lemma_map_of_is_entries_map(entries.drop_last());
            let views = Self::entry_views(entries);
            assert(views.drop_last() =~= Self::entry_views(entries.drop_last()));
        }
    }

    /// The map this data stands for is the map its entry sequence stands
    /// for.
    pub proof fn lemma_view_is_entries_map(&self)
        ensures
            self@ == entries_map(self.entry_seq()),
    {
        Self::lemma_map_of_is_entries_map(self.entries@);
    }

    pub fn new() -> (r: Self)
        ensures
            r.well_formed(),
            r@ == Map::<Seq<char>, Seq<u8>>::empty(),
            r.entry_seq() == Seq::<(Seq<char>, Seq<u8>)>::empty(),
    {
        let entries: Vec<(String, Vec<u8>)> = Vec::new();
        let r = SecretData { entries };
        proof {
            assert(r.entry_seq() =~= Seq::<(Seq<char>, Seq<u8>)>::empty());
        }
        r
    }

    /// If no entry carries the key, the map has no such key.
    proof fn lemma_no_match(entries: Seq<(String, Vec<u8>)>, key: Seq<char>)
        requires
            forall|j: int| 0 <= j < entries.len() ==> entries[j].0@ != key,
        ensures
            !Self::map_of(entries).contains_key(key),
        decreases entries.len(),
    {
        if entries.len() > 0 {
            Self::lemma_no_match(entries.drop_last(), key);
        }
    }

    /// If the entry at `i` is the last one carrying its key, the map sends
    /// that key to its value.
    proof fn lemma_last_match(entries: Seq<(String, Vec<u8>)>, i: int)
        requires
            0 <= i < entries.len(),
            forall|j: int| i < j < entries.len() ==> entries[j].0@ != entries[i].0@,
        ensures
            Self::map_of(entries).contains_key(entries[i].0@),
            Self::map_of(entries)[entries[i].0@] == entries[i].1@,
        decreases entries.len(),
    {
        if i == entries.len() - 1 {
        } else {
            Self::lemma_last_match(entries.drop_last(), i);
        }
    }

    /// Replacing the last entry that carries a key acts on the map as an
    /// insert of that key.
    proof fn lemma_update_match(entries: Seq<(String, Vec<u8>)>, i: int, p: (String, Vec<u8>))
        requires
            0 <= i < entries.len(),
            entries[i].0@ == p.0@,
            forall|j: int| i < j < entries.len() ==> entries[j].0@ != p.0@,
        ensures
            Self::map_of(entries.update(i, p)) == Self::map_of(entries).insert(p.0@, p.1@),
        decreases entries.len(),
    {
        let updated = entries.update(i, p);
        if i == entries.len() - 1 {
            assert(updated.drop_last() =~= entries.drop_last());
            assert(Self::map_of(updated) =~= Self::map_of(entries).insert(p.0@, p.1@));
        } else {
            Self::lemma_update_match(entries.drop_last(), i, p);
            assert(updated.drop_last() =~= entries.drop_last().update(i, p));
            assert(updated.last() == entries.last());
            assert(Self::map_of(updated) =~= Self::map_of(entries).insert(p.0@, p.1@));
        }
    }

    /// Look a field up by name.
    pub fn get(&self, key: &String) -> (r: Option<&Vec<u8>>)
        requires
            self.well_formed(),
        ensures
            match r {
                Some(v) => self@.contains_key(key@) && v@ == self@[key@],
                None => !self@.contains_key(key@),
            },
    {
        let n = self.entries.len();
        let mut i: usize = 0;
        while i < n
            invariant
                n == self.entries@.len(),
                0 <= i <= n,
                self.well_formed(),
                forall|j: int| 0 <= j < i ==> self.entries@[j].0@ != key@,
            decreases n - i,
        {
            if self.entries[i].0 == *key {
                proof {
                    Self::lemma_last_match(self.entries@, i as int);
                }
                return Some(&self.entries[i].1);
            }
            i += 1;
        }
        proof {
            Self::lemma_no_match(self.entries@, key@);
        }
        None
    }

    /// Whether the map holds the key.
    pub fn contains_key(&self, key: &String) -> (r: bool)
        requires
            self.well_formed(),
        ensures
            r == self@.contains_key(key@),
    {
        self.get(key).is_some()
    }

    /// Insert a field, replacing the value if the name is already present.
    pub fn set(&mut self, key: String, value: Vec<u8>)
        requires
            old(self).well_formed(),
        ensures
            final(self).well_formed(),
            final(self)@ == old(self)@.insert(key@, value@),
    {
        let n = self.entries.len();
        let mut i: usize = 0;
        while i < n
            invariant
                n == self.entries@.len(),
                0 <= i <= n,
                *self == *old(self),
                self.well_formed(),
                forall|j: int| 0 <= j < i ==> self.entries@[j].0@ != key@,
            decreases n - i,
        {
            if self.entries[i].0 == key {
                let ghost prev = self.entries@;
                proof {
                    Self::lemma_update_match(prev, i as int, (key, value));
                }
                self.entries[i] = (key, value);
                proof {
                    assert(self.entries@ =~= prev.update(i as int, (key, value)));
                    assert forall|j: int| 0 <= j < self.entries@.len() implies self.entries@[j].0@
                        == prev[j].0@ by {
                        if j == i {
                            assert(prev[j].0@ == key@);
                        }
                    }
                }
                return ;
            }
            i += 1;
        }
        self.entries.push((key, value));
        proof {
            assert(self.entries@.drop_last() =~= old(self).entries@);
            assert(self@ =~= old(self)@.insert(key@, value@));
        }
    }

    /// Whether the map is empty.
    pub fn is_empty(&self) -> (r: bool)
        ensures
            r == (self@ == Map::<Seq<char>, Seq<u8>>::empty()),
    {
        proof {
            if self.entries@.len() > 0 {
                let last = self.entries@.last();
                assert(self@.contains_key(last.0@));
                assert(self@ != Map::<Seq<char>, Seq<u8>>::empty());
            } else {
                assert(self@ =~= Map::<Seq<char>, Seq<u8>>::empty());
            }
        }
        self.entries.len() == 0
    }

    /// The number of entries.
    pub fn len(&self) -> (r: usize)
        ensures
            r == self.entry_seq().len(),
    {
        proof {
            Self::lemma_entry_views(self.entries@);
        }
        self.entries.len()
    }

    /// The entry at a position, in insertion order.
    pub fn entry_at(&self, i: usize) -> (r: (&String, &Vec<u8>))
        requires
            i < self.entry_seq().len(),
        ensures
            r.0@ == self.entry_seq()[i as int].0,
            r.1@ == self.entry_seq()[i as int].1,
    {
        proof {
            Self::lemma_entry_views(self.entries@);
        }
        (&self.entries[i].0, &self.entries[i].1)
    }

    /// Merge another data set into this one, the other's entries taking
    /// precedence: merge-patch semantics applied to in-memory data.
    pub fn merge_from(&mut self, other: &SecretData)
        requires
            old(self).well_formed(),
        ensures
            final(self).well_formed(),
            final(self)@ == old(self)@.union_prefer_right(other@),
    {
        let ghost es = other.entry_seq();
        let n = other.len();
        let mut i: usize = 0;
        proof {
            assert(es.take(0) =~= Seq::<(Seq<char>, Seq<u8>)>::empty());
            assert(self@ =~= old(self)@.union_prefer_right(entries_map(es.take(0))));
        }
        while i < n
            invariant
                n == es.len(),
                es == other.entry_seq(),
                0 <= i <= n,
                self.well_formed(),
                self@ == old(self)@.union_prefer_right(entries_map(es.take(i as int))),
            decreases n - i,
        {
            let (k, v) = other.entry_at(i);
            self.set(k.clone(), v.clone());
            proof {
                assert(es.take(i + 1).drop_last() =~= es.take(i as int));
                assert(es.take(i + 1).last() == es[i as int]);
                assert(self@ =~= old(self)@.union_prefer_right(entries_map(es.take(i + 1))));
            }
            i += 1;
        }
        proof {
            assert(es.take(n as int) =~= es);
            other.lemma_view_is_entries_map();
        }
    }
}

} // verus!
