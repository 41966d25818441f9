//! A key-value store with string keys.
//!
//! Backed by a vector of entries with pairwise distinct keys and viewed as a
//! `Map<Seq<char>, V>`.  `insert` overwrites: re-registration and identifier
//! collisions replace the previous entry.
use vstd::prelude::*;

verus! {

/// A mapping from strings to values of type `V`, with overwrite semantics.
pub struct StringMap<V> {
    entries: Vec<(String, V)>,
}

impl<V> View for StringMap<V> {
    type V = Map<Seq<char>, V>;

    closed spec fn view(&self) -> Map<Seq<char>, V> {
        map_of_entries(self.entries@)
    }
}

/// The map denoted by a sequence of entries; a later entry wins.
spec fn map_of_entries<V>(s: Seq<(String, V)>) -> Map<Seq<char>, V>
    decreases s.len(),
{
    if s.len() == 0 {
        Map::empty()
    } else {
        map_of_entries(s.drop_last()).insert(s.last().0@, s.last().1)
    }
}

/// The entry keys are pairwise distinct.
spec fn distinct_keys<V>(s: Seq<(String, V)>) -> bool {
    forall|i: int, j: int| 0 <= i < j < s.len() ==> s[i].0@ != s[j].0@
}

/// Each entry of a distinct-key sequence is in the denoted map.
proof fn lemma_map_of_entries_index<V>(s: Seq<(String, V)>, i: int)
    requires
        distinct_keys(s),
        0 <= i < s.len(),
    ensures
        map_of_entries(s).contains_key(s[i].0@),
        map_of_entries(s)[s[i].0@] == s[i].1,
    decreases s.len(),
{
    if i < s.len() - 1 {
        assert(distinct_keys(s.drop_last()));
        lemma_map_of_entries_index(s.drop_last(), i);
        assert(s.drop_last()[i] == s[i]);
        assert(s[i].0@ != s.last().0@);
    }
}

/// A key under which no entry stands is not in the denoted map.
proof fn lemma_map_of_entries_absent<V>(s: Seq<(String, V)>, key: Seq<char>)
    requires
        forall|j: int| 0 <= j < s.len() ==> s[j].0@ != key,
    ensures
        !map_of_entries(s).contains_key(key),
    decreases s.len(),
{
    if s.len() > 0 {
        lemma_map_of_entries_absent(s.drop_last(), key);
    }
}

/// Replacing the entry that holds a key denotes inserting under that key.
proof fn lemma_map_of_entries_update<V>(s: Seq<(String, V)>, i: int, entry: (String, V))
    requires
        distinct_keys(s),
        0 <= i < s.len(),
        entry.0@ == s[i].0@,
    ensures
        map_of_entries(s.update(i, entry)) == map_of_entries(s).insert(entry.0@, entry.1),
    decreases s.len(),
{
    let t = s.update(i, entry);
    if i == s.len() - 1 {
        assert(t.drop_last() =~= s.drop_last());
        assert(t.last() == entry);
        assert(map_of_entries(t) =~= map_of_entries(s).insert(entry.0@, entry.1));
    } else {
        assert(t.drop_last() =~= s.drop_last().update(i, entry));
        assert(t.last() == s.last());
        assert(distinct_keys(s.drop_last()));
        assert(s.drop_last()[i] == s[i]);
        lemma_map_of_entries_update(s.drop_last(), i, entry);
        assert(s.last().0@ != entry.0@);
        assert(map_of_entries(t) =~= map_of_entries(s).insert(entry.0@, entry.1));
    }
}

impl<V> StringMap<V> {
    /// The keys of the backing entries are pairwise distinct.
    pub closed spec fn wf(self) -> bool {
        distinct_keys(self.entries@)
    }

    /// The empty store.
    pub fn new() -> (r: Self)
        ensures
            r@ == Map::<Seq<char>, V>::empty(),
            r.wf(),
    {
        let r = StringMap { entries: Vec::new() };
        proof {
            assert(r.entries@.len() == 0);
        }
        r
    }

    /// The value stored under `key`, or `None` if the key is absent.
    pub fn get<'a>(&'a self, key: &String) -> (r: Option<&'a V>)
        requires
            self.wf(),
        ensures
            match r {
                Some(v) => self@.contains_key(key@) && *v == self@[key@],
                None => !self@.contains_key(key@),
            },
    {
        let mut i: usize = 0;
        while i < self.entries.len()
            invariant
                self.wf(),
                i <= self.entries.len(),
                forall|j: int| 0 <= j < i ==> self.entries@[j].0@ != key@,
            decreases self.entries.len() - i,
        {
            if self.entries[i].0 == *key {
                proof {
                    lemma_map_of_entries_index(self.entries@, i as int);
                }
                return Some(&self.entries[i].1);
            }
            i = i + 1;
        }
        proof {
            lemma_map_of_entries_absent(self.entries@, key@);
        }
        None
    }

    /// Stores `value` under `key`, replacing any previous value.
    pub fn insert(&mut self, key: String, value: V)
        requires
            old(self).wf(),
        ensures
            final(self).wf(),
            final(self)@ == old(self)@.insert(key@, value),
    {
        let mut i: usize = 0;
        while i < self.entries.len()
            invariant
                self.wf(),
                self == old(self),
                i <= self.entries.len(),
                forall|j: int| 0 <= j < i ==> self.entries@[j].0@ != key@,
            decreases self.entries.len() - i,
        {
            if self.entries[i].0 == key {
                proof {
                    lemma_map_of_entries_update(self.entries@, i as int, (key, value));
                }
                self.entries[i] = (key, value);
                assert(self.wf());
                return;
            }
            i = i + 1;
        }
        proof {
            lemma_map_of_entries_absent(self.entries@, key@);
        }
        self.entries.push((key, value));
        proof {
            assert(self.entries@.drop_last() =~= old(self).entries@);
            assert(self.entries@.last() == (key, value));
            assert(distinct_keys(self.entries@));
            assert(self@ =~= old(self)@.insert(key@, value));
        }
    }
}

} // verus!
