//! The index: the keys that are live, each with its value.
//!
//! A hash map finds the place of a key in a vector of pairs, so a lookup takes
//! one probe and the pairs can still be walked one by one.

use vstd::hash_map::StringHashMap;
use vstd::prelude::*;
use vstd::seq_lib::seq_to_set_is_finite;

verus! {

/// The value that a key is bound to in an index, if any.
pub open spec fn lookup(index: Map<Seq<char>, Seq<char>>, key: Seq<char>) -> Option<Seq<char>> {
    if index.contains_key(key) {
        Some(index[key])
    } else {
        None
    }
}

/// The text of a string that may be missing.
pub open spec fn text_of(value: Option<String>) -> Option<Seq<char>> {
    match value {
        Some(text) => Some(text@),
        None => None,
    }
}

/// Whether `pairs` lists the bindings of `index`, each of them once.
pub open spec fn lists(pairs: Seq<(Seq<char>, Seq<char>)>, index: Map<Seq<char>, Seq<char>>) -> bool {
    &&& forall|i: int|
        0 <= i < pairs.len() ==> index.contains_key(#[trigger] pairs[i].0) && index[pairs[i].0]
            == pairs[i].1
    &&& forall|i: int, j: int|
        0 <= i < j < pairs.len() ==> (#[trigger] pairs[i]).0 != (#[trigger] pairs[j]).0
    &&& forall|key: Seq<char>| #[trigger]
        index.contains_key(key) ==> exists|i: int| 0 <= i < pairs.len() && pairs[i].0 == key
}

/// The keys of a sequence of pairs.
pub open spec fn keys_of(pairs: Seq<(Seq<char>, Seq<char>)>) -> Seq<Seq<char>> {
    pairs.map_values(|pair: (Seq<char>, Seq<char>)| pair.0)
}

/// A map that some sequence lists is finite and has as many keys as the
/// sequence has pairs.
pub proof fn lemma_lists_len(pairs: Seq<(Seq<char>, Seq<char>)>, index: Map<Seq<char>, Seq<char>>)
    requires
        lists(pairs, index),
    ensures
        index.dom().finite(),
        index.len() == pairs.len(),
{
    let keys = keys_of(pairs);
    assert(keys.no_duplicates());
    keys.unique_seq_to_set();
    seq_to_set_is_finite(keys);
    assert(keys.to_set() =~= index.dom()) by {
        assert forall|key: Seq<char>| keys.to_set().contains(key) implies index.dom().contains(
            key,
        ) by {
            let i = choose|i: int| 0 <= i < keys.len() && keys[i] == key;
            assert(index.contains_key(pairs[i].0));
        }
        assert forall|key: Seq<char>| index.dom().contains(key) implies keys.to_set().contains(
            key,
        ) by {
            let i = choose|i: int| 0 <= i < pairs.len() && pairs[i].0 == key;
            assert(keys[i] == key);
        }
    }
}

/// The live keys and their values.
pub struct Index {
    /// The place in `entries` of each live key.
    slots: StringHashMap<usize>,
    /// The live pairs, a key at most once.
    entries: Vec<(String, String)>,
}

impl View for Index {
    type V = Map<Seq<char>, Seq<char>>;

    closed spec fn view(&self) -> Map<Seq<char>, Seq<char>> {
        Map::new(
            |key: Seq<char>| self.slots@.contains_key(key),
            |key: Seq<char>| self.entries@[self.slots@[key] as int].1@,
        )
    }
}

impl Index {
    /// The hash map and the vector agree: each pair stands where the map says
    /// its key stands, and the map knows no other key.
    pub closed spec fn wf(&self) -> bool {
        &&& forall|i: int|
            0 <= i < self.entries@.len() ==> {
                &&& self.slots@.contains_key((#[trigger] self.entries@[i]).0@)
                &&& self.slots@[self.entries@[i].0@] == i
            }
        &&& forall|key: Seq<char>| #[trigger]
            self.slots@.contains_key(key) ==> {
                &&& self.slots@[key] < self.entries@.len()
                &&& self.entries@[self.slots@[key] as int].0@ == key
            }
    }

    /// The pairs in the order in which `entry` hands them out.
    pub closed spec fn listing(&self) -> Seq<(Seq<char>, Seq<char>)> {
        self.entries.deep_view()
    }

    /// The listing holds each binding of the index once.
    pub proof fn lemma_listing(&self)
        requires
            self.wf(),
        ensures
            lists(self.listing(), self@),
            self@.dom().finite(),
            self@.len() == self.listing().len(),
    {
        let pairs = self.listing();
        assert forall|key: Seq<char>| #[trigger] self@.contains_key(key) implies exists|i: int|
            0 <= i < pairs.len() && pairs[i].0 == key by {
            let i = self.slots@[key] as int;
            assert(pairs[i].0 == key);
        }
        lemma_lists_len(pairs, self@);
    }

    /// An index without keys.
    pub fn new() -> (index: Index)
        ensures
            index.wf(),
            index@ == Map::<Seq<char>, Seq<char>>::empty(),
            index.listing().len() == 0,
    {
        Index { slots: StringHashMap::new(), entries: Vec::new() }
    }

    /// The number of live keys.
    pub fn len(&self) -> (n: usize)
        requires
            self.wf(),
        ensures
            n == self@.len(),
            n == self.listing().len(),
    {
        proof {
            self.lemma_listing();
        }
        self.entries.len()
    }

    /// The value of a key, if the key is live.
    pub fn get(&self, key: &str) -> (res: Option<&String>)
        requires
            self.wf(),
        ensures
            match res {
                Some(value) => lookup(self@, key@) == Some(value@),
                None => lookup(self@, key@) is None,
            },
    {
        match self.slots.get(key) {
            Some(slot) => Some(&self.entries[*slot].1),
            None => None,
        }
    }

    /// The pair at a place of the listing.
    pub fn entry(&self, i: usize) -> (pair: (&String, &String))
        requires
            i < self.listing().len(),
        ensures
            (pair.0@, pair.1@) == self.listing()[i as int],
    {
        let pair = &self.entries[i];
        (&pair.0, &pair.1)
    }

    /// Binds a key to a value, whatever the key was bound to.
    pub fn insert(&mut self, key: String, value: String)
        requires
            old(self).wf(),
        ensures
            final(self).wf(),
            final(self)@ == old(self)@.insert(key@, value@),
    {
        let found: Option<usize> = match self.slots.get(key.as_str()) {
            Some(slot) => Some(*slot),
            None => None,
        };
        match found {
            Some(slot) => {
                self.entries.set(slot, (key, value));
            },
            None => {
                let slot: usize = self.entries.len();
                self.slots.insert(key.clone(), slot);
                self.entries.push((key, value));
            },
        }
    }

    /// Unbinds a key and returns the value that it was bound to, if it was
    /// live.
    pub fn remove(&mut self, key: &str) -> (res: Option<String>)
        requires
            old(self).wf(),
        ensures
            final(self).wf(),
            text_of(res) == lookup(old(self)@, key@),
            final(self)@ == old(self)@.remove(key@),
            res is None ==> *final(self) == *old(self),
    {
        let slot: usize = match self.slots.get(key) {
            Some(slot) => *slot,
            None => {
                return None;
            },
        };
        let last: usize = self.entries.len() - 1;
        let pair = self.entries.swap_remove(slot);
        self.slots.remove(key);
        if slot != last {
            let moved: String = self.entries[slot].0.clone();
            self.slots.insert(moved, slot);
        }
        Some(pair.1)
    }
}

} // verus!
