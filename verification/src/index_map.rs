//! Maps from locals that remember the order in which their keys were added.

use crate::ast::Local;
use vstd::prelude::*;

verus! {

/// The keys of a list of entries.
pub open spec fn entry_keys<V>(entries: Seq<(Local, V)>) -> Seq<Local> {
    entries.map_values(|e: (Local, V)| e.0)
}

/// Where `key` stands among the entries.
pub open spec fn key_index<V>(entries: Seq<(Local, V)>, key: Local) -> Option<int> {
    entry_keys(entries).index_of_first(key)
}

/// The entries after `value` was put under `key`: in place of the value that was there,
/// at the end where there was none.
pub open spec fn with_entry<V>(entries: Seq<(Local, V)>, key: Local, value: V) -> Seq<(Local, V)> {
    match key_index(entries, key) {
        Some(i) => entries.update(i, (key, value)),
        None => entries.push((key, value)),
    }
}

/// A map from locals whose entries keep the order in which their keys first came.
#[derive(Debug)]
pub struct IndexMap<V> {
    entries: Vec<(Local, V)>,
}

impl<V> View for IndexMap<V> {
    type V = Seq<(Local, V)>;

    closed spec fn view(&self) -> Seq<(Local, V)> {
        self.entries@
    }
}

impl<V> IndexMap<V> {
    /// No key occurs twice.
    #[verifier::type_invariant]
    pub closed spec fn distinct_keys(self) -> bool {
        entry_keys(self.entries@).no_duplicates()
    }

    /// The empty map.
    pub fn new() -> (r: Self)
        ensures
            r@ == Seq::<(Local, V)>::empty(),
    {
        IndexMap { entries: Vec::new() }
    }

    /// How many keys there are. No key occurs twice.
    pub fn len(&self) -> (r: usize)
        ensures
            r == self@.len(),
            entry_keys(self@).no_duplicates(),
    {
        proof {
            use_type_invariant(self);
        }
        self.entries.len()
    }

    /// Where `key` stands in the order of keys.
    pub fn get_index_of(&self, key: Local) -> (r: Option<usize>)
        ensures
            match r {
                Some(i) => i < self@.len() && key_index(self@, key) == Some(i as int),
                None => key_index(self@, key) is None,
            },
    {
        let mut i: usize = 0;
        while i < self.entries.len()
            invariant
                i <= self@.len(),
                forall|j: int| 0 <= j < i ==> entry_keys(self@)[j] != key,
            decreases self@.len() - i,
        {
            if self.entries[i].0 == key {
                proof {
                    assert(entry_keys(self@)[i as int] == key);
                    entry_keys(self@).index_of_first_ensures(key);
                }
                return Some(i);
            }
            i = i + 1;
        }
        proof {
            entry_keys(self@).index_of_first_ensures(key);
        }
        None
    }

    /// Entry `i`.
    pub fn get_index(&self, i: usize) -> (r: Option<(Local, &V)>)
        ensures
            match r {
                Some((key, value)) => i < self@.len() && self@[i as int] == (key, *value),
                None => i >= self@.len(),
            },
    {
        if i < self.entries.len() {
            let entry = &self.entries[i];
            Some((entry.0, &entry.1))
        } else {
            None
        }
    }

    /// Puts `value` under `key`. A key that is there already keeps its place.
    pub fn insert(&mut self, key: Local, value: V)
        ensures
            final(self)@ == with_entry(old(self)@, key, value),
    {
        proof {
            use_type_invariant(&*self);
        }
        let at: Option<usize> = self.get_index_of(key);
        proof {
            entry_keys(self@).index_of_first_ensures(key);
        }
        let mut entries: Vec<(Local, V)> = Vec::new();
        core::mem::swap(&mut entries, &mut self.entries);
        let ghost before = entries@;
        match at {
            Some(i) => {
                entries.set(i, (key, value));
                assert(entry_keys(entries@) =~= entry_keys(before));
            },
            None => {
                entries.push((key, value));
                assert(entry_keys(entries@) =~= entry_keys(before).push(key));
            },
        }
        self.entries = entries;
    }
}

impl<V> Default for IndexMap<V> {
    /// The empty map.
    fn default() -> (r: Self)
        ensures
            r@ == Seq::<(Local, V)>::empty(),
    {
        Self::new()
    }
}

/// A key stands where it first occurs.
pub proof fn law_key_index<V>(entries: Seq<(Local, V)>, key: Local)
    ensures
        match key_index(entries, key) {
            Some(i) => {
                &&& 0 <= i < entries.len()
                &&& entries[i].0 == key
                &&& forall|j: int| 0 <= j < i ==> (#[trigger] entries[j]).0 != key
            },
            None => forall|j: int| 0 <= j < entries.len() ==> (#[trigger] entries[j]).0 != key,
        },
{
    let keys = entry_keys(entries);
    keys.index_of_first_ensures(key);
    assert forall|j: int| 0 <= j < entries.len() implies (#[trigger] entries[j]).0 == keys[j] by {
    }
    if !keys.contains(key) {
        assert forall|j: int| 0 <= j < entries.len() implies (#[trigger] entries[j]).0 != key by {
            assert(keys[j] == entries[j].0);
        }
    }
}

/// A value that is put under a key is found there. A key that was there keeps its place, a
/// new one comes last, and all other entries stay as they are.
pub proof fn law_with_entry<V>(entries: Seq<(Local, V)>, key: Local, value: V)
    ensures
        ({
            let after = with_entry(entries, key, value);
            match key_index(entries, key) {
                Some(i) => {
                    &&& after.len() == entries.len()
                    &&& after[i] == (key, value)
                    &&& forall|j: int|
                        0 <= j < entries.len() && j != i ==> #[trigger] after[j] == entries[j]
                },
                None => {
                    &&& after.len() == entries.len() + 1
                    &&& after.last() == (key, value)
                    &&& after.drop_last() == entries
                },
            }
        }),
{
    law_key_index(entries, key);
    if key_index(entries, key) is None {
        assert(with_entry(entries, key, value).drop_last() =~= entries);
    }
}

} // verus!
