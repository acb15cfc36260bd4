//! A small map from keys that are compared one by one.

use vstd::prelude::*;

use crate::address::SocketAddress;
use crate::text::same_text;

verus! {

/// Keys that can be compared.
pub trait AssocKey: View + Sized {
    fn same_key(&self, other: &Self) -> (same: bool)
        ensures
            same == (self@ == other@),
    ;
}

impl AssocKey for String {
    fn same_key(&self, other: &Self) -> (same: bool) {
        same_text(self.as_str(), other.as_str())
    }
}

impl AssocKey for SocketAddress {
    fn same_key(&self, other: &Self) -> (same: bool) {
        self.same(other)
    }
}

/// The value of the last entry with a key.
pub open spec fn entry_of<K: AssocKey, V>(entries: Seq<(K, V)>, key: <K as View>::V) -> Option<V>
    decreases entries.len(),
{
    if entries.len() == 0 {
        None
    } else if entries.last().0@ == key {
        Some(entries.last().1)
    } else {
        entry_of(entries.drop_last(), key)
    }
}

/// No two entries have the same key.
pub open spec fn keys_are_unique<K: AssocKey, V>(entries: Seq<(K, V)>) -> bool {
    forall|i: int, j: int|
        0 <= i < j < entries.len() ==> (#[trigger] entries[i]).0@ != (#[trigger] entries[j]).0@
}

/// Every entry as a map.
pub open spec fn entries_map<K: AssocKey, V>(entries: Seq<(K, V)>) -> Map<<K as View>::V, V> {
    Map::new(
        |key: <K as View>::V| entry_of(entries, key) is Some,
        |key: <K as View>::V| entry_of(entries, key)->Some_0,
    )
}

pub proof fn lemma_entry_of<K: AssocKey, V>(entries: Seq<(K, V)>, key: <K as View>::V)
    ensures
        match entry_of(entries, key) {
            None => forall|i: int| 0 <= i < entries.len() ==> (#[trigger] entries[i]).0@ != key,
            Some(value) => exists|i: int|
                0 <= i < entries.len() && (#[trigger] entries[i]).0@ == key && entries[i].1
                    == value,
        },
    decreases entries.len(),
{
    if entries.len() > 0 {
        if entries.last().0@ != key {
            let front = entries.drop_last();
            lemma_entry_of(front, key);
            assert forall|i: int| 0 <= i < front.len() implies front[i] == entries[i] by {}
            if entry_of(front, key) is Some {
                let i = choose|i: int|
                    0 <= i < front.len() && (#[trigger] front[i]).0@ == key && front[i].1
                        == entry_of(front, key)->Some_0;
                assert(entries[i].0@ == key);
            }
        } else {
            assert(entries[entries.len() - 1].0@ == key);
        }
    }
}

/// Where keys are unique, the entry at hand is the entry of its key.
pub proof fn lemma_entry_is<K: AssocKey, V>(entries: Seq<(K, V)>, index: int)
    requires
        keys_are_unique(entries),
        0 <= index < entries.len(),
    ensures
        entry_of(entries, entries[index].0@) == Some(entries[index].1),
{
    lemma_entry_of(entries, entries[index].0@);
    let key = entries[index].0@;
    assert(entry_of(entries, key) is Some);
    let i = choose|i: int|
        0 <= i < entries.len() && (#[trigger] entries[i]).0@ == key && entries[i].1 == entry_of(
            entries,
            key,
        )->Some_0;
    if i < index {
        assert(entries[i].0@ != entries[index].0@);
    } else if i > index {
        assert(entries[index].0@ != entries[i].0@);
    }
}

/// A map whose keys are compared one by one.
pub struct AssocMap<K: AssocKey, V> {
    entries: Vec<(K, V)>,
}

impl<K: AssocKey, V> View for AssocMap<K, V> {
    type V = Map<<K as View>::V, V>;

    closed spec fn view(&self) -> Map<<K as View>::V, V> {
        entries_map(self.entries@)
    }
}

impl<K: AssocKey, V> AssocMap<K, V> {
    pub closed spec fn wf(&self) -> bool {
        keys_are_unique(self.entries@)
    }

    pub fn new() -> (map: Self)
        ensures
            map.wf(),
            map@ == Map::<<K as View>::V, V>::empty(),
    {
        let map = AssocMap { entries: Vec::new() };
        assert(map@ =~= Map::<<K as View>::V, V>::empty());
        map
    }

    fn index_of(&self, key: &K) -> (result: Option<usize>)
        ensures
            match result {
                Some(index) => index < self.entries@.len() && self.entries@[index as int].0@
                    == key@,
                None => forall|i: int|
                    0 <= i < self.entries@.len() ==> (#[trigger] self.entries@[i]).0@ != key@,
            },
    {
        let mut index: usize = 0;
        while index < self.entries.len()
            invariant
                index <= self.entries@.len(),
                forall|i: int|
                    0 <= i < index ==> (#[trigger] self.entries@[i]).0@ != key@,
            decreases self.entries@.len() - index,
        {
            if self.entries[index].0.same_key(key) {
                return Some(index);
            }
            index += 1;
        }
        None
    }

    pub fn get(&self, key: &K) -> (value: Option<&V>)
        requires
            self.wf(),
        ensures
            match value {
                Some(value) => self@.contains_key(key@) && *value == self@[key@],
                None => !self@.contains_key(key@),
            },
    {
        proof {
            lemma_entry_of(self.entries@, key@);
        }
        match self.index_of(key) {
            Some(index) => {
                proof {
                    lemma_entry_is(self.entries@, index as int);
                }
                Some(&self.entries[index].1)
            },
            None => None,
        }
    }

    pub fn contains(&self, key: &K) -> (result: bool)
        requires
            self.wf(),
        ensures
            result == self@.contains_key(key@),
    {
        self.get(key).is_some()
    }

    /// Sets the value of a key. Returns whether the key is new.
    pub fn insert(&mut self, key: K, value: V) -> (is_new: bool)
        requires
            old(self).wf(),
        ensures
            final(self).wf(),
            final(self)@ == old(self)@.insert(key@, value),
            is_new == !old(self)@.contains_key(key@),
    {
        let ghost before = self.entries@;
        let ghost name = key@;
        proof {
            lemma_entry_of(before, name);
        }
        match self.index_of(&key) {
            Some(index) => {
                proof {
                    lemma_entry_is(before, index as int);
                }
                self.entries.set(index, (key, value));
                proof {
                    let after = self.entries@;
                    assert(keys_are_unique(after)) by {
                        assert forall|i: int, j: int| 0 <= i < j < after.len() implies (
                        #[trigger] after[i]).0@ != (#[trigger] after[j]).0@ by {
                            assert(before[i].0@ != before[j].0@);
                        }
                    }
                    lemma_entry_is(after, index as int);
                    assert forall|other: <K as View>::V| other != name implies entry_of(after, other)
                        == entry_of(before, other) by {
                        lemma_entry_of(before, other);
                        lemma_entry_of(after, other);
                        if entry_of(before, other) is Some {
                            let i = choose|i: int|
                                0 <= i < before.len() && (#[trigger] before[i]).0@ == other
                                    && before[i].1 == entry_of(before, other)->Some_0;
                            assert(after[i] == before[i]);
                            lemma_entry_is(after, i);
                        } else if entry_of(after, other) is Some {
                            let i = choose|i: int|
                                0 <= i < after.len() && (#[trigger] after[i]).0@ == other
                                    && after[i].1 == entry_of(after, other)->Some_0;
                            assert(before[i] == after[i]);
                        }
                    }
                    assert(self@ =~= old(self)@.insert(name, value));
                }
                false
            },
            None => {
                self.entries.push((key, value));
                proof {
                    let after = self.entries@;
                    assert(after.drop_last() =~= before);
                    assert(keys_are_unique(after)) by {
                        assert forall|i: int, j: int| 0 <= i < j < after.len() implies (
                        #[trigger] after[i]).0@ != (#[trigger] after[j]).0@ by {
                            assert(after[i] == before[i]);
                            if j < before.len() {
                                assert(after[j] == before[j]);
                            }
                        }
                    }
                    assert(self@ =~= old(self)@.insert(name, value));
                }
                true
            },
        }
    }

    /// The number of keys.
    pub fn len(&self) -> (count: usize)
        requires
            self.wf(),
        ensures
            count == self.entry_list().len(),
    {
        self.entries.len()
    }

    /// The keys and values in the order in which the keys were first set.
    pub closed spec fn entry_list(&self) -> Seq<(K, V)> {
        self.entries@
    }

    /// The entry at an index.
    pub fn entry(&self, index: usize) -> (entry: (&K, &V))
        requires
            self.wf(),
            index < self.entry_list().len(),
        ensures
            *entry.0 == self.entry_list()[index as int].0,
            *entry.1 == self.entry_list()[index as int].1,
            self@.contains_key(entry.0@) && self@[entry.0@] == *entry.1,
    {
        proof {
            lemma_entry_is(self.entries@, index as int);
        }
        (&self.entries[index].0, &self.entries[index].1)
    }

    /// The entries are the map's, each key once.
    pub proof fn lemma_entry_list(&self)
        requires
            self.wf(),
        ensures
            keys_are_unique(self.entry_list()),
            forall|key: <K as View>::V| #[trigger]
                self@.contains_key(key) <==> exists|i: int|
                    0 <= i < self.entry_list().len() && (#[trigger] self.entry_list()[i]).0@
                        == key,
    {
        assert forall|key: <K as View>::V| #[trigger] self@.contains_key(key) <==> exists|i: int|
            0 <= i < self.entry_list().len() && (#[trigger] self.entry_list()[i]).0@ == key by {
            let entries = self.entries@;
            lemma_entry_of(entries, key);
            if entry_of(entries, key) is Some {
                let i = choose|i: int|
                    0 <= i < entries.len() && (#[trigger] entries[i]).0@ == key && entries[i].1
                        == entry_of(entries, key)->Some_0;
                assert(self.entry_list()[i].0@ == key);
            } else {
                assert forall|i: int| 0 <= i < self.entry_list().len() implies (
                #[trigger] self.entry_list()[i]).0@ != key by {
                    assert(entries[i].0@ != key);
                }
            }
        }
    }
}

} // verus!
