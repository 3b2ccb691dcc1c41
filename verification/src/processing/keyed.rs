//! Small insertion-ordered maps: one keyed by text, one keyed by integers. Lookups find the
//! first entry with the key, and inserting a present key replaces its value in place, so the
//! entries keep the order in which their keys first arrived.

use vstd::prelude::*;

use crate::processing::mvp_analyzer::SimpleRelationship;
use crate::text::str_equal;

verus! {

/// The position of the first entry with `key` among the first `count` entries.
pub open spec fn first_key_index<K, V>(entries: Seq<(K, V)>, key: K, count: nat) -> Option<nat>
    decreases count,
{
    if count == 0 {
        None
    } else {
        match first_key_index(entries, key, (count - 1) as nat) {
            Some(i) => Some(i),
            None => if entries[count - 1].0 == key {
                Some((count - 1) as nat)
            } else {
                None
            },
        }
    }
}

/// The position of the first entry with `key`.
pub open spec fn key_index<K, V>(entries: Seq<(K, V)>, key: K) -> Option<nat> {
    first_key_index(entries, key, entries.len())
}

/// The value of the first entry with `key`.
pub open spec fn lookup<K, V>(entries: Seq<(K, V)>, key: K) -> Option<V> {
    match key_index(entries, key) {
        Some(i) => Some(entries[i as int].1),
        None => None,
    }
}

/// The entries after inserting: the first entry with `key` takes `value`, or a new entry is
/// appended.
pub open spec fn inserted<K, V>(entries: Seq<(K, V)>, key: K, value: V) -> Seq<(K, V)> {
    match key_index(entries, key) {
        Some(i) => entries.update(i as int, (entries[i as int].0, value)),
        None => entries.push((key, value)),
    }
}

/// What `first_key_index` finds: the first matching position, or that none matches.
pub proof fn lemma_first_key_index<K, V>(entries: Seq<(K, V)>, key: K, count: nat)
    requires
        count <= entries.len(),
    ensures
        match first_key_index(entries, key, count) {
            Some(i) => i < count && entries[i as int].0 == key && forall|j: int|
                0 <= j < i ==> entries[j].0 != key,
            None => forall|j: int| 0 <= j < count ==> entries[j].0 != key,
        },
    decreases count,
{
    if count > 0 {
        lemma_first_key_index(entries, key, (count - 1) as nat);
    }
}

/// The first position where a key is found.
proof fn lemma_first_key_index_is<K, V>(entries: Seq<(K, V)>, key: K, i: nat)
    requires
        i < entries.len(),
        entries[i as int].0 == key,
        forall|j: int| 0 <= j < i ==> entries[j].0 != key,
    ensures
        key_index(entries, key) == Some(i),
{
    lemma_first_key_index(entries, key, entries.len());
    match key_index(entries, key) {
        Some(r) => {
            if r < i {
            } else if r > i {
            }
        },
        None => {},
    }
}

/// Two entry lists with the same keys at the first `count` positions find a key at the same
/// position among them.
proof fn lemma_first_key_index_same_keys<K, V>(a: Seq<(K, V)>, b: Seq<(K, V)>, key: K, count: nat)
    requires
        count <= a.len(),
        count <= b.len(),
        forall|j: int| 0 <= j < count ==> (#[trigger] a[j]).0 == b[j].0,
    ensures
        first_key_index(a, key, count) == first_key_index(b, key, count),
    decreases count,
{
    if count > 0 {
        lemma_first_key_index_same_keys(a, b, key, (count - 1) as nat);
        assert(a[count - 1].0 == b[count - 1].0);
    }
}

/// After inserting `value` under `key`, a lookup of `key` finds `value`, and a lookup of any
/// other key finds what it found before.
pub proof fn lemma_lookup_inserted<K, V>(entries: Seq<(K, V)>, key: K, value: V, other: K)
    ensures
        lookup(inserted(entries, key, value), other) == (if other == key {
            Some(value)
        } else {
            lookup(entries, other)
        }),
{
    let after = inserted(entries, key, value);
    lemma_first_key_index(entries, key, entries.len());
    lemma_first_key_index(entries, other, entries.len());
    match key_index(entries, key) {
        Some(i) => {
            assert(after.len() == entries.len());
            assert forall|j: int| 0 <= j < entries.len() implies (#[trigger] after[j]).0
                == entries[j].0 by {}
            lemma_first_key_index_same_keys(after, entries, other, entries.len());
            if other == key {
                assert(key_index(after, other) == Some(i));
            } else {
                match key_index(entries, other) {
                    Some(j) => {
                        assert(j != i);
                    },
                    None => {},
                }
            }
        },
        None => {
            assert(after == entries.push((key, value)));
            assert forall|j: int| 0 <= j < entries.len() implies (#[trigger] after[j]).0
                == entries[j].0 by {}
            lemma_first_key_index_same_keys(after, entries, other, entries.len());
            assert(key_index(after, other) == first_key_index(after, other, entries.len() + 1));
        },
    }
}

/// An insertion-ordered map from text keys to values.
#[derive(Debug)]
pub struct NamedMap<V> {
    entries: Vec<(String, V)>,
}

impl<V: View> NamedMap<V> {
    /// The entries, in order, as text keys and value views.
    pub closed spec fn spec_entries(&self) -> Seq<(Seq<char>, V::V)> {
        Seq::new(self.entries@.len(), |k: int| (self.entries@[k].0@, self.entries@[k].1@))
    }

    /// Creates an empty map.
    pub fn new() -> (map: Self)
        ensures
            map.spec_entries() == Seq::<(Seq<char>, V::V)>::empty(),
    {
        let map = NamedMap { entries: Vec::new() };
        proof {
            assert(map.spec_entries() =~= Seq::<(Seq<char>, V::V)>::empty());
        }
        map
    }

    /// The number of entries.
    pub fn len(&self) -> (n: usize)
        ensures
            n == self.spec_entries().len(),
    {
        self.entries.len()
    }

    /// Whether the map has no entries.
    pub fn is_empty(&self) -> (b: bool)
        ensures
            b == (self.spec_entries().len() == 0),
    {
        self.entries.len() == 0
    }

    /// The position of the entry with `key`.
    fn position(&self, key: &str) -> (found: Option<usize>)
        ensures
            match found {
                Some(i) => key_index(self.spec_entries(), key@) == Some(i as nat) && i
                    < self.spec_entries().len(),
                None => key_index(self.spec_entries(), key@) is None,
            },
    {
        let ghost entries = self.spec_entries();
        let mut k: usize = 0;
        while k < self.entries.len()
            invariant
                entries == self.spec_entries(),
                k <= self.entries@.len(),
                forall|j: int| 0 <= j < k ==> entries[j].0 != key@,
            decreases self.entries@.len() - k,
        {
            if str_equal(self.entries[k].0.as_str(), key) {
                proof {
                    lemma_first_key_index_is(entries, key@, k as nat);
                }
                return Some(k);
            }
            k = k + 1;
        }
        proof {
            lemma_first_key_index(entries, key@, entries.len());
        }
        None
    }

    /// Whether some entry has `key`.
    pub fn contains_key(&self, key: &str) -> (b: bool)
        ensures
            b == (key_index(self.spec_entries(), key@) is Some),
    {
        self.position(key).is_some()
    }

    /// The value of the entry with `key`.
    pub fn get(&self, key: &str) -> (value: Option<&V>)
        ensures
            match value {
                Some(v) => lookup(self.spec_entries(), key@) == Some(v@),
                None => lookup(self.spec_entries(), key@) is None,
            },
    {
        match self.position(key) {
            Some(i) => Some(&self.entries[i].1),
            None => None,
        }
    }

    /// Gives `key` the value `value`, returning the value it replaced.
    pub fn insert(&mut self, key: String, value: V) -> (previous: Option<V>)
        ensures
            final(self).spec_entries() == inserted(old(self).spec_entries(), key@, value@),
            match previous {
                Some(v) => lookup(old(self).spec_entries(), key@) == Some(v@),
                None => lookup(old(self).spec_entries(), key@) is None,
            },
    {
        let ghost before = self.spec_entries();
        match self.position(key.as_str()) {
            Some(i) => {
                let (existing_key, previous) = self.entries.remove(i);
                self.entries.insert(i, (existing_key, value));
                proof {
                    assert(self.spec_entries() =~= inserted(before, key@, value@));
                }
                Some(previous)
            },
            None => {
                self.entries.push((key, value));
                proof {
                    assert(self.spec_entries() =~= inserted(before, key@, value@));
                }
                None
            },
        }
    }

    /// The entries, in order.
    pub fn entries(&self) -> (entries: &[(String, V)])
        ensures
            entries@.len() == self.spec_entries().len(),
            forall|k: int|
                0 <= k < entries@.len() ==> (#[trigger] entries@[k]).0@ == self.spec_entries()[k].0
                    && entries@[k].1@ == self.spec_entries()[k].1,
    {
        self.entries.as_slice()
    }
}

/// An insertion-ordered map from `u32` keys to `u32` values.
#[derive(Debug)]
pub struct CountMap {
    entries: Vec<(u32, u32)>,
}

impl CountMap {
    /// The entries, in order.
    pub closed spec fn spec_entries(&self) -> Seq<(u32, u32)> {
        self.entries@
    }

    /// Creates an empty map.
    pub fn new() -> (map: Self)
        ensures
            map.spec_entries() == Seq::<(u32, u32)>::empty(),
    {
        CountMap { entries: Vec::new() }
    }

    /// The number of entries.
    pub fn len(&self) -> (n: usize)
        ensures
            n == self.spec_entries().len(),
    {
        self.entries.len()
    }

    /// Whether the map has no entries.
    pub fn is_empty(&self) -> (b: bool)
        ensures
            b == (self.spec_entries().len() == 0),
    {
        self.entries.len() == 0
    }

    /// The position of the entry with `key`.
    fn position(&self, key: u32) -> (found: Option<usize>)
        ensures
            match found {
                Some(i) => key_index(self.spec_entries(), key) == Some(i as nat) && i
                    < self.spec_entries().len() && self.spec_entries()[i as int].0 == key,
                None => key_index(self.spec_entries(), key) is None,
            },
    {
        let ghost entries = self.spec_entries();
        let mut k: usize = 0;
        while k < self.entries.len()
            invariant
                entries == self.spec_entries(),
                entries == self.entries@,
                k <= self.entries@.len(),
                forall|j: int| 0 <= j < k ==> entries[j].0 != key,
            decreases self.entries@.len() - k,
        {
            if self.entries[k].0 == key {
                proof {
                    lemma_first_key_index_is(entries, key, k as nat);
                }
                assert(entries[k as int].0 == key);
                return Some(k);
            }
            k = k + 1;
        }
        proof {
            lemma_first_key_index(entries, key, entries.len());
        }
        None
    }

    /// Whether some entry has `key`.
    pub fn contains_key(&self, key: &u32) -> (b: bool)
        ensures
            b == (key_index(self.spec_entries(), *key) is Some),
    {
        self.position(*key).is_some()
    }

    /// The value of the entry with `key`.
    pub fn get(&self, key: &u32) -> (value: Option<u32>)
        ensures
            value == lookup(self.spec_entries(), *key),
    {
        match self.position(*key) {
            Some(i) => Some(self.entries[i].1),
            None => None,
        }
    }

    /// Gives `key` the value `value`, returning the value it replaced.
    pub fn insert(&mut self, key: u32, value: u32) -> (previous: Option<u32>)
        ensures
            final(self).spec_entries() == inserted(old(self).spec_entries(), key, value),
            previous == lookup(old(self).spec_entries(), key),
    {
        match self.position(key) {
            Some(i) => {
                let previous = self.entries[i].1;
                self.entries.set(i, (key, value));
                proof {
                    assert(self.spec_entries() =~= inserted(old(self).spec_entries(), key, value));
                }
                Some(previous)
            },
            None => {
                self.entries.push((key, value));
                None
            },
        }
    }

    /// The entries, in order.
    pub fn entries(&self) -> (entries: &[(u32, u32)])
        ensures
            entries@ == self.spec_entries(),
    {
        self.entries.as_slice()
    }
}

impl NamedMap<u32> {
    /// A copy with the same entries.
    pub(crate) fn copied(&self) -> (copy: Self)
        ensures
            copy.spec_entries() == self.spec_entries(),
    {
        let mut entries: Vec<(String, u32)> = Vec::new();
        let mut k: usize = 0;
        while k < self.entries.len()
            invariant
                k <= self.entries@.len(),
                entries@.len() == k,
                forall|j: int|
                    0 <= j < k ==> (#[trigger] entries@[j]).0@ == self.entries@[j].0@
                        && entries@[j].1 == self.entries@[j].1,
            decreases self.entries@.len() - k,
        {
            entries.push((self.entries[k].0.clone(), self.entries[k].1));
            k = k + 1;
        }
        let copy = NamedMap { entries };
        proof {
            assert(copy.spec_entries() =~= self.spec_entries());
        }
        copy
    }
}

impl NamedMap<SimpleRelationship> {
    /// A copy with the same entries.
    pub(crate) fn copied(&self) -> (copy: Self)
        ensures
            copy.spec_entries() == self.spec_entries(),
    {
        let mut entries: Vec<(String, SimpleRelationship)> = Vec::new();
        let mut k: usize = 0;
        while k < self.entries.len()
            invariant
                k <= self.entries@.len(),
                entries@.len() == k,
                forall|j: int|
                    0 <= j < k ==> (#[trigger] entries@[j]).0@ == self.entries@[j].0@
                        && entries@[j].1@ == self.entries@[j].1@,
            decreases self.entries@.len() - k,
        {
            entries.push((self.entries[k].0.clone(), self.entries[k].1.clone()));
            k = k + 1;
        }
        let copy = NamedMap { entries };
        proof {
            assert(copy.spec_entries() =~= self.spec_entries());
        }
        copy
    }
}

impl CountMap {
    /// A copy with the same entries.
    pub(crate) fn copied(&self) -> (copy: Self)
        ensures
            copy.spec_entries() == self.spec_entries(),
    {
        let mut entries: Vec<(u32, u32)> = Vec::new();
        let mut k: usize = 0;
        while k < self.entries.len()
            invariant
                k <= self.entries@.len(),
                entries@.len() == k,
                forall|j: int| 0 <= j < k ==> #[trigger] entries@[j] == self.entries@[j],
            decreases self.entries@.len() - k,
        {
            entries.push(self.entries[k]);
            k = k + 1;
        }
        let copy = CountMap { entries };
        proof {
            assert(copy.spec_entries() =~= self.spec_entries());
        }
        copy
    }
}

} // verus!
