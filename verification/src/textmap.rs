//! A map from texts to values that keeps its keys in the order in which they came.

use crate::text::chars::{deep, deep_option, lemma_deep_empty, lemma_deep_push};
use crate::text::search::eq_text;
use vstd::prelude::*;

verus! {

/// A map from texts to values. Its model is the sequence of its entries.
#[derive(Debug, Clone)]
pub struct TextMap<V> {
    pub entries: Vec<(String, V)>,
}

/// A list of texts, seen as the sequence of what they spell.
#[derive(Debug, Clone)]
pub struct TextList {
    pub items: Vec<String>,
}

impl View for TextList {
    type V = Seq<Seq<char>>;

    open spec fn view(&self) -> Seq<Seq<char>> {
        deep(self.items@)
    }
}

/// The position of the first entry with key `k`, or the length where there is none.
pub open spec fn slot<V>(m: Seq<(Seq<char>, V)>, k: Seq<char>) -> int
    decreases m.len(),
{
    if m.len() == 0 || m[0].0 == k {
        0
    } else {
        1 + slot(m.skip(1), k)
    }
}

pub open spec fn slot_is<V>(m: Seq<(Seq<char>, V)>, k: Seq<char>, i: int) -> bool {
    &&& 0 <= i <= m.len()
    &&& forall|j: int| 0 <= j < i ==> (#[trigger] m[j]).0 != k
    &&& i < m.len() ==> m[i].0 == k
}

pub proof fn lemma_slot<V>(m: Seq<(Seq<char>, V)>, k: Seq<char>)
    ensures
        slot_is(m, k, slot(m, k)),
    decreases m.len(),
{
    if m.len() > 0 && m[0].0 != k {
        lemma_slot(m.skip(1), k);
        let i = slot(m, k);
        assert forall|j: int| 0 <= j < i implies (#[trigger] m[j]).0 != k by {
            if j > 0 {
                assert(m[j] == m.skip(1)[j - 1]);
            }
        }
    }
}

pub proof fn lemma_slot_is<V>(m: Seq<(Seq<char>, V)>, k: Seq<char>, i: int)
    requires
        slot_is(m, k, i),
    ensures
        slot(m, k) == i,
{
    lemma_slot(m, k);
    let j = slot(m, k);
    if j < i {
        assert(m[j].0 != k);
    } else if i < j {
        assert(m[i].0 != k);
    }
}

/// The value under a key.
pub open spec fn lookup<V>(m: Seq<(Seq<char>, V)>, k: Seq<char>) -> Option<V> {
    let i = slot(m, k);
    if 0 <= i < m.len() {
        Some(m[i].1)
    } else {
        None
    }
}

/// The entries after `v` was put under `k`: a known key keeps its place.
pub open spec fn put<V>(m: Seq<(Seq<char>, V)>, k: Seq<char>, v: V) -> Seq<(Seq<char>, V)> {
    let i = slot(m, k);
    if 0 <= i < m.len() {
        m.update(i, (k, v))
    } else {
        m.push((k, v))
    }
}

/// The entries after `v` was put under `k` unless the key was there already.
pub open spec fn put_if_absent<V>(m: Seq<(Seq<char>, V)>, k: Seq<char>, v: V) -> Seq<
    (Seq<char>, V),
> {
    if lookup(m, k).is_some() {
        m
    } else {
        m.push((k, v))
    }
}

/// No key occurs twice.
pub open spec fn distinct_keys<V>(m: Seq<(Seq<char>, V)>) -> bool {
    forall|i: int, j: int| 0 <= i < j < m.len() ==> (#[trigger] m[i]).0 != (#[trigger] m[j]).0
}

/// A read gives back the last value written under the key, and writing under one key leaves
/// every other key alone.
pub proof fn lemma_lookup_put<V>(m: Seq<(Seq<char>, V)>, k: Seq<char>, v: V, q: Seq<char>)
    ensures
        lookup(put(m, k, v), q) == if q == k {
            Some(v)
        } else {
            lookup(m, q)
        },
{
    lemma_slot(m, k);
    lemma_slot(m, q);
    let n = put(m, k, v);
    if q == k {
        lemma_slot_is(n, k, slot(m, k));
    } else {
        let i = slot(m, q);
        if i < m.len() {
            lemma_slot_is(n, q, i);
        } else {
            lemma_slot_is(n, q, n.len() as int);
        }
    }
}

/// Writing under a key that is free fills it, and nothing else changes.
pub proof fn lemma_lookup_put_if_absent<V>(
    m: Seq<(Seq<char>, V)>,
    k: Seq<char>,
    v: V,
    q: Seq<char>,
)
    ensures
        lookup(put_if_absent(m, k, v), q) == if q == k && lookup(m, k).is_none() {
            Some(v)
        } else {
            lookup(m, q)
        },
{
    lemma_slot(m, k);
    lemma_lookup_put(m, k, v, q);
}

/// Writing never makes a key occur twice.
pub proof fn lemma_put_distinct<V>(m: Seq<(Seq<char>, V)>, k: Seq<char>, v: V)
    requires
        distinct_keys(m),
    ensures
        distinct_keys(put(m, k, v)),
        distinct_keys(put_if_absent(m, k, v)),
{
    lemma_slot(m, k);
}

impl<V: View> View for TextMap<V> {
    type V = Seq<(Seq<char>, V::V)>;

    open spec fn view(&self) -> Seq<(Seq<char>, V::V)> {
        deep(self.entries@)
    }
}

impl<V: View> TextMap<V> {
    pub fn new() -> (r: Self)
        ensures
            r@ == Seq::<(Seq<char>, V::V)>::empty(),
    {
        broadcast use lemma_deep_empty;

        TextMap { entries: Vec::new() }
    }

    pub fn len(&self) -> (r: usize)
        ensures
            r == self@.len(),
    {
        self.entries.len()
    }

    pub fn is_empty(&self) -> (r: bool)
        ensures
            r == (self@.len() == 0),
    {
        self.entries.len() == 0
    }

    fn position(&self, key: &str) -> (r: usize)
        ensures
            r == slot(self@, key@),
            slot_is(self@, key@, r as int),
    {
        let mut i: usize = 0;
        while i < self.entries.len() && !eq_text(self.entries[i].0.as_str(), key)
            invariant
                i <= self.entries@.len(),
                forall|j: int| 0 <= j < i ==> (#[trigger] self@[j]).0 != key@,
            decreases self.entries@.len() - i,
        {
            i = i + 1;
        }
        proof {
            lemma_slot_is(self@, key@, i as int);
        }
        i
    }

    pub fn get(&self, key: &str) -> (r: Option<&V>)
        ensures
            deep_option(r) == lookup(self@, key@),
    {
        let i = self.position(key);
        if i < self.entries.len() {
            Some(&self.entries[i].1)
        } else {
            None
        }
    }

    pub fn contains_key(&self, key: &str) -> (r: bool)
        ensures
            r == lookup(self@, key@).is_some(),
    {
        self.get(key).is_some()
    }

    /// Puts a value under a key, in the place of the one before.
    pub fn insert(&mut self, key: String, value: V)
        ensures
            final(self)@ == put(old(self)@, key@, value@),
    {
        broadcast use lemma_deep_push;

        let i = self.position(key.as_str());
        if i < self.entries.len() {
            let ghost before = self.entries@;
            self.entries.set(i, (key, value));
            proof {
                assert(deep(self.entries@) =~= deep(before).update(i as int, (key@, value@)));
            }
        } else {
            self.entries.push((key, value));
        }
    }

    /// Puts a value under a key that is not there yet; otherwise nothing changes.
    pub fn insert_new(&mut self, key: String, value: V)
        ensures
            final(self)@ == put_if_absent(old(self)@, key@, value@),
    {
        broadcast use lemma_deep_push;

        let i = self.position(key.as_str());
        if i == self.entries.len() {
            self.entries.push((key, value));
        }
    }
}

} // verus!
