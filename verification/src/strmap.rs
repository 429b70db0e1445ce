//! A small map from texts to values that remembers the order in which its
//! keys arrived.

use vstd::prelude::*;
use crate::text::text_eq;

verus! {

#[derive(Debug)]
struct Entry<V> {
    key: String,
    value: V,
}

/// A map keyed by text. No key occurs twice; keys keep the order of their
/// first insertion.
#[derive(Debug)]
pub struct StrMap<V> {
    entries: Vec<Entry<V>>,
}

/// Position of the first entry of `entries` whose key is `key`, or the
/// length of `entries` where there is none.
spec fn position<V>(entries: Seq<Entry<V>>, key: Seq<char>) -> int
    decreases entries.len(),
{
    if entries.len() == 0 {
        0
    } else if entries[0].key@ == key {
        0
    } else {
        1 + position(entries.drop_first(), key)
    }
}

/// `position` is the least index that holds `key`.
proof fn lemma_position<V>(entries: Seq<Entry<V>>, key: Seq<char>)
    ensures
        0 <= position(entries, key) <= entries.len(),
        position(entries, key) < entries.len() ==> entries[position(entries, key)].key@ == key,
        forall|i: int| 0 <= i < position(entries, key) ==> entries[i].key@ != key,
    decreases entries.len(),
{
    if entries.len() > 0 && entries[0].key@ != key {
        let rest = entries.drop_first();
        lemma_position(rest, key);
        assert forall|i: int| 0 <= i < position(entries, key) implies entries[i].key@ != key by {
            if i > 0 {
                assert(entries[i] == rest[i - 1]);
            }
        }
    }
}

/// Whether no two entries of `entries` share a key.
spec fn distinct_keys<V>(entries: Seq<Entry<V>>) -> bool {
    forall|i: int, j: int|
        0 <= i < j < entries.len() ==> #[trigger] entries[i].key@ != #[trigger] entries[j].key@
}

/// Where no key occurs twice, every entry is the first one with its key.
proof fn lemma_distinct_position<V>(entries: Seq<Entry<V>>, i: int)
    requires
        distinct_keys(entries),
        0 <= i < entries.len(),
    ensures
        position(entries, entries[i].key@) == i,
{
    lemma_position(entries, entries[i].key@);
    let p = position(entries, entries[i].key@);
    if p < i {
        assert(entries[p].key@ != entries[i].key@);
    }
}

impl<V> View for StrMap<V> {
    type V = Map<Seq<char>, V>;

    closed spec fn view(&self) -> Map<Seq<char>, V> {
        Map::new(
            |k: Seq<char>| position(self.entries@, k) < self.entries@.len(),
            |k: Seq<char>| self.entries@[position(self.entries@, k)].value,
        )
    }
}

impl<V: DeepView> DeepView for StrMap<V> {
    type V = Map<Seq<char>, V::V>;

    open spec fn deep_view(&self) -> Map<Seq<char>, V::V> {
        self@.map_values(|value: V| value.deep_view())
    }
}

impl<V: DeepView> StrMap<V> {
    /// What each value of `values()` holds, in the same order.
    pub open spec fn deep_values(&self) -> Seq<V::V> {
        Seq::new(self.values().len(), |i: int| self.values()[i].deep_view())
    }
}

impl<V> StrMap<V> {
    #[verifier::type_invariant]
    spec fn inv(&self) -> bool {
        distinct_keys(self.entries@)
    }

    /// The keys, in the order of their first insertion.
    pub closed spec fn keys(&self) -> Seq<Seq<char>> {
        Seq::new(self.entries@.len(), |i: int| self.entries@[i].key@)
    }

    /// The value of each key of `keys()`, in the same order.
    pub closed spec fn values(&self) -> Seq<V> {
        Seq::new(self.entries@.len(), |i: int| self@[self.entries@[i].key@])
    }

    /// How `keys()`, `values()` and the view belong together: the view maps
    /// just the keys of `keys()`, each to the value at its place in
    /// `values()`.
    pub proof fn lemma_entries(&self)
        ensures
            self.keys().len() == self.values().len(),
            forall|i: int|
                0 <= i < self.keys().len() ==> self@.contains_key(#[trigger] self.keys()[i])
                    && self@[self.keys()[i]] == self.values()[i],
            forall|k: Seq<char>| self@.contains_key(k) <==> self.keys().contains(k),
    {
        assert forall|i: int| 0 <= i < self.keys().len() implies self@.contains_key(
            #[trigger] self.keys()[i],
        ) by {
            lemma_position(self.entries@, self.keys()[i]);
        }
        assert forall|k: Seq<char>| self@.contains_key(k) <==> self.keys().contains(k) by {
            lemma_position(self.entries@, k);
            if self@.contains_key(k) {
                assert(self.keys()[position(self.entries@, k)] == k);
            }
            if self.keys().contains(k) {
                let i = choose|i: int| 0 <= i < self.keys().len() && self.keys()[i] == k;
                assert(self.entries@[i].key@ == k);
            }
        }
    }

    /// An empty map.
    pub fn new() -> (map: Self)
        ensures
            map@ == Map::<Seq<char>, V>::empty(),
            map.keys() == Seq::<Seq<char>>::empty(),
    {
        let map = StrMap { entries: Vec::new() };
        assert(map@ =~= Map::<Seq<char>, V>::empty());
        assert(map.keys() =~= Seq::<Seq<char>>::empty());
        map
    }

    /// The number of keys.
    pub fn len(&self) -> (n: usize)
        ensures
            n == self.keys().len(),
            n == self.values().len(),
            self.keys().no_duplicates(),
    {
        proof {
            use_type_invariant(self);
            assert forall|i: int, j: int|
                0 <= i < self.keys().len() && 0 <= j < self.keys().len() && i != j implies self.keys()[i]
                != self.keys()[j] by {
                if i < j {
                    assert(self.entries@[i].key@ != self.entries@[j].key@);
                } else {
                    assert(self.entries@[j].key@ != self.entries@[i].key@);
                }
            }
        }
        self.entries.len()
    }

    /// The key at position `i` of `keys()`.
    pub fn key_at(&self, i: usize) -> (key: &String)
        requires
            i < self.keys().len(),
        ensures
            key@ == self.keys()[i as int],
    {
        &self.entries[i].key
    }

    /// The value at position `i` of `values()`.
    pub fn value_at(&self, i: usize) -> (value: &V)
        requires
            i < self.values().len(),
        ensures
            *value == self.values()[i as int],
    {
        proof {
            use_type_invariant(self);
            lemma_distinct_position(self.entries@, i as int);
        }
        &self.entries[i].value
    }

    fn find(&self, key: &str) -> (at: usize)
        ensures
            at == position(self.entries@, key@),
            at <= self.entries@.len(),
    {
        let mut i: usize = 0;
        assert(self.entries@.subrange(0, self.entries@.len() as int) =~= self.entries@);
        while i < self.entries.len()
            invariant
                i <= self.entries@.len(),
                position(self.entries@, key@) == i + position(
                    self.entries@.subrange(i as int, self.entries@.len() as int),
                    key@,
                ),
            decreases self.entries@.len() - i,
        {
            let ghost rest = self.entries@.subrange(i as int, self.entries@.len() as int);
            assert(rest[0] == self.entries@[i as int]);
            if text_eq(self.entries[i].key.as_str(), key) {
                return i;
            }
            assert(rest.drop_first() =~= self.entries@.subrange(
                i as int + 1,
                self.entries@.len() as int,
            ));
            i = i + 1;
        }
        i
    }

    /// The value that `key` maps to, if it maps to one.
    pub fn get(&self, key: &str) -> (found: Option<&V>)
        ensures
            match found {
                Some(value) => self@.contains_key(key@) && *value == self@[key@],
                None => !self@.contains_key(key@),
            },
    {
        let at: usize = self.find(key);
        if at < self.entries.len() {
            Some(&self.entries[at].value)
        } else {
            None
        }
    }

    /// Whether `key` maps to a value.
    pub fn contains_key(&self, key: &str) -> (found: bool)
        ensures
            found == self@.contains_key(key@),
    {
        let at: usize = self.find(key);
        at < self.entries.len()
    }

    /// Maps `key` to `value`. A key that is already there keeps its place
    /// and gets the new value; a new key goes to the end.
    pub fn insert(&mut self, key: String, value: V)
        ensures
            final(self)@ == old(self)@.insert(key@, value),
            final(self).keys() == if old(self)@.contains_key(key@) {
                old(self).keys()
            } else {
                old(self).keys().push(key@)
            },
    {
        proof {
            use_type_invariant(&*self);
        }
        let at: usize = self.find(key.as_str());
        let ghost before = self.entries@;
        let ghost k = key@;
        proof {
            lemma_position(before, k);
        }
        let mut taken = StrMap { entries: Vec::new() };
        core::mem::swap(self, &mut taken);
        let mut entries = taken.entries;
        if at < entries.len() {
            entries.set(at, Entry { key, value });
        } else {
            entries.push(Entry { key, value });
        }
        proof {
            let after = entries@;
            assert(after[at as int].key@ == k);
            assert(forall|i: int| 0 <= i < before.len() && i != at ==> after[i] == before[i]);
            assert(distinct_keys(after)) by {
                assert forall|i: int, j: int| 0 <= i < j < after.len() implies after[i].key@
                    != after[j].key@ by {
                    if i < before.len() && j < before.len() {
                        assert(before[i].key@ != before[j].key@);
                    }
                }
            }
            assert forall|q: Seq<char>|
                q != k implies (position(before, q) < before.len()) == (position(after, q)
                < after.len()) && (position(before, q) < before.len() ==> position(after, q)
                == position(before, q)) by {
                lemma_position(before, q);
                lemma_position(after, q);
                let p = position(before, q);
                let r = position(after, q);
                if p < before.len() {
                    assert(p != at);
                    assert(after[p] == before[p]);
                }
                if r < after.len() {
                    assert(r != at);
                    assert(after[r] == before[r]);
                }
            }
            lemma_position(after, k);
            assert(position(after, k) == at);
        }
        *self = StrMap { entries };
        proof {
            let after = self.entries@;
            let target = old(self)@.insert(k, value);
            assert forall|q: Seq<char>| self@.contains_key(q) == target.contains_key(q) by {
                lemma_position(before, q);
            }
            assert forall|q: Seq<char>| self@.contains_key(q) implies self@[q] == target[q] by {
                lemma_position(before, q);
                lemma_position(after, q);
                if q != k {
                    assert(after[position(after, q)] == before[position(before, q)]);
                }
            }
            assert(self@ =~= target);
            if at < before.len() {
                assert(self.keys() =~= old(self).keys());
            } else {
                assert(self.keys() =~= old(self).keys().push(k));
            }
        }
    }
}

impl<V: Copy> Clone for StrMap<V> {
    fn clone(&self) -> (copy: Self)
        ensures
            copy@ == self@,
            copy.keys() == self.keys(),
    {
        proof {
            use_type_invariant(self);
        }
        let mut entries: Vec<Entry<V>> = Vec::new();
        let mut i: usize = 0;
        while i < self.entries.len()
            invariant
                i <= self.entries@.len(),
                entries@.len() == i,
                forall|k: int|
                    0 <= k < i ==> (#[trigger] entries@[k]).key@ == self.entries@[k].key@
                        && entries@[k].value == self.entries@[k].value,
            decreases self.entries@.len() - i,
        {
            entries.push(Entry { key: self.entries[i].key.clone(), value: self.entries[i].value });
            i = i + 1;
        }
        proof {
            assert forall|a: int, b: int| 0 <= a < b < entries@.len() implies entries@[a].key@
                != entries@[b].key@ by {
                assert(self.entries@[a].key@ != self.entries@[b].key@);
            }
            assert forall|q: Seq<char>| position(entries@, q) == position(self.entries@, q) by {
                lemma_position(entries@, q);
                lemma_position(self.entries@, q);
                let p = position(entries@, q);
                let r = position(self.entries@, q);
                if p < entries@.len() {
                    assert(self.entries@[p].key@ == q);
                }
                if r < entries@.len() {
                    assert(entries@[r].key@ == q);
                }
            }
        }
        let copy = StrMap { entries };
        proof {
            assert forall|q: Seq<char>| copy@.contains_key(q) == self@.contains_key(q) by {
                assert(position(copy.entries@, q) == position(self.entries@, q));
            }
            assert forall|q: Seq<char>| copy@.contains_key(q) implies copy@[q] == self@[q] by {
                let p = position(copy.entries@, q);
                lemma_position(copy.entries@, q);
                assert(p == position(self.entries@, q));
                assert(0 <= p < copy.entries@.len());
                assert(copy.entries@[p].value == self.entries@[p].value);
            }
            assert(copy@ =~= self@);
            assert(copy.keys() =~= self.keys());
        }
        copy
    }
}

} // verus!
