//! A map from text to values, ordered by key.

use crate::text;
use crate::text::TextOrder;
use vstd::prelude::*;

verus! {

/// Values that can be copied without change.
pub trait Duplicate: View + Sized {
    fn duplicate(&self) -> (r: Self)
        ensures
            r@ == self@,
    ;
}

impl Duplicate for String {
    fn duplicate(&self) -> (r: Self) {
        self.clone()
    }
}

/// A map from text to values. The entries are kept in the order of their keys.
#[derive(Debug)]
pub struct TextMap<V> {
    entries: Vec<(String, V)>,
}

/// The keys are in strictly ascending order.
pub open spec fn ascending(keys: Seq<Seq<char>>) -> bool {
    forall|i: int, j: int| 0 <= i < j < keys.len() ==> text::text_before(keys[i], keys[j])
}

/// The map in which `keys[i]` stands for `values[i]`.
pub open spec fn map_of<W>(keys: Seq<Seq<char>>, values: Seq<W>) -> Map<Seq<char>, W> {
    Map::new(|k: Seq<char>| keys.contains(k), |k: Seq<char>| values[keys.index_of(k)])
}

impl<V: View> View for TextMap<V> {
    type V = Map<Seq<char>, V::V>;

    open spec fn view(&self) -> Map<Seq<char>, V::V> {
        map_of(self.keys(), self.values())
    }
}

proof fn lemma_key_index(keys: Seq<Seq<char>>, i: int)
    requires
        ascending(keys),
        0 <= i < keys.len(),
    ensures
        keys.contains(keys[i]),
        keys.index_of(keys[i]) == i,
{
    let j = keys.index_of(keys[i]);
    assert(0 <= j < keys.len() && keys[j] == keys[i]);
    text::text_order_irreflexive(keys[i]);
}

/// The map holds, under each key, the value at the key's position.
pub proof fn lemma_map_of<W>(keys: Seq<Seq<char>>, values: Seq<W>)
    requires
        ascending(keys),
        values.len() == keys.len(),
    ensures
        forall|i: int|
            0 <= i < keys.len() ==> map_of(keys, values).contains_key(#[trigger] keys[i])
                && map_of(keys, values)[keys[i]] == values[i],
        forall|k: Seq<char>|
            map_of(keys, values).contains_key(k) ==> exists|i: int|
                0 <= i < keys.len() && keys[i] == k,
{
    assert forall|i: int| 0 <= i < keys.len() implies map_of(keys, values).contains_key(
        #[trigger] keys[i],
    ) && map_of(keys, values)[keys[i]] == values[i] by {
        lemma_key_index(keys, i);
    }
}

impl<V: View> TextMap<V> {
    /// The keys, in ascending order.
    pub closed spec fn keys(self) -> Seq<Seq<char>> {
        self.entries@.map_values(|e: (String, V)| e.0@)
    }

    /// The values, in the order of their keys.
    pub closed spec fn values(self) -> Seq<V::V> {
        self.entries@.map_values(|e: (String, V)| e.1@)
    }

    pub open spec fn wf(self) -> bool {
        &&& ascending(self.keys())
        &&& self.values().len() == self.keys().len()
    }

    pub fn new() -> (m: TextMap<V>)
        ensures
            m.wf(),
            m@ == Map::<Seq<char>, V::V>::empty(),
            m.keys() == Seq::<Seq<char>>::empty(),
    {
        let m = TextMap { entries: Vec::new() };
        assert(m.keys() =~= Seq::<Seq<char>>::empty());
        assert(m@ =~= Map::<Seq<char>, V::V>::empty());
        m
    }

    pub fn len(&self) -> (n: usize)
        ensures
            n == self.keys().len(),
    {
        self.entries.len()
    }

    /// The key at a position.
    pub fn key_at(&self, i: usize) -> (k: &String)
        requires
            i < self.keys().len(),
        ensures
            k@ == self.keys()[i as int],
    {
        &self.entries[i].0
    }

    /// The value at a position.
    pub fn value_at(&self, i: usize) -> (v: &V)
        requires
            self.wf(),
            i < self.keys().len(),
        ensures
            v@ == self.values()[i as int],
            v@ == self@[self.keys()[i as int]],
    {
        proof {
            lemma_map_of(self.keys(), self.values());
        }
        &self.entries[i].1
    }

    /// The position of the first key that is not before `key`, and whether it is `key`.
    fn position(&self, key: &str) -> (r: (usize, bool))
        requires
            self.wf(),
        ensures
            r.0 <= self.keys().len(),
            forall|i: int| 0 <= i < r.0 ==> text::text_before(#[trigger] self.keys()[i], key@),
            r.1 ==> r.0 < self.keys().len() && self.keys()[r.0 as int] == key@,
            !r.1 ==> forall|i: int|
                r.0 <= i < self.keys().len() ==> text::text_before(key@, #[trigger] self.keys()[i]),
    {
        let mut i: usize = 0;
        while i < self.entries.len()
            invariant
                self.wf(),
                i <= self.entries@.len(),
                forall|j: int| 0 <= j < i ==> text::text_before(#[trigger] self.keys()[j], key@),
            decreases self.entries@.len() - i,
        {
            match text::text_order(self.entries[i].0.as_str(), key) {
                TextOrder::Before => {},
                TextOrder::Same => {
                    return (i, true);
                },
                TextOrder::After => {
                    assert forall|j: int| i <= j < self.keys().len() implies text::text_before(
                        key@,
                        #[trigger] self.keys()[j],
                    ) by {
                        if j > i {
                            text::text_order_transitive(
                                key@,
                                self.keys()[i as int],
                                self.keys()[j],
                            );
                        }
                    }
                    return (i, false);
                },
            }
            i = i + 1;
        }
        (i, false)
    }

    /// The value under `key`, if there is one.
    pub fn get(&self, key: &str) -> (r: Option<&V>)
        requires
            self.wf(),
        ensures
            match r {
                Some(v) => self@.contains_key(key@) && v@ == self@[key@],
                None => !self@.contains_key(key@),
            },
    {
        let (i, found) = self.position(key);
        proof {
            lemma_map_of(self.keys(), self.values());
        }
        if found {
            Some(&self.entries[i].1)
        } else {
            proof {
                self.lemma_absent(key@, i as int);
            }
            None
        }
    }

    proof fn lemma_absent(self, key: Seq<char>, at: int)
        requires
            self.wf(),
            forall|i: int| 0 <= i < at ==> text::text_before(#[trigger] self.keys()[i], key),
            forall|i: int|
                at <= i < self.keys().len() ==> text::text_before(key, #[trigger] self.keys()[i]),
        ensures
            !self@.contains_key(key),
    {
        lemma_map_of(self.keys(), self.values());
        text::text_order_irreflexive(key);
        if self@.contains_key(key) {
            let i = choose|i: int| 0 <= i < self.keys().len() && self.keys()[i] == key;
            assert(self.keys()[i] == key);
        }
    }

    pub fn contains_key(&self, key: &str) -> (r: bool)
        requires
            self.wf(),
        ensures
            r == self@.contains_key(key@),
    {
        self.get(key).is_some()
    }

    /// Puts a value under `key`, in place of the one that is there.
    pub fn insert(&mut self, key: String, value: V)
        requires
            old(self).wf(),
        ensures
            final(self).wf(),
            final(self)@ == old(self)@.insert(key@, value@),
    {
        let ghost before = *self;
        let ghost k = key@;
        let ghost w = value@;
        let (i, found) = self.position(key.as_str());
        proof {
            lemma_map_of(before.keys(), before.values());
        }
        if found {
            self.entries.set(i, (key, value));
            assert(self.keys() =~= before.keys());
            assert(self.values() =~= before.values().update(i as int, w));
            proof {
                lemma_map_of(self.keys(), self.values());
                assert forall|q: Seq<char>| self@.contains_key(q) implies self@[q]
                    == before@.insert(k, w)[q] by {
                    let j = choose|j: int| 0 <= j < self.keys().len() && self.keys()[j] == q;
                    assert(self.keys()[j] == q && before.keys()[j] == q);
                    if j != i {
                        text::text_order_irreflexive(k);
                        assert(q != k);
                    }
                }
                assert(before.keys()[i as int] == k);
                assert(self@ =~= before@.insert(k, w));
            }
        } else {
            self.entries.insert(i, (key, value));
            proof {
                before.lemma_absent(k, i as int);
                assert(self.keys() =~= before.keys().insert(i as int, k));
                assert(self.values() =~= before.values().insert(i as int, w));
                assert forall|a: int, b: int|
                    0 <= a < b < self.keys().len() implies text::text_before(
                    self.keys()[a],
                    self.keys()[b],
                ) by {
                    let x = if a < i { a } else { a - 1 };
                    let y = if b < i { b } else { b - 1 };
                    assert(a != i ==> self.keys()[a] == before.keys()[x]);
                    assert(b != i ==> self.keys()[b] == before.keys()[y]);
                }
                lemma_map_of(self.keys(), self.values());
                assert forall|q: Seq<char>| self@.contains_key(q) == before@.insert(
                    k,
                    w,
                ).contains_key(q) by {
                    if self@.contains_key(q) && q != k {
                        let j = choose|j: int| 0 <= j < self.keys().len() && self.keys()[j] == q;
                        let x = if j < i { j } else { j - 1 };
                        assert(self.keys()[j] == before.keys()[x]);
                    }
                    if before@.contains_key(q) {
                        let j = choose|j: int|
                            0 <= j < before.keys().len() && before.keys()[j] == q;
                        let x = if j < i { j } else { j + 1 };
                        assert(self.keys()[x] == before.keys()[j]);
                    }
                    assert(self.keys()[i as int] == k);
                }
                assert forall|q: Seq<char>| self@.contains_key(q) implies self@[q]
                    == before@.insert(k, w)[q] by {
                    let j = choose|j: int| 0 <= j < self.keys().len() && self.keys()[j] == q;
                    assert(self.keys()[j] == q);
                    let x = if j < i { j } else { j - 1 };
                    if j != i {
                        assert(self.keys()[j] == before.keys()[x]);
                        assert(before@.contains_key(q));
                    }
                }
                assert(self@ =~= before@.insert(k, w));
            }
        }
    }

    /// Takes the value under `key` out, if there is one.
    pub fn remove(&mut self, key: &str)
        requires
            old(self).wf(),
        ensures
            final(self).wf(),
            final(self)@ == old(self)@.remove(key@),
    {
        let ghost before = *self;
        let (i, found) = self.position(key);
        proof {
            lemma_map_of(before.keys(), before.values());
        }
        if found {
            self.entries.remove(i);
            proof {
                assert(self.keys() =~= before.keys().remove(i as int));
                assert(self.values() =~= before.values().remove(i as int));
                assert forall|a: int, b: int|
                    0 <= a < b < self.keys().len() implies text::text_before(
                    self.keys()[a],
                    self.keys()[b],
                ) by {
                    let x = if a < i { a } else { a + 1 };
                    let y = if b < i { b } else { b + 1 };
                    assert(self.keys()[a] == before.keys()[x]);
                    assert(self.keys()[b] == before.keys()[y]);
                }
                lemma_map_of(self.keys(), self.values());
                assert forall|q: Seq<char>| self@.contains_key(q) == before@.remove(
                    key@,
                ).contains_key(q) by {
                    text::text_order_irreflexive(key@);
                    if self@.contains_key(q) {
                        let j = choose|j: int| 0 <= j < self.keys().len() && self.keys()[j] == q;
                        let x = if j < i { j } else { j + 1 };
                        assert(self.keys()[j] == before.keys()[x]);
                        assert(before.keys()[i as int] == key@);
                    }
                    if before@.contains_key(q) && q != key@ {
                        let j = choose|j: int|
                            0 <= j < before.keys().len() && before.keys()[j] == q;
                        let x = if j < i { j } else { j - 1 };
                        assert(j != i);
                        assert(self.keys()[x] == before.keys()[j]);
                    }
                }
                assert forall|q: Seq<char>| self@.contains_key(q) implies self@[q]
                    == before@.remove(key@)[q] by {
                    let j = choose|j: int| 0 <= j < self.keys().len() && self.keys()[j] == q;
                    assert(self.keys()[j] == q);
                    let x = if j < i { j } else { j + 1 };
                    assert(self.keys()[j] == before.keys()[x]);
                    assert(before@.remove(key@).contains_key(q));
                }
                assert(self@ =~= before@.remove(key@));
            }
        } else {
            proof {
                before.lemma_absent(key@, i as int);
                assert(self@ =~= before@.remove(key@));
            }
        }
    }
}

impl<V: Duplicate> Duplicate for TextMap<V> {
    fn duplicate(&self) -> (r: Self)
        ensures
            r.keys() == self.keys(),
            r.values() == self.values(),
            self.wf() ==> r.wf(),
    {
        let mut entries: Vec<(String, V)> = Vec::new();
        let mut i: usize = 0;
        while i < self.entries.len()
            invariant
                i <= self.entries@.len(),
                entries@.len() == i,
                forall|j: int|
                    0 <= j < i ==> (#[trigger] entries@[j]).0@ == self.entries@[j].0@
                        && entries@[j].1@ == self.entries@[j].1@,
            decreases self.entries@.len() - i,
        {
            let key = self.entries[i].0.clone();
            let value = self.entries[i].1.duplicate();
            entries.push((key, value));
            i = i + 1;
        }
        let r = TextMap { entries };
        assert(r.keys() =~= self.keys());
        assert(r.values() =~= self.values());
        r
    }
}

}
