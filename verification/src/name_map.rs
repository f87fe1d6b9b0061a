//! A map from names to values, kept in ascending order of its keys.
//!
//! Iterating a `NameMap` visits the keys in the order of names, whatever
//! the order in which they were inserted, so that everything computed by
//! walking one is a function of the map alone.

use vstd::prelude::*;
use crate::name_set::{lemma_insert_sorted, lemma_position_contains, position, views};
use crate::order::{lemma_sorted_no_duplicates, strictly_sorted, NameOrder};

verus! {

/// A finite map from names to values of type `V`.
#[derive(Debug)]
pub struct NameMap<V> {
    keys: Vec<String>,
    vals: Vec<V>,
}

impl<V> View for NameMap<V> {
    type V = Map<Seq<char>, V>;

    /// The map from each key to its value.
    open spec fn view(&self) -> Map<Seq<char>, V> {
        Map::new(
            |k: Seq<char>| self.keys().contains(k),
            |k: Seq<char>| self.values()[self.keys().index_of(k)],
        )
    }
}

impl NameMap<String> {
    /// The map from each key to the text of its value.
    pub open spec fn texts(&self) -> Map<Seq<char>, Seq<char>> {
        Map::new(|k: Seq<char>| self@.dom().contains(k), |k: Seq<char>| self@[k]@)
    }
}

impl<V> NameMap<V> {
    /// The keys in ascending order.
    pub closed spec fn keys(&self) -> Seq<Seq<char>> {
        views(self.keys@)
    }

    /// The values, in the order of their keys.
    pub closed spec fn values(&self) -> Seq<V> {
        self.vals@
    }

    /// Keys and values go in pairs and the keys are strictly ascending.
    /// The constructors establish this and every method keeps it.
    pub open spec fn wf(&self) -> bool {
        &&& self.keys().len() == self.values().len()
        &&& strictly_sorted(self.keys())
    }

    /// In a well-formed map the value at place `i` is the value of the key
    /// at place `i`, and the keys listed are the domain.
    pub proof fn lemma_view(&self)
        requires
            self.wf(),
        ensures
            self@.dom() == self.keys().to_set(),
            self@.dom().finite(),
            self@.dom().len() == self.keys().len(),
            forall|i: int|
                0 <= i < self.keys().len() ==> self@.dom().contains(#[trigger] self.keys()[i])
                    && self@[self.keys()[i]] == self.values()[i],
    {
        let ks = self.keys();
        lemma_sorted_no_duplicates(ks);
        assert(self@.dom() =~= ks.to_set());
        ks.unique_seq_to_set();
        vstd::seq_lib::seq_to_set_is_finite(ks);
        assert forall|i: int| 0 <= i < ks.len() implies self@.dom().contains(#[trigger] ks[i])
            && self@[ks[i]] == self.values()[i] by {
            let j = ks.index_of(ks[i]);
            assert(ks.contains(ks[i]));
            assert(0 <= j < ks.len() && ks[j] == ks[i]);
        }
    }

    /// The empty map.
    pub fn new() -> (m: NameMap<V>)
        ensures
            m.wf(),
            m.keys() == Seq::<Seq<char>>::empty(),
            m.values() == Seq::<V>::empty(),
            m@ == Map::<Seq<char>, V>::empty(),
    {
        let m = NameMap { keys: Vec::new(), vals: Vec::new() };
        assert(m.keys() =~= Seq::<Seq<char>>::empty());
        assert(m@ =~= Map::<Seq<char>, V>::empty());
        m
    }

    /// The number of keys.
    pub fn len(&self) -> (n: usize)
        requires
            self.wf(),
        ensures
            n == self.keys().len(),
            n == self.values().len(),
            n == self@.dom().len(),
    {
        proof {
            self.lemma_view();
        }
        self.keys.len()
    }

    /// The place of `key` in the ascending listing, if the map holds it.
    pub fn find(&self, key: &str) -> (r: Option<usize>)
        requires
            self.wf(),
        ensures
            r is Some <==> self@.dom().contains(key@),
            r matches Some(i) ==> i < self.keys().len() && self.keys()[i as int] == key@
                && self@[key@] == self.values()[i as int],
    {
        let (idx, found) = position(NameOrder::Bytes, &self.keys, key);
        proof {
            lemma_position_contains(NameOrder::Bytes, self.keys(), key@, idx as int, found);
            self.lemma_view();
        }
        if found {
            Some(idx)
        } else {
            None
        }
    }

    /// Whether the map holds `key`.
    pub fn contains_key(&self, key: &str) -> (b: bool)
        requires
            self.wf(),
        ensures
            b == self@.dom().contains(key@),
    {
        self.find(key).is_some()
    }

    /// The value of `key`, if the map holds it.
    pub fn get(&self, key: &str) -> (r: Option<&V>)
        requires
            self.wf(),
        ensures
            r is Some <==> self@.dom().contains(key@),
            r matches Some(v) ==> *v == self@[key@],
    {
        match self.find(key) {
            Some(i) => Some(&self.vals[i]),
            None => None,
        }
    }

    /// The key and the value at place `i` of the ascending listing, if there is one.
    pub fn entry(&self, i: usize) -> (r: Option<(&String, &V)>)
        requires
            self.wf(),
        ensures
            i >= self.keys().len() ==> r is None,
            i < self.keys().len() ==> r is Some,
            r matches Some(e) ==> e.0@ == self.keys()[i as int] && *e.1 == self.values()[i as int],
    {
        if i < self.keys.len() {
            assert(self.keys()[i as int] == self.keys@[i as int]@);
            Some((&self.keys[i], &self.vals[i]))
        } else {
            None
        }
    }

    /// The value at place `i`, to be changed in place.
    pub fn value_mut(&mut self, i: usize) -> (r: &mut V)
        requires
            old(self).wf(),
            i < old(self).keys().len(),
        ensures
            *r == old(self).values()[i as int],
            final(self).keys() == old(self).keys(),
            final(self).values() == old(self).values().update(i as int, *final(r)),
            final(self).wf(),
    {
        &mut self.vals[i]
    }

    /// Gives `key` the value `value`, whether or not it had one; says
    /// whether it had.
    pub fn insert(&mut self, key: String, value: V) -> (replaced: bool)
        requires
            old(self).wf(),
        ensures
            final(self).wf(),
            final(self)@ == old(self)@.insert(key@, value),
            replaced == old(self)@.dom().contains(key@),
    {
        let (idx, found) = position(NameOrder::Bytes, &self.keys, key.as_str());
        proof {
            lemma_position_contains(NameOrder::Bytes, self.keys(), key@, idx as int, found);
            self.lemma_view();
        }
        let ghost before = *self;
        if found {
            self.vals[idx] = value;
            proof {
                self.lemma_view();
                assert(self@ =~= before@.insert(key@, value)) by {
                    assert forall|k: Seq<char>| self@.dom().contains(k) implies #[trigger] self@[k]
                        == before@.insert(key@, value)[k] by {
                        let j = self.keys().index_of(k);
                        assert(0 <= j < self.keys().len() && self.keys()[j] == k);
                    }
                }
            }
            true
        } else {
            proof {
                lemma_insert_sorted(NameOrder::Bytes, self.keys(), key@, idx as int);
                assert(views(self.keys@.insert(idx as int, key)) =~= self.keys().insert(
                    idx as int,
                    key@,
                ));
            }
            self.keys.insert(idx, key);
            self.vals.insert(idx, value);
            proof {
                self.lemma_view();
                assert(self@ =~= before@.insert(key@, value)) by {
                    assert forall|k: Seq<char>| self@.dom().contains(k) implies #[trigger] self@[k]
                        == before@.insert(key@, value)[k] by {
                        let j = self.keys().index_of(k);
                        assert(0 <= j < self.keys().len() && self.keys()[j] == k);
                        if j < idx {
                            assert(before.keys()[j] == k);
                        } else if j > idx {
                            assert(before.keys()[j - 1] == k);
                        }
                    }
                }
            }
            false
        }
    }
}

} // verus!
