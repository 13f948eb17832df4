//! Metadata: an ordered key-value store attached to entities.

use vstd::prelude::*;
use crate::name::{Json, Name};
use crate::registry::{Entity, Registry};

verus! {

/// One entry of a [`Metadata`] as plain values.
pub struct KeyValueView {
    pub key: Seq<char>,
    pub value: Seq<char>,
}

/// One entry of a [`Metadata`].
#[derive(Debug, PartialEq, Eq)]
pub struct KeyValue {
    pub key: Name,
    pub value: Json,
}

impl View for KeyValue {
    type V = KeyValueView;

    open spec fn view(&self) -> KeyValueView {
        KeyValueView { key: self.key@, value: self.value@ }
    }
}

impl Entity for KeyValue {
    type Id = Name;

    open spec fn id_of(v: KeyValueView) -> Seq<char> {
        v.key
    }

    fn id(&self) -> (r: &Name) {
        &self.key
    }

    fn duplicate(&self) -> (r: KeyValue) {
        KeyValue { key: self.key.clone(), value: self.value.clone() }
    }
}

/// The values of `entries` by key.
pub open spec fn values_by_key(entries: Map<Seq<char>, KeyValueView>) -> Map<Seq<char>, Seq<char>> {
    Map::new(|k: Seq<char>| entries.contains_key(k), |k: Seq<char>| entries[k].value)
}

/// A mapping from names to JSON values, walked in the order of its keys.
#[derive(Debug, PartialEq, Eq)]
pub struct Metadata {
    entries: Registry<KeyValue>,
}

impl View for Metadata {
    type V = Map<Seq<char>, Seq<char>>;

    /// The values by key.
    closed spec fn view(&self) -> Map<Seq<char>, Seq<char>> {
        values_by_key(self.entries@)
    }
}

impl Metadata {
    /// The keys are strictly ascending.
    #[verifier::type_invariant]
    spec fn ordered(&self) -> bool {
        self.entries.wf()
    }

    /// The entries in the order of their keys.
    pub closed spec fn pairs(&self) -> Seq<KeyValueView> {
        self.entries.rows()
    }

    pub fn new() -> (r: Metadata)
        ensures
            r@ == Map::<Seq<char>, Seq<char>>::empty(),
            r.pairs() == Seq::<KeyValueView>::empty(),
    {
        let r = Metadata { entries: Registry::new() };
        proof {
            assert(r@ =~= Map::<Seq<char>, Seq<char>>::empty());
        }
        r
    }

    pub fn len(&self) -> (n: usize)
        ensures
            n == self.pairs().len(),
    {
        self.entries.len()
    }

    /// The entry at position `i` in the order of the keys.
    pub fn pair(&self, i: usize) -> (r: &KeyValue)
        requires
            i < self.pairs().len(),
        ensures
            r@ == self.pairs()[i as int],
    {
        self.entries.row(i)
    }

    /// The value stored under `key`, if there is one.
    pub fn get(&self, key: &Name) -> (r: Option<&Json>)
        ensures
            match r {
                Some(value) => self@.contains_key(key@) && value@ == self@[key@],
                None => !self@.contains_key(key@),
            },
    {
        proof {
            use_type_invariant(self);
        }
        match self.entries.get(key) {
            Some(entry) => Some(&entry.value),
            None => None,
        }
    }

    pub fn contains(&self, key: &Name) -> (r: bool)
        ensures
            r == self@.contains_key(key@),
    {
        proof {
            use_type_invariant(self);
        }
        self.entries.contains(key)
    }

    /// Stores `value` under `key` and returns the value it replaces.
    pub fn insert(&mut self, key: Name, value: Json) -> (r: Option<Json>)
        ensures
            final(self)@ == old(self)@.insert(key@, value@),
            match r {
                Some(prev) => old(self)@.contains_key(key@) && prev@ == old(self)@[key@],
                None => !old(self)@.contains_key(key@),
            },
    {
        proof {
            use_type_invariant(&*self);
        }
        let mut entries = Registry::new();
        std::mem::swap(&mut entries, &mut self.entries);
        let r = match entries.insert(KeyValue { key, value }) {
            Some(prev) => Some(prev.value),
            None => None,
        };
        self.entries = entries;
        proof {
            assert(self@ =~= old(self)@.insert(key@, value@));
        }
        r
    }

    /// Takes the entry under `key` out and returns its value.
    pub fn remove(&mut self, key: &Name) -> (r: Option<Json>)
        ensures
            final(self)@ == old(self)@.remove(key@),
            match r {
                Some(prev) => old(self)@.contains_key(key@) && prev@ == old(self)@[key@],
                None => !old(self)@.contains_key(key@) && final(self)@ == old(self)@,
            },
    {
        proof {
            use_type_invariant(&*self);
        }
        let mut entries = Registry::new();
        std::mem::swap(&mut entries, &mut self.entries);
        let r = match entries.remove(key) {
            Some(prev) => Some(prev.value),
            None => None,
        };
        self.entries = entries;
        proof {
            assert(self@ =~= old(self)@.remove(key@));
            if r is None {
                assert(self@ =~= old(self)@);
            }
        }
        r
    }
}

impl Clone for Metadata {
    fn clone(&self) -> (r: Metadata)
        ensures
            r@ == self@,
            r.pairs() == self.pairs(),
    {
        proof {
            use_type_invariant(self);
        }
        Metadata { entries: self.entries.duplicate() }
    }
}

impl Default for Metadata {
    fn default() -> (r: Metadata)
        ensures
            r@ == Map::<Seq<char>, Seq<char>>::empty(),
    {
        Metadata::new()
    }
}

} // verus!
