//! Things that wait for an answer, each under the number of the request it answers:
//! the bookkeeping of the services that send requests to other nodes and answer theirs.
use vstd::prelude::*;
use std::collections::HashMap;

verus! {

broadcast use vstd::std_specs::hash::group_hash_axioms;

/// What waits for an answer, by the number of the request.
pub struct Pending<V> {
    map: HashMap<u64, V>,
}

impl<V> View for Pending<V> {
    type V = Map<u64, V>;

    closed spec fn view(&self) -> Map<u64, V> {
        self.map@
    }
}

impl<V> Pending<V> {
    /// Nothing waits.
    pub fn new() -> (r: Pending<V>)
        ensures
            r@ == Map::<u64, V>::empty(),
    {
        Pending { map: HashMap::new() }
    }

    /// Each number with what waits under it, in the map's own order.
    pub fn entries(&self) -> (r: &HashMap<u64, V>)
        ensures
            r@ == self@,
    {
        &self.map
    }

    /// What waits under `key`, left in place.
    pub fn get(&self, key: u64) -> (r: Option<&V>)
        ensures
            r == (if self@.contains_key(key) { Some(&self@[key]) } else { None::<&V> }),
    {
        self.map.get(&key)
    }

    /// Whether something waits under `key`.
    pub fn contains(&self, key: u64) -> (r: bool)
        ensures
            r == self@.contains_key(key),
    {
        self.map.contains_key(&key)
    }

    /// Takes out what waits under `key`.
    pub fn remove(&mut self, key: u64) -> (r: Option<V>)
        ensures
            final(self)@ == old(self)@.remove(key),
            r == (if old(self)@.contains_key(key) { Some(old(self)@[key]) } else { None::<V> }),
    {
        self.map.remove(&key)
    }

    /// Puts `value` under `key`, in place of what waited there before, which it
    /// hands back.
    pub fn insert(&mut self, key: u64, value: V) -> (r: Option<V>)
        ensures
            final(self)@ == old(self)@.insert(key, value),
            r == (if old(self)@.contains_key(key) { Some(old(self)@[key]) } else { None::<V> }),
    {
        self.map.insert(key, value)
    }
}

} // verus!
