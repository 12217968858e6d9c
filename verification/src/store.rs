//! A small keyed store over `std::collections::HashMap`, viewed as a
//! mathematical `Map<u128, V>`. Every state map of the engine (payments,
//! currencies, identities, resolvers, ledger slots) is kept in one of these.

use vstd::prelude::*;
use std::collections::HashMap;

verus! {

broadcast use vstd::std_specs::hash::group_hash_axioms;

pub struct Store<V> {
    m: HashMap<u128, V>,
}

impl<V> Store<V> {
    pub closed spec fn view(self) -> Map<u128, V> {
        self.m@
    }

    pub fn new() -> (s: Self)
        ensures
            s@ == Map::<u128, V>::empty(),
    {
        Store { m: HashMap::new() }
    }

    pub fn contains_key(&self, k: u128) -> (r: bool)
        ensures
            r == self@.contains_key(k),
    {
        self.m.contains_key(&k)
    }

    pub fn get(&self, k: u128) -> (r: Option<&V>)
        ensures
            match r {
                Some(v) => self@.contains_key(k) && *v == self@[k],
                None => !self@.contains_key(k),
            },
    {
        self.m.get(&k)
    }

    pub fn insert(&mut self, k: u128, v: V)
        ensures
            final(self)@ == old(self)@.insert(k, v),
    {
        self.m.insert(k, v);
    }

    pub fn remove(&mut self, k: u128) -> (r: Option<V>)
        ensures
            final(self)@ == old(self)@.remove(k),
            match r {
                Some(v) => old(self)@.contains_key(k) && v == old(self)@[k],
                None => !old(self)@.contains_key(k) && final(self)@ == old(self)@,
            },
    {
        let r = self.m.remove(&k);
        proof {
            if !old(self)@.contains_key(k) {
                assert(self.m@ =~= old(self).m@);
            }
        }
        r
    }
}

} // verus!
