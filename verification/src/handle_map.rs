//! The kernel's hash map: integers to handles, with a fixed hasher.

use vstd::prelude::*;

use ahash::RandomState;

verus! {

/// A `hashbrown::HashMap` from integers to handles, hashed by
/// `ahash::RandomState`. Nothing inside is visible to proofs; `entries` names
/// what it holds.
#[verifier::external_body]
pub struct HandleMap {
    map: hashbrown::HashMap<i32, u64, RandomState>,
}

/// What a `HandleMap` holds.
pub uninterp spec fn entries(map: HandleMap) -> Map<i32, u64>;

/// A map without entries.
pub open spec fn no_entries() -> Map<i32, u64> {
    Map::empty()
}

impl View for HandleMap {
    type V = Map<i32, u64>;

    /// The handles by key.
    open spec fn view(&self) -> Map<i32, u64> {
        entries(*self)
    }
}

/// Whether `items` lists every entry of `map` once, in any order.
pub open spec fn lists(items: Seq<(i32, u64)>, map: Map<i32, u64>) -> bool {
    &&& forall|i: int|
        0 <= i < items.len() ==> map.contains_key((#[trigger] items[i]).0) && map[items[i].0]
            == items[i].1
    &&& forall|i: int, j: int|
        0 <= i < j < items.len() ==> (#[trigger] items[i]).0 != (#[trigger] items[j]).0
    &&& forall|k: i32|
        #[trigger] map.contains_key(k) ==> exists|i: int|
            0 <= i < items.len() && (#[trigger] items[i]).0 == k
}

impl HandleMap {
    /// `hashbrown::HashMap::with_hasher` with `ahash::RandomState::with_seeds`:
    /// the map is empty. The seeds only choose where entries lie.
    #[verifier::external_body]
    pub(crate) fn with_seeds(k0: u64, k1: u64, k2: u64, k3: u64) -> (r: Self)
        ensures
            entries(r) == no_entries(),
    {
        HandleMap { map: hashbrown::HashMap::with_hasher(RandomState::with_seeds(k0, k1, k2, k3)) }
    }

    /// `hashbrown::HashMap::get`: the handle of `key`, if there is one.
    #[verifier::external_body]
    pub(crate) fn get(&self, key: i32) -> (r: Option<u64>)
        ensures
            r == (if entries(*self).contains_key(key) {
                Some(entries(*self)[key])
            } else {
                None
            }),
    {
        self.map.get(&key).copied()
    }

    /// `hashbrown::HashMap::contains_key`: whether there is a handle of `key`.
    #[verifier::external_body]
    pub(crate) fn contains_key(&self, key: i32) -> (r: bool)
        ensures
            r == entries(*self).contains_key(key),
    {
        self.map.contains_key(&key)
    }

    /// `hashbrown::HashMap::insert`: sets the handle of `key` and returns the
    /// one it replaces.
    #[verifier::external_body]
    pub(crate) fn insert(&mut self, key: i32, handle: u64) -> (r: Option<u64>)
        ensures
            entries(*final(self)) == entries(*old(self)).insert(key, handle),
            r == (if entries(*old(self)).contains_key(key) {
                Some(entries(*old(self))[key])
            } else {
                None
            }),
    {
        self.map.insert(key, handle)
    }

    /// `hashbrown::HashMap::remove`: takes the handle of `key` out.
    #[verifier::external_body]
    pub(crate) fn remove(&mut self, key: i32) -> (r: Option<u64>)
        ensures
            entries(*final(self)) == entries(*old(self)).remove(key),
            r == (if entries(*old(self)).contains_key(key) {
                Some(entries(*old(self))[key])
            } else {
                None
            }),
    {
        self.map.remove(&key)
    }

    /// `hashbrown::HashMap::len`: the number of entries.
    #[verifier::external_body]
    pub(crate) fn len(&self) -> (r: usize)
        ensures
            r == entries(*self).dom().len(),
    {
        self.map.len()
    }

    /// `hashbrown::HashMap::iter`: every entry once, in no particular order.
    #[verifier::external_body]
    pub(crate) fn items(&self) -> (r: Vec<(i32, u64)>)
        ensures
            lists(r@, entries(*self)),
    {
        self.map.iter().map(|(key, handle)| (*key, *handle)).collect()
    }
}

} // verus!
