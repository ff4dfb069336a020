//! Trusted interface to the `ahash` crate: the authorization indices live in
//! `AHashSet<u64>` and `AHashMap<u64, u32>`. Those are thin wrappers that
//! deref to the `std::collections` maps with ahash's hasher, a hasher vstd's
//! map model does not cover, so each sits in a private field of an opaque
//! struct; `id_set_view` and `perm_map_view` name their contents, and every
//! wrapper states what the called method does to them, as `std`'s
//! documentation gives it.
use vstd::prelude::*;
use crate::permissions::key_user;

verus! {

/// Whether a key survives the deletion of a user: it does exactly when it
/// belongs to another user.
pub fn key_survives(k: u64, user_id: u32) -> (r: bool)
    ensures
        r == (key_user(k) != user_id),
{
    (k >> 32u64) as u32 != user_id
}

/// A set of u64 index keys, held in an `ahash::AHashSet`.
#[verifier::external_body]
pub struct IdSet {
    inner: ahash::AHashSet<u64>,
}

/// The keys an `IdSet` holds.
pub uninterp spec fn id_set_view(s: IdSet) -> Set<u64>;

/// A map from u64 index keys to packed permission masks, held in an
/// `ahash::AHashMap`.
#[verifier::external_body]
pub struct PermMap {
    inner: ahash::AHashMap<u64, u32>,
}

/// The key-to-mask table a `PermMap` holds.
pub uninterp spec fn perm_map_view(m: PermMap) -> Map<u64, u32>;

/// The empty key-to-mask table.
pub open spec fn empty_perm_table() -> Map<u64, u32> {
    Map::empty()
}

impl IdSet {
    /// Relies on `AHashSet::new`: the new set is empty.
    #[verifier::external_body]
    pub fn new() -> (r: IdSet)
        ensures
            id_set_view(r) == Set::<u64>::empty(),
    {
        IdSet { inner: ahash::AHashSet::new() }
    }

    /// Relies on `HashSet::insert`: afterwards the set holds `k` too.
    #[verifier::external_body]
    pub fn insert(&mut self, k: u64)
        ensures
            id_set_view(*final(self)) == id_set_view(*old(self)).insert(k),
    {
        self.inner.insert(k);
    }

    /// Relies on `HashSet::remove`: afterwards the set no longer holds `k`.
    #[verifier::external_body]
    pub fn remove(&mut self, k: u64)
        ensures
            id_set_view(*final(self)) == id_set_view(*old(self)).remove(k),
    {
        self.inner.remove(&k);
    }

    /// Relies on `HashSet::contains`.
    #[verifier::external_body]
    pub fn contains(&self, k: u64) -> (r: bool)
        ensures
            r == id_set_view(*self).contains(k),
    {
        self.inner.contains(&k)
    }

    /// Relies on `HashSet::retain`: keeps exactly the keys the predicate
    /// accepts, here those of other users.
    #[verifier::external_body]
    pub fn remove_user_keys(&mut self, user_id: u32)
        ensures
            id_set_view(*final(self)) == id_set_view(*old(self)).filter(
                |k: u64| key_user(k) != user_id,
            ),
    {
        self.inner.retain(|k| key_survives(*k, user_id));
    }
}

impl PermMap {
    /// Relies on `AHashMap::new`: the new map is empty.
    #[verifier::external_body]
    pub fn new() -> (r: PermMap)
        ensures
            perm_map_view(r) == empty_perm_table(),
    {
        PermMap { inner: ahash::AHashMap::new() }
    }

    /// Relies on `HashMap::insert`: afterwards `k` maps to `v`.
    #[verifier::external_body]
    pub fn insert(&mut self, k: u64, v: u32)
        ensures
            perm_map_view(*final(self)) == perm_map_view(*old(self)).insert(k, v),
    {
        self.inner.insert(k, v);
    }

    /// Relies on `HashMap::remove`: afterwards the map has no entry for `k`.
    #[verifier::external_body]
    pub fn remove(&mut self, k: u64)
        ensures
            perm_map_view(*final(self)) == perm_map_view(*old(self)).remove(k),
    {
        self.inner.remove(&k);
    }

    /// Relies on `HashMap::get`, copying the found mask out.
    #[verifier::external_body]
    pub fn get(&self, k: u64) -> (r: Option<u32>)
        ensures
            match r {
                Option::Some(v) => perm_map_view(*self).dom().contains(k) && perm_map_view(
                    *self,
                )[k] == v,
                Option::None => !perm_map_view(*self).dom().contains(k),
            },
    {
        self.inner.get(&k).copied()
    }

    /// Relies on `HashMap::retain`: keeps exactly the entries whose key the
    /// predicate accepts, here those of other users.
    #[verifier::external_body]
    pub fn remove_user_keys(&mut self, user_id: u32)
        ensures
            perm_map_view(*final(self)) == perm_map_view(*old(self)).remove_keys(
                Set::new(|k: u64| key_user(k) == user_id),
            ),
    {
        self.inner.retain(|k, _| key_survives(*k, user_id));
    }
}

} // verus!
