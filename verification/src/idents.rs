//! Identity-keyed membership set and identity-to-index map, backed by
//! `rustc_hash`'s `FxHashSet` / `FxHashMap` as the pipeline's working
//! storage. Both are abstracted by their contents alone: the set as the
//! set of key character sequences it holds, the map as a map from key
//! character sequences to indices. No ordering of the stored keys is ever
//! relied on.

use vstd::prelude::*;

verus! {

/// Membership set of normalized identity keys.
#[verifier::external_body]
pub struct IdentSet {
    set: rustc_hash::FxHashSet<String>,
}

/// The set of key character sequences an `IdentSet` holds.
pub uninterp spec fn ident_set_view(s: IdentSet) -> Set<Seq<char>>;

impl IdentSet {
    /// Relies on `FxHashSet::default` (a `std::collections::HashSet` with
    /// rustc-hash's deterministic hasher): a fresh set holds nothing.
    #[verifier::external_body]
    pub fn new() -> (s: IdentSet)
        ensures
            ident_set_view(s) == Set::<Seq<char>>::empty(),
    {
        IdentSet { set: rustc_hash::FxHashSet::default() }
    }

    /// Relies on `HashSet::insert`: afterwards the set holds exactly what
    /// it held before plus `key`, `String` equality being equality of the
    /// character sequences.
    #[verifier::external_body]
    pub fn insert(&mut self, key: String)
        ensures
            ident_set_view(*final(self)) == ident_set_view(*old(self)).insert(key@),
    {
        self.set.insert(key);
    }

    /// Relies on `HashSet::contains`: true exactly when a `String` equal
    /// to `key` (as a character sequence) was inserted.
    #[verifier::external_body]
    pub fn contains(&self, key: &str) -> (present: bool)
        ensures
            present == ident_set_view(*self).contains(key@),
    {
        self.set.contains(key)
    }
}

/// Map from normalized identity keys to node positions.
#[verifier::external_body]
pub struct IdentIndexMap {
    map: rustc_hash::FxHashMap<String, u32>,
}

/// The key-to-index map an `IdentIndexMap` holds, keyed by the key
/// character sequences.
pub uninterp spec fn ident_map_view(m: IdentIndexMap) -> Map<Seq<char>, u32>;

impl IdentIndexMap {
    /// Relies on `FxHashMap::default` (a `std::collections::HashMap` with
    /// rustc-hash's deterministic hasher): a fresh map holds nothing.
    #[verifier::external_body]
    pub fn new() -> (m: IdentIndexMap)
        ensures
            (ident_map_view(m) == Map::<Seq<char>, u32>::empty()),
    {
        IdentIndexMap { map: rustc_hash::FxHashMap::default() }
    }

    /// Relies on `HashMap::insert`: afterwards `key` is bound to `index`
    /// and every other binding is unchanged, `String` equality being
    /// equality of the character sequences.
    #[verifier::external_body]
    pub fn insert(&mut self, key: String, index: u32)
        ensures
            ident_map_view(*final(self)) == ident_map_view(*old(self)).insert(key@, index),
    {
        self.map.insert(key, index);
    }

    /// Relies on `HashMap::get`: returns the index bound to a `String`
    /// equal to `key` (as a character sequence), or nothing when no such
    /// binding was inserted.
    #[verifier::external_body]
    pub fn get(&self, key: &str) -> (index: Option<u32>)
        ensures
            match index {
                Some(i) => ident_map_view(*self).dom().contains(key@) && i == ident_map_view(
                    *self,
                )[key@],
                None => !ident_map_view(*self).dom().contains(key@),
            },
    {
        self.map.get(key).copied()
    }
}

} // verus!
