//! Key-to-group lookup under the two hash functions: std's SipHash map and
//! ahash's `AHashMap`. Both hold byte-string keys, handed out by value.
use ahash::AHashMap;
use std::collections::HashMap;
use vstd::prelude::*;

verus! {

#[verifier::external_type_specification]
#[verifier::external_body]
pub struct ExRandomState(ahash::RandomState);

#[verifier::external_type_specification]
#[verifier::external_body]
#[verifier::reject_recursive_types(K)]
#[verifier::reject_recursive_types(V)]
#[verifier::reject_recursive_types(S)]
pub struct ExAHashMap<K, V, S>(ahash::AHashMap<K, V, S>);

/// What an `AHashMap` of byte-string keys holds, by the keys' bytes.
pub uninterp spec fn fast_entries(m: AHashMap<Vec<u8>, usize>) -> Map<Seq<u8>, usize>;

/// What a std `HashMap` of byte-string keys holds, by the keys' bytes.
pub uninterp spec fn strong_entries(m: HashMap<Vec<u8>, usize>) -> Map<Seq<u8>, usize>;

/// Relies on `AHashMap::new`: a new map is empty.
#[verifier::external_body]
pub(crate) fn fast_new() -> (r: AHashMap<Vec<u8>, usize>)
    ensures
        fast_entries(r).dom() == Set::<Seq<u8>>::empty(),
{
    AHashMap::new()
}

/// Relies on `AHashMap::get`: the value stored under the key with these
/// bytes, if any (`Vec<u8>` borrows as `[u8]` with equal `Eq` and `Hash`).
#[verifier::external_body]
pub(crate) fn fast_get(m: &AHashMap<Vec<u8>, usize>, k: &[u8]) -> (r: Option<usize>)
    ensures
        r == (if fast_entries(*m).contains_key(k@) {
            Some(fast_entries(*m)[k@])
        } else {
            None
        }),
{
    m.get(k).copied()
}

/// Relies on `AHashMap::insert`: the key now maps to the value, the other
/// entries are kept.
#[verifier::external_body]
pub(crate) fn fast_insert(m: &mut AHashMap<Vec<u8>, usize>, k: Vec<u8>, v: usize)
    ensures
        fast_entries(*final(m)) == fast_entries(*old(m)).insert(k@, v),
{
    m.insert(k, v);
}

/// Relies on `HashMap::new`: a new map is empty.
#[verifier::external_body]
pub(crate) fn strong_new() -> (r: HashMap<Vec<u8>, usize>)
    ensures
        strong_entries(r).dom() == Set::<Seq<u8>>::empty(),
{
    HashMap::new()
}

/// Relies on `HashMap::get`: the value stored under the key with these
/// bytes, if any (`Vec<u8>` borrows as `[u8]` with equal `Eq` and `Hash`).
#[verifier::external_body]
pub(crate) fn strong_get(m: &HashMap<Vec<u8>, usize>, k: &[u8]) -> (r: Option<usize>)
    ensures
        r == (if strong_entries(*m).contains_key(k@) {
            Some(strong_entries(*m)[k@])
        } else {
            None
        }),
{
    m.get(k).copied()
}

/// Relies on `HashMap::insert`: the key now maps to the value, the other
/// entries are kept.
#[verifier::external_body]
pub(crate) fn strong_insert(m: &mut HashMap<Vec<u8>, usize>, k: Vec<u8>, v: usize)
    ensures
        strong_entries(*final(m)) == strong_entries(*old(m)).insert(k@, v),
{
    m.insert(k, v);
}

/// Which hash function the grouping table uses.
#[derive(Clone, Copy, Debug, PartialEq, Eq, Structural)]
pub enum HashPolicy {
    /// std's default SipHash, a keyed hash of cryptographic strength.
    Strong,
    /// ahash, a fast non-cryptographic hash.
    Fast,
}

/// A map from key bytes to group numbers under one of the hash functions.
pub enum KeyIndex {
    Strong(HashMap<Vec<u8>, usize>),
    Fast(AHashMap<Vec<u8>, usize>),
}

impl KeyIndex {
    /// The entries, whatever the hash function.
    pub open spec fn entries(&self) -> Map<Seq<u8>, usize> {
        match self {
            KeyIndex::Strong(m) => strong_entries(*m),
            KeyIndex::Fast(m) => fast_entries(*m),
        }
    }

    pub fn new(policy: HashPolicy) -> (r: KeyIndex)
        ensures
            r.entries().dom() == Set::<Seq<u8>>::empty(),
    {
        match policy {
            HashPolicy::Strong => KeyIndex::Strong(strong_new()),
            HashPolicy::Fast => KeyIndex::Fast(fast_new()),
        }
    }

    pub fn get(&self, k: &[u8]) -> (r: Option<usize>)
        ensures
            r == (if self.entries().contains_key(k@) {
                Some(self.entries()[k@])
            } else {
                None
            }),
    {
        match self {
            KeyIndex::Strong(m) => strong_get(m, k),
            KeyIndex::Fast(m) => fast_get(m, k),
        }
    }

    pub fn insert(&mut self, k: Vec<u8>, v: usize)
        ensures
            final(self).entries() == old(self).entries().insert(k@, v),
    {
        match self {
            KeyIndex::Strong(m) => strong_insert(m, k, v),
            KeyIndex::Fast(m) => fast_insert(m, k, v),
        }
    }
}

} // verus!
