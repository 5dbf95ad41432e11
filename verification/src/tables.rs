//! Hash tables, as seen by verified code.
use rustc_hash::{FxBuildHasher, FxHashMap};
use std::collections::HashMap;
use std::hash::Hash;
use crate::addr::RouteKey;
use vstd::prelude::*;

verus! {

/// `rustc_hash::FxBuildHasher`, the state-free hasher factory behind `FxHashMap`.
#[verifier::external_type_specification]
#[verifier::external_body]
pub struct ExFxBuildHasher(FxBuildHasher);

/// `FxHashMap::insert`: binds `k` to `v` and returns what `k` was bound to.
#[verifier::external_body]
pub(crate) fn fx_insert<K: Eq + Hash, V>(m: &mut FxHashMap<K, V>, k: K, v: V) -> (prev: Option<V>)
    requires
        vstd::std_specs::hash::obeys_key_model::<K>(),
    ensures
        final(m)@ == old(m)@.insert(k, v),
        prev == (if old(m)@.contains_key(k) { Some(old(m)@[k]) } else { None }),
{
    m.insert(k, v)
}

/// `FxHashMap::get`: what `k` is bound to, if anything.
#[verifier::external_body]
pub(crate) fn fx_get<'a, K: Eq + Hash, V>(m: &'a FxHashMap<K, V>, k: &K) -> (r: Option<&'a V>)
    requires
        vstd::std_specs::hash::obeys_key_model::<K>(),
    ensures
        r == (if m@.contains_key(*k) { Some(&m@[*k]) } else { None }),
{
    m.get(k)
}

/// `FxHashMap::get_mut`: a place to change what `k` is bound to, if anything.
#[verifier::external_body]
pub(crate) fn fx_get_mut<'a, K: Eq + Hash, V>(m: &'a mut FxHashMap<K, V>, k: &K) -> (r: Option<&'a mut V>)
    requires
        vstd::std_specs::hash::obeys_key_model::<K>(),
    ensures
        match r {
            Some(v) => {
                &&& old(m)@.contains_key(*k)
                &&& *v == old(m)@[*k]
                &&& final(m)@ == old(m)@.insert(*k, *final(v))
            },
            None => !old(m)@.contains_key(*k) && final(m)@ == old(m)@,
        },
{
    m.get_mut(k)
}

/// `FxHashMap::remove`: unbinds `k` and returns what it was bound to.
#[verifier::external_body]
pub(crate) fn fx_remove<K: Eq + Hash, V>(m: &mut FxHashMap<K, V>, k: &K) -> (prev: Option<V>)
    requires
        vstd::std_specs::hash::obeys_key_model::<K>(),
    ensures
        final(m)@ == old(m)@.remove(*k),
        prev == (if old(m)@.contains_key(*k) { Some(old(m)@[*k]) } else { None }),
{
    m.remove(k)
}

/// `FxHashMap::keys`, collected: every bound key once, in no particular order.
#[verifier::external_body]
pub(crate) fn fx_keys<K: Eq + Hash + Copy, V>(m: &FxHashMap<K, V>) -> (ks: Vec<K>)
    requires
        vstd::std_specs::hash::obeys_key_model::<K>(),
    ensures
        ks@.no_duplicates(),
        ks@.to_set() == m@.dom(),
{
    m.keys().copied().collect()
}

/// The entries of a table keyed by byte strings, with each key taken by its bytes.
pub open spec fn by_bytes(m: Map<Vec<u8>, usize>) -> Map<Seq<u8>, usize> {
    Map::new(
        |s: Seq<u8>| exists|k: Vec<u8>| #[trigger] m.contains_key(k) && k@ == s,
        |s: Seq<u8>| m[choose|k: Vec<u8>| #[trigger] m.contains_key(k) && k@ == s],
    )
}

/// A table without entries stays one when its keys are taken by their bytes.
pub(crate) proof fn lemma_by_bytes_empty()
    ensures
        by_bytes(Map::<Vec<u8>, usize>::empty()) == Map::<Seq<u8>, usize>::empty(),
{
    assert(by_bytes(Map::<Vec<u8>, usize>::empty()) =~= Map::<Seq<u8>, usize>::empty());
}

/// `FxHashMap::insert` on byte-string keys, which are equal when their bytes are: binds `k` to
/// `h`.
#[verifier::external_body]
pub(crate) fn cid_insert(m: &mut FxHashMap<Vec<u8>, usize>, k: Vec<u8>, h: usize)
    ensures
        by_bytes(final(m)@) == by_bytes(old(m)@).insert(k@, h),
{
    m.insert(k, h);
}

/// `FxHashMap::get` on byte-string keys, looked up by a slice of the same bytes: what the bytes
/// are bound to, if anything.
#[verifier::external_body]
pub(crate) fn cid_get(m: &FxHashMap<Vec<u8>, usize>, k: &[u8]) -> (r: Option<usize>)
    ensures
        r == (if by_bytes(m@).contains_key(k@) { Some(by_bytes(m@)[k@]) } else { None }),
{
    m.get(k).copied()
}

/// `FxHashMap::remove` on byte-string keys, looked up by a slice of the same bytes: unbinds
/// them.
#[verifier::external_body]
pub(crate) fn cid_remove(m: &mut FxHashMap<Vec<u8>, usize>, k: &[u8])
    ensures
        by_bytes(final(m)@) == by_bytes(old(m)@).remove(k@),
{
    m.remove(k);
}

/// `HashMap::insert` on keys made of numbers: binds `k` to `h`.
#[verifier::external_body]
pub(crate) fn remote_insert(m: &mut HashMap<RouteKey, usize>, k: RouteKey, h: usize)
    ensures
        final(m)@ == old(m)@.insert(k, h),
{
    m.insert(k, h);
}

/// `HashMap::get` on keys made of numbers: what `k` is bound to, if anything.
#[verifier::external_body]
pub(crate) fn remote_get(m: &HashMap<RouteKey, usize>, k: &RouteKey) -> (r: Option<usize>)
    ensures
        r == (if m@.contains_key(*k) { Some(m@[*k]) } else { None }),
{
    m.get(k).copied()
}

/// `HashMap::remove` on keys made of numbers: unbinds `k`.
#[verifier::external_body]
pub(crate) fn remote_remove(m: &mut HashMap<RouteKey, usize>, k: &RouteKey)
    ensures
        final(m)@ == old(m)@.remove(*k),
{
    m.remove(k);
}

} // verus!
