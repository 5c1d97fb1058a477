//! Hash maps and sets keyed by `u64` and hashed with the Fx hasher.
//!
//! The collections are those of `std`; only the hasher comes from
//! `rustc_hash`.  An empty collection is made with `Default::default()` and
//! copied with `clone()`, both of which `vstd` specifies for every hasher.
//! The functions here cover the rest: they state, without proof, that a
//! collection hashed with Fx behaves as the mathematical map or set that is
//! its view.

use rustc_hash::{FxBuildHasher, FxHashMap, FxHashSet};
use vstd::prelude::*;

verus! {

/// The hasher builder of `rustc_hash`, a stateless unit value.
#[verifier::external_type_specification]
#[verifier::external_body]
pub struct ExFxBuildHasher(FxBuildHasher);

/// `HashMap::insert` on an Fx-hashed map: afterwards the map holds `v` under
/// `k` and every other key is as it was.
#[verifier::external_body]
pub(crate) fn map_insert<V>(m: &mut FxHashMap<u64, V>, k: u64, v: V)
    ensures
        final(m)@ == old(m)@.insert(k, v),
{
    m.insert(k, v);
}

/// `HashMap::get` on an Fx-hashed map, with the value copied out: the value
/// held under `k`, or `None` where the map has no such key.
#[verifier::external_body]
pub(crate) fn map_get<V: Copy>(m: &FxHashMap<u64, V>, k: u64) -> (r: Option<V>)
    ensures
        r == (if m@.contains_key(k) {
            Some(m@[k])
        } else {
            None::<V>
        }),
{
    m.get(&k).copied()
}

/// Whether `entries` lists every entry of `m` exactly once.
pub open spec fn lists_entries<V>(entries: Seq<(u64, V)>, m: Map<u64, V>) -> bool {
    &&& forall|i: int|
        0 <= i < entries.len() ==> m.contains_key((#[trigger] entries[i]).0) && m[entries[i].0]
            == entries[i].1
    &&& forall|i: int, j: int|
        0 <= i < j < entries.len() ==> (#[trigger] entries[i]).0 != (#[trigger] entries[j]).0
    &&& forall|k: u64| #[trigger]
        m.contains_key(k) ==> exists|i: int| 0 <= i < entries.len() && (#[trigger] entries[i]).0 == k
}

/// `HashMap::iter` on an Fx-hashed map, collected: every entry of the map
/// exactly once, in an order that is not specified.
#[verifier::external_body]
pub(crate) fn map_entries<V: Copy>(m: &FxHashMap<u64, V>) -> (r: Vec<(u64, V)>)
    ensures
        lists_entries(r@, m@),
{
    m.iter().map(|(k, v)| (*k, *v)).collect()
}

/// `HashSet::insert` on an Fx-hashed set: afterwards the set holds `k` and
/// whatever it held before.
#[verifier::external_body]
pub(crate) fn set_insert(s: &mut FxHashSet<u64>, k: u64)
    ensures
        final(s)@ == old(s)@.insert(k),
{
    s.insert(k);
}

/// `HashSet::contains` on an Fx-hashed set: whether the set holds `k`.
#[verifier::external_body]
pub(crate) fn set_contains(s: &FxHashSet<u64>, k: u64) -> (r: bool)
    ensures
        r == s@.contains(k),
{
    s.contains(&k)
}

} // verus!
