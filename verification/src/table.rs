//! The concurrent map that holds, for each event type, the listeners
//! registered for it (listener id to its "once" flag).

use std::collections::HashMap;
use dashmap::DashMap;
use vstd::prelude::*;

verus! {

/// `dashmap::DashMap`, carried through the library as an opaque value.
#[verifier::external_type_specification]
#[verifier::external_body]
#[verifier::reject_recursive_types(K)]
#[verifier::reject_recursive_types(V)]
#[verifier::reject_recursive_types(S)]
pub struct ExDashMap<K, V, S>(DashMap<K, V, S>);

/// What a listener table holds: for each event type key, the map from
/// listener id to whether that listener fires only once.
pub uninterp spec fn table_contents(t: DashMap<u64, HashMap<usize, bool>>) -> Map<u64, Map<usize, bool>>;

/// Calls `DashMap::new`: the new map holds nothing.
#[verifier::external_body]
pub(crate) fn table_new() -> (t: DashMap<u64, HashMap<usize, bool>>)
    ensures
        table_contents(t).dom().is_empty(),
{
    DashMap::new()
}

/// Calls `DashMap::with_capacity`: the new map holds nothing, whatever
/// capacity it was given.
#[verifier::external_body]
pub(crate) fn table_with_capacity(capacity: usize) -> (t: DashMap<u64, HashMap<usize, bool>>)
    ensures
        table_contents(t).dom().is_empty(),
{
    DashMap::with_capacity(capacity)
}

/// Calls `DashMap::get` and clones the value it finds: `None` when the
/// key is absent, else a copy of the map stored under the key.
#[verifier::external_body]
pub(crate) fn table_get(t: &DashMap<u64, HashMap<usize, bool>>, key: u64) -> (r: Option<HashMap<usize, bool>>)
    ensures
        r is None <==> !table_contents(*t).contains_key(key),
        r matches Some(h) ==> h@ == table_contents(*t)[key],
{
    t.get(&key).map(|entry| entry.value().clone())
}

/// Calls `DashMap::insert`: the key now maps to the given value, every
/// other key is unchanged, and the previous value (if any) comes back.
#[verifier::external_body]
pub(crate) fn table_insert(t: &mut DashMap<u64, HashMap<usize, bool>>, key: u64, value: HashMap<usize, bool>) -> (r: Option<HashMap<usize, bool>>)
    ensures
        table_contents(*final(t)) == table_contents(*old(t)).insert(key, value@),
        r is None <==> !table_contents(*old(t)).contains_key(key),
        r matches Some(h) ==> h@ == table_contents(*old(t))[key],
{
    t.insert(key, value)
}

/// Calls `DashMap::iter` and copies out every entry as a pair of key and
/// value. The order follows the map's shards and is left unsaid; each key
/// of the map comes out exactly once, with the value stored under it.
#[verifier::external_body]
pub(crate) fn table_entries(t: &DashMap<u64, HashMap<usize, bool>>) -> (r: Vec<(u64, HashMap<usize, bool>)>)
    ensures
        forall|i: int| 0 <= i < r@.len() ==> #[trigger] table_contents(*t).contains_key(r@[i].0),
        forall|i: int| 0 <= i < r@.len() ==> (#[trigger] r@[i]).1@ == table_contents(*t)[r@[i].0],
        forall|i: int, j: int| 0 <= i < r@.len() && 0 <= j < r@.len() && i != j ==> (#[trigger] r@[i]).0 != (#[trigger] r@[j]).0,
        forall|k: u64| #[trigger] table_contents(*t).contains_key(k) ==> exists|i: int| 0 <= i < r@.len() && (#[trigger] r@[i]).0 == k,
{
    t.iter().map(|entry| (*entry.key(), entry.value().clone())).collect()
}

} // verus!
