use crate::objects::{ObjectData, ObjectView};
use dashmap::DashMap;
use std::hash::RandomState;
use vstd::prelude::*;

verus! {

#[verifier::external_type_specification]
#[verifier::external_body]
#[verifier::reject_recursive_types(K)]
#[verifier::reject_recursive_types(V)]
#[verifier::reject_recursive_types(S)]
pub struct ExDashMap<K, V, S>(DashMap<K, V, S>);

/// Catalog map from address to record.
pub type ObjectMap = DashMap<u64, ObjectData, RandomState>;

/// Catalog map from object id to address.
pub type IdMap = DashMap<i32, u64, RandomState>;

/// What an address-keyed catalog map holds, by key.
pub uninterp spec fn objects_of(m: ObjectMap) -> Map<u64, ObjectView>;

/// What an id-keyed catalog map holds, by key.
pub uninterp spec fn ids_of(m: IdMap) -> Map<i32, u64>;

/// Relies on `DashMap::new`: the map starts empty.
#[verifier::external_body]
pub(crate) fn new_object_map() -> (r: ObjectMap)
    ensures
        objects_of(r).dom() == Set::<u64>::empty(),
{
    DashMap::new()
}

/// Relies on `DashMap::new`: the map starts empty.
#[verifier::external_body]
pub(crate) fn new_id_map() -> (r: IdMap)
    ensures
        ids_of(r).dom() == Set::<i32>::empty(),
{
    DashMap::new()
}

/// Relies on `DashMap::get`: the value under the key, if there is one.
#[verifier::external_body]
pub(crate) fn object_get(m: &ObjectMap, k: u64) -> (r: Option<ObjectData>)
    ensures
        match r {
            Some(o) => objects_of(*m).contains_key(k) && o@ == objects_of(*m)[k],
            None => !objects_of(*m).contains_key(k),
        },
{
    m.get(&k).map(|e| e.value().copy_of())
}

/// Relies on `DashMap::insert`: the key now maps to the value, other keys
/// are untouched.
#[verifier::external_body]
pub(crate) fn object_insert(m: &mut ObjectMap, k: u64, v: ObjectData)
    ensures
        objects_of(*final(m)) == objects_of(*old(m)).insert(k, v@),
{
    m.insert(k, v);
}

/// Relies on `DashMap::clear`: no entry is left.
#[verifier::external_body]
pub(crate) fn object_clear(m: &mut ObjectMap)
    ensures
        objects_of(*final(m)).dom() == Set::<u64>::empty(),
{
    m.clear();
}

/// Relies on `DashMap::iter`: every entry is visited once; the keys are
/// listed in the order of the walk.
#[verifier::external_body]
pub(crate) fn object_keys(m: &ObjectMap) -> (r: Vec<u64>)
    ensures
        r@.no_duplicates(),
        forall|k: u64| r@.contains(k) <==> objects_of(*m).contains_key(k),
{
    m.iter().map(|e| *e.key()).collect()
}

/// Relies on `DashMap::get`: the value under the key, if there is one.
#[verifier::external_body]
pub(crate) fn id_get(m: &IdMap, k: i32) -> (r: Option<u64>)
    ensures
        match r {
            Some(a) => ids_of(*m).contains_key(k) && a == ids_of(*m)[k],
            None => !ids_of(*m).contains_key(k),
        },
{
    m.get(&k).map(|e| *e.value())
}

/// Relies on `DashMap::insert`: the key now maps to the value, other keys
/// are untouched.
#[verifier::external_body]
pub(crate) fn id_insert(m: &mut IdMap, k: i32, v: u64)
    ensures
        ids_of(*final(m)) == ids_of(*old(m)).insert(k, v),
{
    m.insert(k, v);
}

/// Relies on `DashMap::clear`: no entry is left.
#[verifier::external_body]
pub(crate) fn id_clear(m: &mut IdMap)
    ensures
        ids_of(*final(m)).dom() == Set::<i32>::empty(),
{
    m.clear();
}

} // verus!
