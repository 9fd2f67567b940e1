//! The FNV-hashed maps that the region keeps, and what their operations do.
//!
//! `FnvHashMap` is std's `HashMap` with the FNV hasher of the `fnv` crate.
//! The functions below each make one call of std's `HashMap` on such a map;
//! their contracts describe that call over the map's contents `map@`. They
//! hold for the key types used here, whose `Eq` and `Hash` are derived and
//! compare the plain values, and for FNV, which hashes equal keys equally.
use crate::ast::{Designator, SrcPos, Symbol};
use fnv::FnvHashMap;
use fnv::FnvHasher;
use std::hash::BuildHasherDefault;
use vstd::prelude::*;

verus! {

/// The FNV hasher of the `fnv` crate.
#[verifier::external_type_specification]
#[verifier::external_body]
pub struct ExFnvHasher(FnvHasher);

/// std's builder of default-constructed hashers.
#[verifier::external_type_specification]
#[verifier::external_body]
#[verifier::reject_recursive_types(H)]
pub struct ExBuildHasherDefault<H>(BuildHasherDefault<H>);

/// `entries` lists each entry of `map` exactly once, in some order.
pub open spec fn lists_entries<K, V>(entries: Seq<(K, V)>, map: Map<K, V>) -> bool {
    &&& forall|i: int|
        #![trigger entries[i]]
        0 <= i < entries.len() ==> map.contains_key(entries[i].0) && entries[i].1 == map[entries[i].0]
    &&& forall|i: int, j: int|
        #![trigger entries[i], entries[j]]
        0 <= i < j < entries.len() ==> entries[i].0 != entries[j].0
    &&& forall|k: K| #[trigger] map.contains_key(k) ==> exists|i: int| 0 <= i < entries.len() && entries[i].0 == k
}

/// `HashMap::get` on a map keyed by designators: the value stored under
/// `key`, or `None` where there is none.
#[verifier::external_body]
pub(crate) fn designator_map_get<'m, V>(map: &'m FnvHashMap<Designator, V>, key: &Designator) -> (found: Option<&'m V>)
    ensures
        found is Some <==> map@.contains_key(*key),
        found matches Some(v) ==> *v == map@[*key],
{
    map.get(key)
}

/// `HashMap::insert` on a map keyed by designators: afterwards `key` maps
/// to `value` and every other key to what it mapped to before.
#[verifier::external_body]
pub(crate) fn designator_map_insert<V>(map: &mut FnvHashMap<Designator, V>, key: Designator, value: V)
    ensures
        final(map)@ == old(map)@.insert(key, value),
{
    map.insert(key, value);
}

/// `HashMap::remove` on a map keyed by designators: takes out and returns
/// the value stored under `key`, if any; the other entries stay.
#[verifier::external_body]
pub(crate) fn designator_map_remove<V>(map: &mut FnvHashMap<Designator, V>, key: &Designator) -> (removed: Option<V>)
    ensures
        final(map)@ == old(map)@.remove(*key),
        removed is Some <==> old(map)@.contains_key(*key),
        removed matches Some(v) ==> v == old(map)@[*key],
{
    map.remove(key)
}

/// `HashMap::iter` on a map keyed by designators, collected: every entry
/// once, in the order in which the map is walked, which is left open.
#[verifier::external_body]
pub(crate) fn designator_map_entries<'m, V>(map: &'m FnvHashMap<Designator, V>) -> (entries: Vec<(&'m Designator, &'m V)>)
    ensures
        lists_entries(entries@.map_values(|e: (&'m Designator, &'m V)| (*e.0, *e.1)), map@),
{
    map.iter().collect()
}

/// `HashMap::get` on a map keyed by symbols.
#[verifier::external_body]
pub(crate) fn symbol_map_get<'m, V>(map: &'m FnvHashMap<Symbol, V>, key: &Symbol) -> (found: Option<&'m V>)
    ensures
        found is Some <==> map@.contains_key(*key),
        found matches Some(v) ==> *v == map@[*key],
{
    map.get(key)
}

/// `HashMap::insert` on a map keyed by symbols.
#[verifier::external_body]
pub(crate) fn symbol_map_insert<V>(map: &mut FnvHashMap<Symbol, V>, key: Symbol, value: V)
    ensures
        final(map)@ == old(map)@.insert(key, value),
{
    map.insert(key, value);
}

/// `HashMap::insert` on a map keyed by optional source positions.
#[verifier::external_body]
pub(crate) fn position_map_insert<V>(map: &mut FnvHashMap<Option<SrcPos>, V>, key: Option<SrcPos>, value: V)
    ensures
        final(map)@ == old(map)@.insert(key, value),
{
    map.insert(key, value);
}

/// `HashMap::into_iter` on a map keyed by optional source positions,
/// collected: every entry once, in an order that is left open.
#[verifier::external_body]
pub(crate) fn position_map_into_entries<V>(map: FnvHashMap<Option<SrcPos>, V>) -> (entries: Vec<(Option<SrcPos>, V)>)
    ensures
        lists_entries(entries@, map@),
{
    map.into_iter().collect()
}

} // verus!
