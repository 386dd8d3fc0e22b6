//! Trusted interface to `immutable_chunkmap`, the copy-on-write ordered
//! map that backs the persisted store.  Cloning a map shares structure,
//! so a full store snapshot costs O(changed nodes), not O(entities).
//!
//! The contents of a map are named by the uninterpreted functions
//! `group_map_of` and `unit_map_of`; every wrapper states what the
//! called method does to those contents, as the crate's source shows.

use vstd::prelude::*;

use crate::entity::{GroupView, SpawnedGroup, SpawnedUnit, UnitView};

verus! {

/// `immutable_chunkmap::map::Map`: a persistent AVL-of-chunks map with
/// copy-on-write in-place update operations.
#[verifier::external_type_specification]
#[verifier::external_body]
#[verifier::reject_recursive_types(K)]
#[verifier::reject_recursive_types(V)]
pub struct ExChunkMap<K: Ord + Clone, V: Clone, const SIZE: usize>(
    immutable_chunkmap::map::Map<K, V, SIZE>,
);

/// The chunk size the store uses: the crate's default, balancing
/// update and search cost.
pub type GroupMap = immutable_chunkmap::map::Map<u64, SpawnedGroup, 512>;

/// Map from unit ids to unit records.
pub type UnitMap = immutable_chunkmap::map::Map<u64, SpawnedUnit, 512>;

/// What a group map holds, as a mathematical map over record views.
pub uninterp spec fn group_map_of(m: GroupMap) -> Map<u64, GroupView>;

/// What a unit map holds, as a mathematical map over record views.
pub uninterp spec fn unit_map_of(m: UnitMap) -> Map<u64, UnitView>;

/// The map described by a sequence of key-value pairs, later pairs
/// overriding earlier ones.
pub open spec fn map_of_pairs<V>(s: Seq<(u64, V)>) -> Map<u64, V>
    decreases s.len(),
{
    if s.len() == 0 {
        Map::empty()
    } else {
        map_of_pairs(s.drop_last()).insert(s.last().0, s.last().1)
    }
}

/// The contents of a fresh group map.
pub open spec fn no_groups() -> Map<u64, GroupView> {
    Map::empty()
}

/// Relies on `Map::new`: the fresh map is empty.
#[verifier::external_body]
pub fn group_map_new() -> (r: GroupMap)
    ensures
        group_map_of(r) == no_groups(),
{
    immutable_chunkmap::map::Map::new()
}

/// Relies on `Map::get`: returns the binding of the key, if any.
#[verifier::external_body]
pub fn group_map_get(m: &GroupMap, k: u64) -> (r: Option<&SpawnedGroup>)
    ensures
        match r {
            Some(g) => group_map_of(*m).contains_key(k) && g@ == group_map_of(*m)[k],
            None => !group_map_of(*m).contains_key(k),
        },
{
    m.get(&k)
}

/// Relies on `Map::insert_cow`: binds the key in place, returning any
/// previous binding.
#[verifier::external_body]
pub fn group_map_insert(m: &mut GroupMap, k: u64, v: SpawnedGroup) -> (r: Option<SpawnedGroup>)
    ensures
        group_map_of(*final(m)) == group_map_of(*old(m)).insert(k, v@),
        group_map_of(*final(m)).dom().finite(),
        match r {
            Some(g) => group_map_of(*old(m)).contains_key(k) && g@ == group_map_of(*old(m))[k],
            None => !group_map_of(*old(m)).contains_key(k),
        },
{
    m.insert_cow(k, v)
}

/// Relies on `Map::remove_cow`: unbinds the key in place, returning
/// any previous binding.
#[verifier::external_body]
pub fn group_map_remove(m: &mut GroupMap, k: u64) -> (r: Option<SpawnedGroup>)
    ensures
        group_map_of(*final(m)) == group_map_of(*old(m)).remove(k),
        match r {
            Some(g) => group_map_of(*old(m)).contains_key(k) && g@ == group_map_of(*old(m))[k],
            None => !group_map_of(*old(m)).contains_key(k),
        },
{
    m.remove_cow(&k)
}

/// Relies on `Map::len`: the number of bindings, in O(1).
#[verifier::external_body]
pub fn group_map_len(m: &GroupMap) -> (n: usize)
    requires
        group_map_of(*m).dom().finite(),
    ensures
        n == group_map_of(*m).dom().len(),
{
    m.len()
}

/// Relies on `Map::clone`: the persistent map shares structure, so the
/// copy holds exactly the same bindings.
#[verifier::external_body]
pub fn group_map_clone(m: &GroupMap) -> (r: GroupMap)
    ensures
        group_map_of(r) == group_map_of(*m),
{
    m.clone()
}

/// Relies on the map's `IntoIterator`: an in-order traversal yields
/// every binding exactly once, keys ascending.
#[verifier::external_body]
pub fn group_map_entries(m: &GroupMap) -> (r: Vec<(u64, SpawnedGroup)>)
    ensures
        forall|i: int, j: int| 0 <= i < j < r@.len() ==> r@[i].0 < r@[j].0,
        map_of_pairs(r@.map_values(|e: (u64, SpawnedGroup)| (e.0, e.1@))) == group_map_of(*m),
{
    let mut v = Vec::new();
    for (k, g) in m.into_iter() {
        v.push((*k, g.clone()));
    }
    v
}

/// The contents of a fresh unit map.
pub open spec fn no_units() -> Map<u64, UnitView> {
    Map::empty()
}

/// Relies on `Map::new`: the fresh map is empty.
#[verifier::external_body]
pub fn unit_map_new() -> (r: UnitMap)
    ensures
        unit_map_of(r) == no_units(),
{
    immutable_chunkmap::map::Map::new()
}

/// Relies on `Map::get`: returns the binding of the key, if any.
#[verifier::external_body]
pub fn unit_map_get(m: &UnitMap, k: u64) -> (r: Option<&SpawnedUnit>)
    ensures
        match r {
            Some(u) => unit_map_of(*m).contains_key(k) && u@ == unit_map_of(*m)[k],
            None => !unit_map_of(*m).contains_key(k),
        },
{
    m.get(&k)
}

/// Relies on `Map::insert_cow`: binds the key in place, returning any
/// previous binding.
#[verifier::external_body]
pub fn unit_map_insert(m: &mut UnitMap, k: u64, v: SpawnedUnit) -> (r: Option<SpawnedUnit>)
    ensures
        unit_map_of(*final(m)) == unit_map_of(*old(m)).insert(k, v@),
        unit_map_of(*final(m)).dom().finite(),
        match r {
            Some(u) => unit_map_of(*old(m)).contains_key(k) && u@ == unit_map_of(*old(m))[k],
            None => !unit_map_of(*old(m)).contains_key(k),
        },
{
    m.insert_cow(k, v)
}

/// Relies on `Map::remove_cow`: unbinds the key in place, returning
/// any previous binding.
#[verifier::external_body]
pub fn unit_map_remove(m: &mut UnitMap, k: u64) -> (r: Option<SpawnedUnit>)
    ensures
        unit_map_of(*final(m)) == unit_map_of(*old(m)).remove(k),
        match r {
            Some(u) => unit_map_of(*old(m)).contains_key(k) && u@ == unit_map_of(*old(m))[k],
            None => !unit_map_of(*old(m)).contains_key(k),
        },
{
    m.remove_cow(&k)
}

/// Relies on `Map::len`: the number of bindings, in O(1).
#[verifier::external_body]
pub fn unit_map_len(m: &UnitMap) -> (n: usize)
    requires
        unit_map_of(*m).dom().finite(),
    ensures
        n == unit_map_of(*m).dom().len(),
{
    m.len()
}

/// Relies on `Map::clone`: the persistent map shares structure, so the
/// copy holds exactly the same bindings.
#[verifier::external_body]
pub fn unit_map_clone(m: &UnitMap) -> (r: UnitMap)
    ensures
        unit_map_of(r) == unit_map_of(*m),
{
    m.clone()
}

/// Relies on the map's `IntoIterator`: an in-order traversal yields
/// every binding exactly once, keys ascending.
#[verifier::external_body]
pub fn unit_map_entries(m: &UnitMap) -> (r: Vec<(u64, SpawnedUnit)>)
    ensures
        forall|i: int, j: int| 0 <= i < j < r@.len() ==> r@[i].0 < r@[j].0,
        map_of_pairs(r@.map_values(|e: (u64, SpawnedUnit)| (e.0, e.1@))) == unit_map_of(*m),
{
    let mut v = Vec::new();
    for (k, u) in m.into_iter() {
        v.push((*k, u.clone()));
    }
    v
}

} // verus!
