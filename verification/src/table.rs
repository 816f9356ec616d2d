//! The hash tables that schedulers keep per group, seen as mathematical maps.
use crate::queue::TaskId;
use ahash::{AHashMap, HashMapExt};
use nohash_hasher::IntMap;
use std::collections::VecDeque;
use vstd::prelude::*;

verus! {

/// `ahash`'s hash map.
#[verifier::external_type_specification]
#[verifier::external_body]
#[verifier::reject_recursive_types(K)]
#[verifier::reject_recursive_types(V)]
#[verifier::reject_recursive_types(S)]
pub struct ExAHashMap<K, V, S>(ahash::AHashMap<K, V, S>);

/// The hasher state of `ahash`'s hash map.
#[verifier::external_type_specification]
#[verifier::external_body]
pub struct ExRandomState(ahash::RandomState);

/// The hasher of `nohash_hasher`'s integer map.
#[verifier::external_type_specification]
#[verifier::external_body]
#[verifier::reject_recursive_types(T)]
pub struct ExNoHashHasher<T>(nohash_hasher::NoHashHasher<T>);

/// The way in which `nohash_hasher`'s integer map builds its hashers.
#[verifier::external_type_specification]
#[verifier::external_body]
#[verifier::reject_recursive_types(H)]
pub struct ExBuildHasherDefault<H>(std::hash::BuildHasherDefault<H>);

/// A group of tasks that are run in order: what the group is ranked by, and its waiting tasks.
pub struct Group {
    pub rank: u128,
    pub tasks: VecDeque<TaskId>,
}

/// The groups of a table: the rank and the waiting tasks of each.
pub uninterp spec fn groups_of(table: AHashMap<u64, Group>) -> Map<u64, (u128, Seq<TaskId>)>;

/// `AHashMap::new` makes a table without entries.
#[verifier::external_body]
pub(crate) fn new_groups() -> (table: AHashMap<u64, Group>)
    ensures
        groups_of(table).is_empty(),
{
    AHashMap::new()
}

/// `AHashMap::get` finds the entry of a key, if there is one.
#[verifier::external_body]
pub(crate) fn find_group(table: &AHashMap<u64, Group>, gid: u64) -> (found: Option<&Group>)
    ensures
        match found {
            Some(group) => {
                &&& groups_of(*table).contains_key(gid)
                &&& groups_of(*table)[gid] == (group.rank, group.tasks@)
            },
            None => !groups_of(*table).contains_key(gid),
        },
{
    table.get(&gid)
}

/// `AHashMap::get_mut` finds the entry of a key, if there is one; what is written through the
/// result becomes the entry, and no other entry changes.
#[verifier::external_body]
pub(crate) fn find_group_mut(table: &mut AHashMap<u64, Group>, gid: u64) -> (found: Option<
    &mut Group,
>)
    ensures
        match found {
            Some(group) => {
                &&& groups_of(*old(table)).contains_key(gid)
                &&& groups_of(*old(table))[gid] == (group.rank, group.tasks@)
                &&& groups_of(*final(table)) == groups_of(*old(table)).insert(
                    gid,
                    (final(group).rank, final(group).tasks@),
                )
            },
            None => {
                &&& !groups_of(*old(table)).contains_key(gid)
                &&& groups_of(*final(table)) == groups_of(*old(table))
            },
        },
{
    table.get_mut(&gid)
}

/// `AHashMap::insert` sets the entry of a key and leaves the others alone.
#[verifier::external_body]
pub(crate) fn insert_group(table: &mut AHashMap<u64, Group>, gid: u64, group: Group)
    ensures
        groups_of(*final(table)) == groups_of(*old(table)).insert(gid, (group.rank, group.tasks@)),
{
    table.insert(gid, group);
}

/// `AHashMap::remove` takes out the entry of a key and leaves the others alone.
#[verifier::external_body]
pub(crate) fn remove_group(table: &mut AHashMap<u64, Group>, gid: u64)
    ensures
        groups_of(*final(table)) == groups_of(*old(table)).remove(gid),
{
    table.remove(&gid);
}

/// The service time that a table holds for each group.
pub uninterp spec fn service_times_of(table: AHashMap<u64, u128>) -> Map<u64, u128>;

/// `AHashMap::with_capacity` makes a table without entries. The room that is asked for is limited,
/// so that it can be had.
#[verifier::external_body]
pub(crate) fn new_service_times(capacity: usize) -> (table: AHashMap<u64, u128>)
    requires
        capacity <= 1024,
    ensures
        service_times_of(table).is_empty(),
{
    AHashMap::with_capacity(capacity)
}

/// `AHashMap::get` finds the entry of a key, if there is one.
#[verifier::external_body]
pub(crate) fn find_service_time(table: &AHashMap<u64, u128>, gid: u64) -> (found: Option<&u128>)
    ensures
        match found {
            Some(time) => {
                &&& service_times_of(*table).contains_key(gid)
                &&& service_times_of(*table)[gid] == *time
            },
            None => !service_times_of(*table).contains_key(gid),
        },
{
    table.get(&gid)
}

/// `AHashMap::insert` sets the entry of a key and leaves the others alone.
#[verifier::external_body]
pub(crate) fn insert_service_time(table: &mut AHashMap<u64, u128>, gid: u64, time: u128)
    ensures
        service_times_of(*final(table)) == service_times_of(*old(table)).insert(gid, time),
{
    table.insert(gid, time);
}

/// `AHashMap::remove` takes out the entry of a key and leaves the others alone.
#[verifier::external_body]
pub(crate) fn remove_service_time(table: &mut AHashMap<u64, u128>, gid: u64)
    ensures
        service_times_of(*final(table)) == service_times_of(*old(table)).remove(gid),
{
    table.remove(&gid);
}

/// `ahash::HashMapExt::with_capacity` makes an `IntMap` without entries. The room that is asked
/// for is limited, so that it can be had.
#[verifier::external_body]
pub(crate) fn new_int_map<V>(capacity: usize) -> (map: IntMap<u64, V>)
    requires
        capacity <= 1024,
    ensures
        map@.is_empty(),
{
    IntMap::with_capacity(capacity)
}

/// `IntMap::get` finds the entry of a key, if there is one.
#[verifier::external_body]
pub(crate) fn int_map_get<V>(map: &IntMap<u64, V>, key: u64) -> (found: Option<&V>)
    ensures
        match found {
            Some(value) => map@.contains_key(key) && map@[key] == *value,
            None => !map@.contains_key(key),
        },
{
    map.get(&key)
}

/// `IntMap::insert` sets the entry of a key and leaves the others alone.
#[verifier::external_body]
pub(crate) fn int_map_insert<V>(map: &mut IntMap<u64, V>, key: u64, value: V)
    ensures
        final(map)@ == old(map)@.insert(key, value),
{
    map.insert(key, value);
}

/// `IntMap::remove` takes out the entry of a key, hands it back, and leaves the others alone.
#[verifier::external_body]
pub(crate) fn int_map_remove<V>(map: &mut IntMap<u64, V>, key: u64) -> (removed: Option<V>)
    ensures
        final(map)@ == old(map)@.remove(key),
        match removed {
            Some(value) => old(map)@.contains_key(key) && old(map)@[key] == value,
            None => !old(map)@.contains_key(key),
        },
{
    map.remove(&key)
}

} // verus!
