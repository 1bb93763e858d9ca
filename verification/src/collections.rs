//! The hash maps of the library: the one that holds the children of a tree
//! node, and the one that holds the record of each cvar by its handle, with
//! what this library relies on of them. The contracts are taken from the
//! map's documentation and are not proved here.

use crate::reflect::ReflectCVar;
use bevy_platform_support::collections::HashMap;
use bevy_platform_support::hash::FixedHasher;
use vstd::prelude::*;

verus! {

#[verifier::external_type_specification]
#[verifier::external_body]
#[verifier::reject_recursive_types(K)]
#[verifier::reject_recursive_types(V)]
#[verifier::reject_recursive_types(S)]
pub struct ExHashMap<K, V, S>(HashMap<K, V, S>);

#[verifier::external_type_specification]
#[verifier::external_body]
pub struct ExFixedHasher(FixedHasher);

/// The children of a tree node: the position of the child under each segment.
pub type SegmentMap = HashMap<String, usize>;

/// What a map from path segments to node positions holds.
pub uninterp spec fn segment_map(m: SegmentMap) -> Map<Seq<char>, usize>;

/// The map without an entry.
pub open spec fn no_segments() -> Map<Seq<char>, usize> {
    Map::empty()
}

/// `HashMap::new`: the map it returns holds nothing.
#[verifier::external_body]
pub(crate) fn segment_map_new() -> (m: SegmentMap)
    ensures
        segment_map(m) == no_segments(),
{
    HashMap::new()
}

/// `HashMap::get`: the position stored under `key`, if the map holds one.
#[verifier::external_body]
pub(crate) fn segment_map_get(m: &SegmentMap, key: &str) -> (r: Option<usize>)
    ensures
        r == (if segment_map(*m).contains_key(key@) {
            Some(segment_map(*m)[key@])
        } else {
            None
        }),
{
    m.get(key).copied()
}

/// `HashMap::insert`: afterwards the map holds `value` under `key` and is
/// otherwise unchanged; the position that `key` had before is returned.
#[verifier::external_body]
pub(crate) fn segment_map_insert(m: &mut SegmentMap, key: String, value: usize) -> (r:
    Option<usize>)
    ensures
        segment_map(*final(m)) == segment_map(*old(m)).insert(key@, value),
        r == (if segment_map(*old(m)).contains_key(key@) {
            Some(segment_map(*old(m))[key@])
        } else {
            None
        }),
{
    m.insert(key, value)
}

/// `HashMap::iter`: every entry of the map exactly once, in the order in
/// which the map happens to be walked.
#[verifier::external_body]
pub(crate) fn segment_map_entries(m: &SegmentMap) -> (r: Vec<(String, usize)>)
    ensures
        forall|i: int, j: int| 0 <= i < j < r.len() ==> r[i].0@ != r[j].0@,
        forall|i: int| 0 <= i < r.len() ==> segment_map(*m).contains_pair(#[trigger] r[i].0@, r[i].1),
        forall|k: Seq<char>|
            segment_map(*m).contains_key(k) ==> exists|i: int| 0 <= i < r.len() && #[trigger] r[i].0@ == k,
{
    m.iter().map(|(k, v)| (k.clone(), *v)).collect()
}

/// The records of the registered cvars, each under the number of its
/// handle.
pub type RecordMap = HashMap<usize, ReflectCVar>;

/// What a map from handles to records holds.
pub uninterp spec fn record_map(m: RecordMap) -> Map<usize, ReflectCVar>;

/// The map of records without an entry.
pub open spec fn no_records() -> Map<usize, ReflectCVar> {
    Map::empty()
}

/// `HashMap::new`: the map it returns holds nothing.
#[verifier::external_body]
pub(crate) fn record_map_new() -> (m: RecordMap)
    ensures
        record_map(m) == no_records(),
{
    HashMap::new()
}

/// `HashMap::get`: the record stored under `key`, if the map holds one.
#[verifier::external_body]
pub(crate) fn record_map_get(m: &RecordMap, key: usize) -> (r: Option<&ReflectCVar>)
    ensures
        match r {
            Some(record) => record_map(*m).contains_key(key) && *record == record_map(*m)[key],
            None => !record_map(*m).contains_key(key),
        },
{
    m.get(&key)
}

/// `HashMap::insert`: afterwards the map holds `value` under `key` and is
/// otherwise unchanged; the record that `key` had before is returned.
#[verifier::external_body]
pub(crate) fn record_map_insert(m: &mut RecordMap, key: usize, value: ReflectCVar) -> (r: Option<
    ReflectCVar,
>)
    ensures
        record_map(*final(m)) == record_map(*old(m)).insert(key, value),
        match r {
            Some(record) => record_map(*old(m)).contains_key(key) && record == record_map(
                *old(m),
            )[key],
            None => !record_map(*old(m)).contains_key(key),
        },
{
    m.insert(key, value)
}

} // verus!
