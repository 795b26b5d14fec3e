//! The concurrent collections that hold the bucket map and the matched pairs.
//!
//! Both come from `dashmap`. Verus cannot look inside them, so this module
//! names what each one holds and states, method by method, how a call changes
//! it. Everything here is believed, not proved.

use dashmap::DashMap;
use dashmap::DashSet;
use vstd::prelude::*;

verus! {

/// `dashmap::DashSet`, taken as it is: nothing is said of what is inside.
#[verifier::external_type_specification]
#[verifier::external_body]
#[verifier::reject_recursive_types(K)]
#[verifier::reject_recursive_types(S)]
pub struct ExDashSet<K, S>(DashSet<K, S>);

/// `dashmap::DashMap`, taken as it is: nothing is said of what is inside.
#[verifier::external_type_specification]
#[verifier::external_body]
#[verifier::reject_recursive_types(K)]
#[verifier::reject_recursive_types(V)]
#[verifier::reject_recursive_types(S)]
pub struct ExDashMap<K, V, S>(DashMap<K, V, S>);

/// The buckets that a bucket map holds: for each hash key that has one, the
/// record indices in it, in the order in which they were added.
pub uninterp spec fn buckets_of(map: DashMap<u64, Vec<usize>>) -> Map<u64, Seq<usize>>;

/// The bucket map without any bucket.
pub open spec fn no_buckets() -> Map<u64, Seq<usize>> {
    Map::empty()
}

/// The pairs that a matched-pair set holds.
pub uninterp spec fn pairs_of(set: DashSet<(usize, usize)>) -> Set<(usize, usize)>;

/// `DashSet::new`: a fresh set holds nothing.
#[verifier::external_body]
pub(crate) fn pairs_new() -> (set: DashSet<(usize, usize)>)
    ensures
        pairs_of(set) == Set::<(usize, usize)>::empty(),
{
    DashSet::new()
}

/// `DashSet::insert`: afterwards the set holds the pair besides what it held.
#[verifier::external_body]
pub(crate) fn pairs_insert(set: &mut DashSet<(usize, usize)>, pair: (usize, usize))
    ensures
        pairs_of(*final(set)) == pairs_of(*old(set)).insert(pair),
{
    set.insert(pair);
}

/// `DashSet::contains`: whether the set holds the pair.
#[verifier::external_body]
pub(crate) fn pairs_contains(set: &DashSet<(usize, usize)>, pair: (usize, usize)) -> (found: bool)
    ensures
        found == pairs_of(*set).contains(pair),
{
    set.contains(&pair)
}

/// `DashSet::iter`, with `RefMulti::key` on each entry: the pairs of the set,
/// each once, in the order in which the set hands them out.
#[verifier::external_body]
pub(crate) fn pairs_list(set: &DashSet<(usize, usize)>) -> (list: Vec<(usize, usize)>)
    ensures
        list@.no_duplicates(),
        list@.to_set() == pairs_of(*set),
{
    set.iter().map(|entry| *entry.key()).collect()
}

/// `DashMap::new`: a fresh map holds no bucket.
#[verifier::external_body]
pub(crate) fn buckets_new() -> (map: DashMap<u64, Vec<usize>>)
    ensures
        buckets_of(map) == no_buckets(),
{
    DashMap::new()
}

/// The bucket that results when `index` joins what the key had, if anything.
pub open spec fn extended(buckets: Map<u64, Seq<usize>>, key: u64, index: usize) -> Seq<usize> {
    if buckets.dom().contains(key) {
        buckets[key].push(index)
    } else {
        seq![index]
    }
}

/// Adds an index at the end of a bucket.
pub(crate) fn extend_bucket(bucket: &mut Vec<usize>, index: usize)
    ensures
        final(bucket)@ == old(bucket)@.push(index),
{
    bucket.push(index);
}

/// A bucket that holds one index.
pub(crate) fn single_bucket(index: usize) -> (bucket: Vec<usize>)
    ensures
        bucket@ == seq![index],
{
    let mut bucket: Vec<usize> = Vec::new();
    bucket.push(index);
    bucket
}

/// `DashMap::entry`, then `Entry::and_modify` and `Entry::or_insert_with`:
/// the key's bucket gains the index at its end, a key that had no bucket gets
/// one that holds the index alone, and no other bucket changes.
#[verifier::external_body]
pub(crate) fn buckets_add(map: &mut DashMap<u64, Vec<usize>>, key: u64, index: usize)
    ensures
        buckets_of(*final(map)) == buckets_of(*old(map)).insert(
            key,
            extended(buckets_of(*old(map)), key, index),
        ),
{
    map.entry(key).and_modify(|bucket| extend_bucket(bucket, index)).or_insert_with(
        || single_bucket(index),
    );
}

/// `DashMap::get`: a copy of the key's bucket, or nothing where the key has
/// none.
#[verifier::external_body]
pub(crate) fn buckets_get(map: &DashMap<u64, Vec<usize>>, key: u64) -> (found: Option<Vec<usize>>)
    ensures
        match found {
            Some(bucket) => buckets_of(*map).dom().contains(key) && bucket@ == buckets_of(*map)[key],
            None => !buckets_of(*map).dom().contains(key),
        },
{
    match map.get(&key) {
        Some(bucket) => Some(bucket.value().clone()),
        None => None,
    }
}

/// `DashMap::clear`: afterwards the map holds no bucket.
#[verifier::external_body]
pub(crate) fn buckets_clear(map: &mut DashMap<u64, Vec<usize>>)
    ensures
        buckets_of(*final(map)) == no_buckets(),
{
    map.clear();
}

} // verus!
