//! The data-parallel maps of a join: one fingerprint set per record, one
//! bucket key per fingerprint set.
//!
//! The work is handed to `rayon`, which Verus does not see. Each function
//! here is believed to return, place by place, what the verified function in
//! its closure returns for the record at that place.

use crate::minihasher::{bucket_key, MinHasher};
use crate::ratio::Ratio;
use crate::shingleset::{
    jaccard, numbered, plain_sets, salted_sets, sets_of, texts, ShingleSet,
};
use rayon::iter::IndexedParallelIterator;
use rayon::iter::IntoParallelRefIterator;
use rayon::iter::ParallelIterator;
use vstd::prelude::*;

verus! {

/// The bucket key of each set under the seeds.
pub open spec fn keys_of(seeds: Seq<u64>, sets: Seq<Set<u32>>) -> Seq<u64> {
    Seq::new(sets.len(), |i: int| bucket_key(seeds, sets[i]))
}

/// The similarity of each set of the first collection to the set at the same
/// place in the second, as far as both reach.
pub open spec fn similarities(left: Seq<Set<u32>>, right: Seq<Set<u32>>) -> Seq<Ratio> {
    Seq::new(
        if left.len() <= right.len() {
            left.len()
        } else {
            right.len()
        },
        |i: int| jaccard(left[i], right[i]),
    )
}

/// `par_iter`, `enumerate`, `map` and `collect`: an indexed parallel iterator
/// collects into a vector in the order of its source, so the result holds
/// the fingerprint set of each string at the string's place.
#[verifier::external_body]
pub(crate) fn par_shingle(strings: &Vec<&str>, width: usize) -> (sets: Vec<ShingleSet>)
    requires
        strings@.len() > 0 ==> width > 0,
    ensures
        sets_of(sets@) == plain_sets(texts(strings@), width),
        numbered(sets@, width),
{
    strings.par_iter().enumerate().map(|(i, x)| ShingleSet::new(x, width, i, None)).collect()
}

/// The same with `zip`, which stops where the shorter of the two collections
/// ends: the result holds the salted fingerprint set of each string that has
/// a salt.
#[verifier::external_body]
pub(crate) fn par_shingle_salted(strings: &Vec<&str>, salts: &Vec<&str>, width: usize) -> (sets:
    Vec<ShingleSet>)
    requires
        strings@.len() > 0 && salts@.len() > 0 ==> width > 0,
    ensures
        sets_of(sets@) == salted_sets(texts(strings@), texts(salts@), width),
        numbered(sets@, width),
{
    strings.par_iter().zip(salts.par_iter()).enumerate().map(
        |(i, (string, salt))| ShingleSet::new(string, width, i, Some(salt)),
    ).collect()
}

/// `par_iter`, `with_min_len`, `map` and `collect`: the result holds the
/// bucket key of each set at the set's place. `min_len` only bounds how
/// finely the work is split.
#[verifier::external_body]
pub(crate) fn par_keys(hasher: &MinHasher, sets: &Vec<ShingleSet>, min_len: usize) -> (keys: Vec<u64>)
    ensures
        keys@ == keys_of(hasher@, sets_of(sets@)),
{
    sets.par_iter().with_min_len(min_len).map(|set| hasher.hash(set)).collect()
}

/// `par_iter`, `zip`, `map` and `collect`: the result holds, place by place,
/// the similarity of the two sets at that place, as far as both collections
/// reach.
#[verifier::external_body]
pub(crate) fn par_similarities(left: &Vec<ShingleSet>, right: &Vec<ShingleSet>) -> (sims: Vec<Ratio>)
    ensures
        sims@ == similarities(sets_of(left@), sets_of(right@)),
{
    left.par_iter().zip(right.par_iter()).map(|(a, b)| a.jaccard_similarity(b)).collect()
}

/// For each candidate `(probe index, build index)`, whether the similarity of
/// the two records reaches the threshold.
pub open spec fn verdicts(
    build: Seq<Set<u32>>,
    probe: Seq<Set<u32>>,
    candidates: Seq<(usize, usize)>,
    threshold: Ratio,
) -> Seq<bool> {
    Seq::new(
        candidates.len(),
        |k: int| jaccard(probe[candidates[k].0 as int], build[candidates[k].1 as int]).meets(threshold),
    )
}

/// `par_iter`, `map` and `collect`: the result holds, place by place, whether
/// the candidate at that place reaches the threshold. Every candidate names
/// records that exist.
#[verifier::external_body]
pub(crate) fn par_verdicts(
    build: &Vec<ShingleSet>,
    probe: &Vec<ShingleSet>,
    candidates: &Vec<(usize, usize)>,
    threshold: Ratio,
) -> (accepted: Vec<bool>)
    requires
        forall|k: int|
            0 <= k < candidates@.len() ==> (#[trigger] candidates@[k]).0 < probe@.len()
                && candidates@[k].1 < build@.len(),
    ensures
        accepted@ == verdicts(sets_of(build@), sets_of(probe@), candidates@, threshold),
{
    candidates.par_iter().map(
        |pair| probe[pair.0].jaccard_similarity(&build[pair.1]).at_least(&threshold),
    ).collect()
}

/// `num_cpus::get`: the number of logical cores of this machine, which is at
/// least one.
#[verifier::external_body]
pub(crate) fn processors() -> (count: usize)
    ensures
        count >= 1,
{
    num_cpus::get()
}

} // verus!
