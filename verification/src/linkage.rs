//! The calls that a host makes: similarities of records pair by pair, and
//! blocking joins from strings to index pairs.

use crate::minhashjoiner::{joined, left_right_pairs, seeded_bands, MinHashJoiner};
use crate::parallel::{par_shingle, par_similarities, similarities};
use crate::plan::{band_fault, JoinError};
use crate::ratio::Ratio;
use crate::shingleset::{plain_sets, salted_sets, texts};
use vstd::prelude::*;

verus! {

/// What stands in the way of a join over windows of this width with this
/// many bands of this width, if anything: no window width, or else what is
/// wrong with the bands.
pub open spec fn join_fault(ngram_width: usize, n_bands: usize, band_width: usize) -> Option<
    JoinError,
> {
    if ngram_width == 0 {
        Some(JoinError::NoWindowWidth)
    } else {
        band_fault(n_bands, band_width)
    }
}

/// Whether `rows` lists the pairs, each once, as `(build index, probe index)`.
pub open spec fn lists(rows: Seq<(usize, usize)>, pairs: Set<(usize, usize)>) -> bool {
    &&& rows.no_duplicates()
    &&& forall|left: usize, right: usize|
        rows.contains((left, right)) <==> pairs.contains((right, left))
}

/// The exact Jaccard similarity of each left record to the right record at
/// the same place, as far as both collections reach.
pub fn pairwise_similarity(left: &Vec<&str>, right: &Vec<&str>, ngram_width: usize) -> (outcome:
    Result<Vec<Ratio>, JoinError>)
    ensures
        match outcome {
            Ok(sims) => ngram_width > 0 && sims@ == similarities(
                plain_sets(texts(left@), ngram_width),
                plain_sets(texts(right@), ngram_width),
            ),
            Err(error) => ngram_width == 0 && error == JoinError::NoWindowWidth,
        },
{
    if ngram_width == 0 {
        return Err(JoinError::NoWindowWidth);
    }
    let left_set_vec = par_shingle(left, ngram_width);
    let right_set_vec = par_shingle(right, ngram_width);
    Ok(par_similarities(&left_set_vec, &right_set_vec))
}

/// Joins the left records to the right records: the pairs
/// `(left index, right index)`, counted from zero, that some band puts into
/// one bucket and whose exact similarity reaches the threshold.
pub fn similarity_join(
    left: Vec<&str>,
    right: Vec<&str>,
    ngram_width: usize,
    n_bands: usize,
    band_width: usize,
    threshold: Ratio,
    seed: u64,
) -> (outcome: Result<Vec<(usize, usize)>, JoinError>)
    ensures
        match outcome {
            Ok(rows) => {
                &&& join_fault(ngram_width, n_bands, band_width) is None
                &&& lists(
                    rows@,
                    joined(
                        plain_sets(texts(left@), ngram_width),
                        plain_sets(texts(right@), ngram_width),
                        seeded_bands(seed, n_bands, band_width),
                        threshold,
                    ),
                )
            },
            Err(error) => join_fault(ngram_width, n_bands, band_width) == Some(error),
        },
{
    if ngram_width == 0 {
        return Err(JoinError::NoWindowWidth);
    }
    let joiner = MinHashJoiner::new(left, right, ngram_width);
    match joiner.join(n_bands, band_width, threshold, seed) {
        Ok(matched_pairs) => Ok(left_right_pairs(&matched_pairs)),
        Err(error) => Err(error),
    }
}

/// The same join over salted records: a record's fingerprints are mixed with
/// the salt at its place, and a record without a salt takes no part.
pub fn salted_similarity_join(
    left: Vec<&str>,
    right: Vec<&str>,
    left_salt: Vec<&str>,
    right_salt: Vec<&str>,
    ngram_width: usize,
    n_bands: usize,
    band_width: usize,
    threshold: Ratio,
    seed: u64,
) -> (outcome: Result<Vec<(usize, usize)>, JoinError>)
    ensures
        match outcome {
            Ok(rows) => {
                &&& join_fault(ngram_width, n_bands, band_width) is None
                &&& lists(
                    rows@,
                    joined(
                        salted_sets(texts(left@), texts(left_salt@), ngram_width),
                        salted_sets(texts(right@), texts(right_salt@), ngram_width),
                        seeded_bands(seed, n_bands, band_width),
                        threshold,
                    ),
                )
            },
            Err(error) => join_fault(ngram_width, n_bands, band_width) == Some(error),
        },
{
    if ngram_width == 0 {
        return Err(JoinError::NoWindowWidth);
    }
    let joiner = MinHashJoiner::new_with_salt(left, right, left_salt, right_salt, ngram_width);
    match joiner.join(n_bands, band_width, threshold, seed) {
        Ok(matched_pairs) => Ok(left_right_pairs(&matched_pairs)),
        Err(error) => Err(error),
    }
}

} // verus!
