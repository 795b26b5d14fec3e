//! The blocking join with a generator of the caller's own and the work of a
//! band cut to the number of processors.

use crate::concurrent::{buckets_new, pairs_new, pairs_of};
use crate::minhashjoiner::{drawn_bands, join_band, joined, similar};
use crate::minihasher::MinHasher;
use crate::parallel::{par_keys, par_shingle, par_shingle_salted, processors};
use crate::plan::{band_fault, check_bands, JoinError};
use crate::ratio::Ratio;
use crate::shingleset::{owned_texts, plain_sets, salted_sets, sets_of, texts, ShingleSet};
use dashmap::DashSet;
use rand::rngs::StdRng;
use vstd::prelude::*;

verus! {

/// The strings borrowed, in order.
fn borrowed(strings: &Vec<String>) -> (refs: Vec<&str>)
    ensures
        refs@.len() == strings@.len(),
        texts(refs@) == owned_texts(strings@),
{
    let mut refs: Vec<&str> = Vec::new();
    let mut i: usize = 0;
    while i < strings.len()
        invariant
            i <= strings.len(),
            refs@.len() == i,
            forall|k: int| 0 <= k < i ==> (#[trigger] refs@[k])@ == strings@[k]@,
        decreases strings.len() - i,
    {
        refs.push(strings[i].as_str());
        i += 1;
    }
    proof {
        assert(texts(refs@) =~= owned_texts(strings@));
    }
    refs
}

/// Two collections of fingerprint sets to be joined. The first is the build
/// side of every band, the second the probe side.
pub struct LSHjoiner {
    smaller_set: Vec<ShingleSet>,
    larger_set: Vec<ShingleSet>,
}

impl LSHjoiner {
    /// The build side: the fingerprint sets of the left records.
    pub closed spec fn smaller(&self) -> Seq<Set<u32>> {
        sets_of(self.smaller_set@)
    }

    /// The probe side: the fingerprint sets of the right records.
    pub closed spec fn larger(&self) -> Seq<Set<u32>> {
        sets_of(self.larger_set@)
    }

    /// Fingerprints both collections with windows of `ngram_width`
    /// characters.
    pub fn new(left_string_vec: Vec<String>, right_string_vec: Vec<String>, ngram_width: usize) -> (joiner:
        Self)
        requires
            left_string_vec@.len() > 0 || right_string_vec@.len() > 0 ==> ngram_width > 0,
        ensures
            joiner.smaller() == plain_sets(owned_texts(left_string_vec@), ngram_width),
            joiner.larger() == plain_sets(owned_texts(right_string_vec@), ngram_width),
    {
        let left = borrowed(&left_string_vec);
        let right = borrowed(&right_string_vec);
        let left_set_vec = par_shingle(&left, ngram_width);
        let right_set_vec = par_shingle(&right, ngram_width);
        Self { smaller_set: left_set_vec, larger_set: right_set_vec }
    }

    /// Fingerprints both collections with windows of `ngram_width`
    /// characters, each record salted with the salt at its place. A record
    /// without a salt is left out.
    pub fn new_with_salt(
        left_string_vec: Vec<String>,
        right_string_vec: Vec<String>,
        left_salt_vec: Vec<String>,
        right_salt_vec: Vec<String>,
        ngram_width: usize,
    ) -> (joiner: Self)
        requires
            left_string_vec@.len() > 0 && left_salt_vec@.len() > 0 ==> ngram_width > 0,
            right_string_vec@.len() > 0 && right_salt_vec@.len() > 0 ==> ngram_width > 0,
        ensures
            joiner.smaller() == salted_sets(
                owned_texts(left_string_vec@),
                owned_texts(left_salt_vec@),
                ngram_width,
            ),
            joiner.larger() == salted_sets(
                owned_texts(right_string_vec@),
                owned_texts(right_salt_vec@),
                ngram_width,
            ),
    {
        let left = borrowed(&left_string_vec);
        let right = borrowed(&right_string_vec);
        let left_salt = borrowed(&left_salt_vec);
        let right_salt = borrowed(&right_salt_vec);
        let left_set_vec = par_shingle_salted(&left, &left_salt, ngram_width);
        let right_set_vec = par_shingle_salted(&right, &right_salt, ngram_width);
        Self { smaller_set: left_set_vec, larger_set: right_set_vec }
    }

    /// Joins with `n_bands` bands of `band_size` seeds each, drawn from the
    /// caller's generator, a fresh bucket map for every band. Refuses to run
    /// without a band or with bands of no width.
    pub fn join(&self, n_bands: usize, band_size: usize, threshold: Ratio, rng: &mut StdRng) -> (outcome:
        Result<DashSet<(usize, usize)>, JoinError>)
        ensures
            match outcome {
                Ok(matched_pairs) => {
                    &&& band_fault(n_bands, band_size) is None
                    &&& exists|bands: Seq<Seq<u64>>|
                        drawn_bands(bands, n_bands, band_size) && pairs_of(matched_pairs)
                            == #[trigger] joined(self.smaller(), self.larger(), bands, threshold)
                    &&& forall|pair: (usize, usize)|
                        pairs_of(matched_pairs).contains(pair) ==> similar(
                            self.smaller(),
                            self.larger(),
                            threshold,
                            pair,
                        )
                },
                Err(error) => band_fault(n_bands, band_size) == Some(error),
            },
    {
        match check_bands(n_bands, band_size) {
            Ok(_) => {},
            Err(error) => {
                return Err(error);
            },
        }
        let processors = processors();
        let share = self.smaller_set.len() / processors;
        let chunk_len: usize = if share < usize::MAX {
            share + 1
        } else {
            share
        };
        let mut matched_pairs = pairs_new();
        let ghost mut bands: Seq<Seq<u64>> = Seq::empty();
        let mut k: usize = 0;
        proof {
            assert(pairs_of(matched_pairs) =~= joined(
                self.smaller(),
                self.larger(),
                bands,
                threshold,
            ));
        }
        while k < n_bands
            invariant
                k <= n_bands,
                drawn_bands(bands, k, band_size),
                pairs_of(matched_pairs) == joined(self.smaller(), self.larger(), bands, threshold),
            decreases n_bands - k,
        {
            let mut small_set_map = buckets_new();
            let hasher = MinHasher::new(band_size, rng);
            let build_keys = par_keys(&hasher, &self.smaller_set, chunk_len);
            let probe_keys = par_keys(&hasher, &self.larger_set, chunk_len);
            join_band(
                &mut matched_pairs,
                &mut small_set_map,
                &self.smaller_set,
                &self.larger_set,
                &build_keys,
                &probe_keys,
                threshold,
                Ghost(bands),
                Ghost(hasher@),
            );
            proof {
                bands = bands.push(hasher@);
            }
            k += 1;
        }
        Ok(matched_pairs)
    }
}

} // verus!
