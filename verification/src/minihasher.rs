//! The banded minhash hasher: one bucket key from a fingerprint set.

use crate::digest::{fx_seeded, fx_seeded_digest, fx_words, fx_words_digest};
use crate::random::draw_below;
use crate::shingleset::{members, ShingleSet};
use rand::rngs::StdRng;
use vstd::prelude::*;

verus! {

/// Seeds are drawn below this bound.
pub const SEED_BOUND: u64 = 20_000_000;

/// Whether `m` is the least digest that `seed` gives to a member of `items`,
/// or the greatest 64-bit value where `items` has no member.
pub open spec fn is_min_digest(seed: u64, items: Set<u32>, m: u64) -> bool {
    &&& forall|x: u32| items.contains(x) ==> m <= #[trigger] fx_seeded_digest(seed, x)
    &&& if items.is_empty() {
        m == u64::MAX
    } else {
        exists|x: u32| items.contains(x) && #[trigger] fx_seeded_digest(seed, x) == m
    }
}

/// The minhash of a set under one seed.
pub open spec fn min_digest(seed: u64, items: Set<u32>) -> u64 {
    choose|m: u64| is_min_digest(seed, items, m)
}

/// The minhashes of a set under each seed in turn.
pub open spec fn signature(seeds: Seq<u64>, items: Set<u32>) -> Seq<u64> {
    Seq::new(seeds.len(), |i: int| min_digest(seeds[i], items))
}

/// The bucket key of a set: the digest of its whole signature, so that two
/// sets share a bucket when they agree on every minhash.
pub open spec fn bucket_key(seeds: Seq<u64>, items: Set<u32>) -> u64 {
    fx_words_digest(signature(seeds, items))
}

/// There is one least digest, so whatever meets `is_min_digest` is the
/// minhash.
pub proof fn lemma_min_digest_unique(seed: u64, items: Set<u32>, m: u64)
    requires
        is_min_digest(seed, items, m),
    ensures
        min_digest(seed, items) == m,
{
    let other = min_digest(seed, items);
    assert(is_min_digest(seed, items, other));
    if !items.is_empty() {
        let x = choose|x: u32| items.contains(x) && #[trigger] fx_seeded_digest(seed, x) == m;
        let y = choose|y: u32| items.contains(y) && #[trigger] fx_seeded_digest(seed, y) == other;
        assert(m <= fx_seeded_digest(seed, y));
        assert(other <= fx_seeded_digest(seed, x));
    }
}

/// Two sets that agree on every minhash of a band share the band's bucket.
pub proof fn equal_signatures_share_a_key(seeds: Seq<u64>, a: Set<u32>, b: Set<u32>)
    requires
        signature(seeds, a) == signature(seeds, b),
    ensures
        bucket_key(seeds, a) == bucket_key(seeds, b),
{
}

/// A minhash hasher with the seeds of one band.
#[derive(Debug)]
pub struct MinHasher {
    seeds: Vec<u64>,
}

impl View for MinHasher {
    type V = Seq<u64>;

    /// The seeds, in the order in which the signature uses them.
    closed spec fn view(&self) -> Seq<u64> {
        self.seeds@
    }
}

impl MinHasher {
    /// A hasher with `band_width` seeds drawn from the generator.
    pub fn new(band_width: usize, rand_state: &mut StdRng) -> (hasher: Self)
        ensures
            hasher@.len() == band_width,
            forall|i: int| 0 <= i < hasher@.len() ==> hasher@[i] < SEED_BOUND,
    {
        let mut seeds: Vec<u64> = Vec::new();
        let mut i: usize = 0;
        while i < band_width
            invariant
                i <= band_width,
                seeds@.len() == i,
                forall|j: int| 0 <= j < seeds@.len() ==> seeds@[j] < SEED_BOUND,
            decreases band_width - i,
        {
            let seed = draw_below(rand_state, SEED_BOUND);
            seeds.push(seed);
            i += 1;
        }
        Self { seeds }
    }

    /// A hasher with the given seeds.
    pub fn from_seeds(seeds: Vec<u64>) -> (hasher: Self)
        ensures
            hasher@ == seeds@,
    {
        Self { seeds }
    }

    /// The seeds, in the order in which the signature uses them.
    pub fn seeds(&self) -> (seeds: &Vec<u64>)
        ensures
            seeds@ == self@,
    {
        &self.seeds
    }

    /// The minhash of `items` under `seed`.
    fn min_under(seed: u64, items: &Vec<u32>) -> (least: u64)
        ensures
            least == min_digest(seed, items@.to_set()),
    {
        let mut min_hash_seen: u64 = u64::MAX;
        let mut i: usize = 0;
        proof {
            assert(items@.take(0).to_set() =~= Set::<u32>::empty());
        }
        while i < items.len()
            invariant
                i <= items.len(),
                is_min_digest(seed, items@.take(i as int).to_set(), min_hash_seen),
            decreases items.len() - i,
        {
            let result = fx_seeded(seed, items[i]);
            proof {
                let before = items@.take(i as int).to_set();
                let after = items@.take(i + 1).to_set();
                items@.lemma_take_succ_push(i as int);
                items@.take(i as int).lemma_push_to_set_commute(items@[i as int]);
                assert(after == before.insert(items@[i as int]));
                assert(after.contains(items@[i as int]));
                assert(!after.is_empty());
                if !before.is_empty() {
                    let x = choose|x: u32|
                        before.contains(x) && #[trigger] fx_seeded_digest(seed, x) == min_hash_seen;
                    assert(after.contains(x));
                }
            }
            if result < min_hash_seen {
                min_hash_seen = result;
            }
            i += 1;
        }
        proof {
            items@.lemma_take_len();
            lemma_min_digest_unique(seed, items@.to_set(), min_hash_seen);
        }
        min_hash_seen
    }

    /// The bucket key of a fingerprint set in this hasher's band.
    pub fn hash(&self, shingle_set: &ShingleSet) -> (key: u64)
        ensures
            key == bucket_key(self@, shingle_set.shingles@),
    {
        let items = members(&shingle_set.shingles);
        let mut mini_hashes: Vec<u64> = Vec::new();
        let mut i: usize = 0;
        while i < self.seeds.len()
            invariant
                i <= self.seeds.len(),
                items@.to_set() == shingle_set.shingles@,
                mini_hashes@ == signature(self.seeds@.take(i as int), shingle_set.shingles@),
            decreases self.seeds.len() - i,
        {
            let least = Self::min_under(self.seeds[i], &items);
            mini_hashes.push(least);
            proof {
                assert(mini_hashes@ =~= signature(
                    self.seeds@.take(i + 1),
                    shingle_set.shingles@,
                ));
            }
            i += 1;
        }
        proof {
            self.seeds@.lemma_take_len();
        }
        fx_words(mini_hashes.as_slice())
    }
}

} // verus!
