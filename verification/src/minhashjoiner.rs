//! The blocking join over fingerprint sets: band after band, records that
//! share a minhash bucket are held against each other, and the pairs whose
//! exact similarity reaches the threshold are kept.

use crate::banding::{collide, fill_buckets, gather_row, holds_prefix, lemma_take_next};
use crate::concurrent::{
    buckets_clear, buckets_new, buckets_of, no_buckets, pairs_insert, pairs_list, pairs_new,
    pairs_of,
};
use crate::minihasher::{bucket_key, MinHasher, SEED_BOUND};
use crate::parallel::{
    keys_of, par_keys, par_shingle, par_shingle_salted, par_verdicts, verdicts,
};
use crate::plan::{band_fault, check_bands, JoinError};
use crate::random::{draw_seeded, seeded_draws};
use crate::ratio::Ratio;
use crate::shingleset::{jaccard, plain_sets, salted_sets, sets_of, texts, ShingleSet};
use dashmap::DashMap;
use dashmap::DashSet;
use vstd::prelude::*;

verus! {

/// Whether some band puts the two sets into one bucket.
pub open spec fn share_bucket(bands: Seq<Seq<u64>>, a: Set<u32>, b: Set<u32>) -> bool {
    exists|k: int| 0 <= k < bands.len() && bucket_key(#[trigger] bands[k], a) == bucket_key(bands[k], b)
}

/// Whether the pair names a probe record and a build record, in this order,
/// whose exact similarity reaches the threshold.
pub open spec fn similar(
    build: Seq<Set<u32>>,
    probe: Seq<Set<u32>>,
    threshold: Ratio,
    pair: (usize, usize),
) -> bool {
    &&& pair.0 < probe.len()
    &&& pair.1 < build.len()
    &&& jaccard(probe[pair.0 as int], build[pair.1 as int]).meets(threshold)
}

/// What a join over the given bands returns: the pairs
/// `(probe index, build index)` that some band puts into one bucket and whose
/// exact similarity reaches the threshold.
pub open spec fn joined(
    build: Seq<Set<u32>>,
    probe: Seq<Set<u32>>,
    bands: Seq<Seq<u64>>,
    threshold: Ratio,
) -> Set<(usize, usize)> {
    Set::new(
        |pair: (usize, usize)|
            similar(build, probe, threshold, pair) && share_bucket(
                bands,
                probe[pair.0 as int],
                build[pair.1 as int],
            ),
    )
}

/// The seeds of each hasher, band by band.
pub open spec fn bands_of(hashers: Seq<MinHasher>) -> Seq<Seq<u64>> {
    hashers.map_values(|hasher: MinHasher| hasher@)
}

/// Whether there are `n_bands` bands of `band_size` seeds each, every seed
/// below the bound that seeds are drawn under.
pub open spec fn drawn_bands(bands: Seq<Seq<u64>>, n_bands: usize, band_size: usize) -> bool {
    &&& bands.len() == n_bands
    &&& forall|k: int|
        0 <= k < bands.len() ==> {
            &&& (#[trigger] bands[k]).len() == band_size
            &&& forall|i: int| 0 <= i < bands[k].len() ==> bands[k][i] < SEED_BOUND
        }
}

/// The bands that a join draws for a seed: the numbers that a generator
/// started from the seed hands out, cut into `n_bands` runs of `band_size`.
pub open spec fn seeded_bands(seed: u64, n_bands: usize, band_size: usize) -> Seq<Seq<u64>> {
    let draws = seeded_draws(seed, (n_bands * band_size) as usize, SEED_BOUND);
    Seq::new(n_bands as nat, |k: int| draws.subrange(k * band_size, (k + 1) * band_size))
}

/// A join never returns a pair whose exact similarity is under the
/// threshold, whatever the bands.
pub proof fn joined_pairs_are_similar(
    build: Seq<Set<u32>>,
    probe: Seq<Set<u32>>,
    bands: Seq<Seq<u64>>,
    threshold: Ratio,
    pair: (usize, usize),
)
    requires
        joined(build, probe, bands, threshold).contains(pair),
    ensures
        similar(build, probe, threshold, pair),
{
}

/// Bands only add: what a join finds with some bands it also finds with
/// those bands and more.
pub proof fn more_bands_join_more(
    build: Seq<Set<u32>>,
    probe: Seq<Set<u32>>,
    bands: Seq<Seq<u64>>,
    more: Seq<Seq<u64>>,
    threshold: Ratio,
)
    ensures
        joined(build, probe, bands, threshold).subset_of(
            joined(build, probe, bands + more, threshold),
        ),
{
    let all = bands + more;
    assert forall|pair: (usize, usize)|
        joined(build, probe, bands, threshold).contains(pair) implies joined(
        build,
        probe,
        all,
        threshold,
    ).contains(pair) by {
        let a = probe[pair.0 as int];
        let b = build[pair.1 as int];
        let k = choose|k: int|
            0 <= k < bands.len() && bucket_key(#[trigger] bands[k], a) == bucket_key(bands[k], b);
        assert(all[k] == bands[k]);
    }
}

/// Two records that have the same fingerprints, and at least one, are joined
/// by any band at all, as long as the threshold is no more than one.
pub proof fn identical_records_are_joined(
    build: Seq<Set<u32>>,
    probe: Seq<Set<u32>>,
    bands: Seq<Seq<u64>>,
    threshold: Ratio,
    pair: (usize, usize),
)
    requires
        pair.0 < probe.len(),
        pair.1 < build.len(),
        probe[pair.0 as int] == build[pair.1 as int],
        build[pair.1 as int].finite(),
        build[pair.1 as int].len() > 0,
        bands.len() > 0,
        threshold.top() <= threshold.bottom(),
    ensures
        joined(build, probe, bands, threshold).contains(pair),
{
    let a = build[pair.1 as int];
    crate::shingleset::jaccard_of_self_is_one(a);
    let sim = jaccard(a, a);
    assert(sim.meets(threshold)) by (nonlinear_arith)
        requires
            sim.top() == sim.bottom(),
            sim.bottom() > 0,
            threshold.bottom() > 0,
            0 <= threshold.top() <= threshold.bottom(),
    ;
    let first = bands[0];
    assert(bucket_key(first, a) == bucket_key(first, a));
    assert(share_bucket(bands, a, a));
    assert(similar(build, probe, threshold, pair));
}

/// The pairs of a join as `(build index, probe index)`, each pair once.
pub fn left_right_pairs(matched_pairs: &DashSet<(usize, usize)>) -> (rows: Vec<(usize, usize)>)
    ensures
        rows@.no_duplicates(),
        rows@.len() == pairs_of(*matched_pairs).len(),
        pairs_of(*matched_pairs).finite(),
        forall|left: usize, right: usize|
            rows@.contains((left, right)) <==> pairs_of(*matched_pairs).contains((right, left)),
{
    let list = pairs_list(matched_pairs);
    let mut rows: Vec<(usize, usize)> = Vec::new();
    let mut k: usize = 0;
    while k < list.len()
        invariant
            k <= list.len(),
            rows@.len() == k,
            forall|t: int| 0 <= t < k ==> #[trigger] rows@[t] == (list@[t].1, list@[t].0),
        decreases list.len() - k,
    {
        let pair = list[k];
        rows.push((pair.1, pair.0));
        k += 1;
    }
    proof {
        vstd::seq_lib::seq_to_set_is_finite(list@);
        list@.unique_seq_to_set();
        assert forall|left: usize, right: usize|
            rows@.contains((left, right)) <==> pairs_of(*matched_pairs).contains(
                (right, left),
            ) by {
            if rows@.contains((left, right)) {
                let t = choose|t: int| 0 <= t < rows@.len() && rows@[t] == (left, right);
                assert(list@[t] == (right, left));
                assert(list@.contains((right, left)));
            }
            if pairs_of(*matched_pairs).contains((right, left)) {
                assert(list@.contains((right, left)));
                let t = choose|t: int| 0 <= t < list@.len() && list@[t] == (right, left);
                assert(rows@[t] == (left, right));
            }
        }
    }
    rows
}

/// The most candidates that are gathered before they are held against the
/// threshold.
pub const CANDIDATE_BLOCK: usize = 1_048_576;

/// What one band adds: the pairs whose records exist, get the same key from
/// the band's seeds, and reach the threshold.
pub open spec fn band_matches(
    build: Seq<Set<u32>>,
    probe: Seq<Set<u32>>,
    seeds: Seq<u64>,
    threshold: Ratio,
) -> Set<(usize, usize)> {
    Set::new(
        |pair: (usize, usize)|
            similar(build, probe, threshold, pair) && bucket_key(seeds, probe[pair.0 as int])
                == bucket_key(seeds, build[pair.1 as int]),
    )
}

/// A join over some bands and one more returns what the join over those bands
/// returns, and what the one band adds.
pub proof fn one_more_band(
    build: Seq<Set<u32>>,
    probe: Seq<Set<u32>>,
    bands: Seq<Seq<u64>>,
    seeds: Seq<u64>,
    threshold: Ratio,
)
    ensures
        joined(build, probe, bands.push(seeds), threshold) == joined(build, probe, bands, threshold)
            + band_matches(build, probe, seeds, threshold),
{
    let wider = bands.push(seeds);
    let before = joined(build, probe, bands, threshold);
    let added = band_matches(build, probe, seeds, threshold);
    assert forall|p: (usize, usize)|
        joined(build, probe, wider, threshold).contains(p) <==> (before + added).contains(p) by {
        if similar(build, probe, threshold, p) {
            let a = probe[p.0 as int];
            let b = build[p.1 as int];
            if share_bucket(wider, a, b) {
                let k = choose|k: int|
                    0 <= k < wider.len() && bucket_key(#[trigger] wider[k], a) == bucket_key(
                        wider[k],
                        b,
                    );
                if k < bands.len() {
                    assert(wider[k] == bands[k]);
                    assert(share_bucket(bands, a, b));
                } else {
                    assert(wider[k] == seeds);
                }
            }
            if share_bucket(bands, a, b) {
                let k = choose|k: int|
                    0 <= k < bands.len() && bucket_key(#[trigger] bands[k], a) == bucket_key(
                        bands[k],
                        b,
                    );
                assert(wider[k] == bands[k]);
                assert(share_bucket(wider, a, b));
            }
            if bucket_key(seeds, a) == bucket_key(seeds, b) {
                assert(wider[bands.len() as int] == seeds);
                assert(share_bucket(wider, a, b));
            }
        }
    }
    assert(joined(build, probe, wider, threshold) =~= before + added);
}

/// Holds the gathered candidates against the threshold, all at once, and
/// takes those that reach it into `pairs`.
fn accept_similar(
    pairs: &mut DashSet<(usize, usize)>,
    build: &Vec<ShingleSet>,
    probe: &Vec<ShingleSet>,
    candidates: &Vec<(usize, usize)>,
    threshold: Ratio,
)
    requires
        forall|k: int|
            0 <= k < candidates@.len() ==> (#[trigger] candidates@[k]).0 < probe@.len()
                && candidates@[k].1 < build@.len(),
    ensures
        forall|p: (usize, usize)|
            #[trigger] pairs_of(*final(pairs)).contains(p) <==> {
                ||| pairs_of(*old(pairs)).contains(p)
                ||| candidates@.contains(p) && similar(
                    sets_of(build@),
                    sets_of(probe@),
                    threshold,
                    p,
                )
            },
{
    let accepted = par_verdicts(build, probe, candidates, threshold);
    let ghost start = pairs_of(*pairs);
    let mut k: usize = 0;
    while k < candidates.len()
        invariant
            k <= candidates.len(),
            accepted@ == verdicts(sets_of(build@), sets_of(probe@), candidates@, threshold),
            forall|t: int|
                0 <= t < candidates@.len() ==> (#[trigger] candidates@[t]).0 < probe@.len()
                    && candidates@[t].1 < build@.len(),
            forall|p: (usize, usize)|
                #[trigger] pairs_of(*pairs).contains(p) <==> {
                    ||| start.contains(p)
                    ||| candidates@.take(k as int).contains(p) && similar(
                        sets_of(build@),
                        sets_of(probe@),
                        threshold,
                        p,
                    )
                },
        decreases candidates.len() - k,
    {
        let pair = candidates[k];
        proof {
            lemma_take_next(candidates@, k as int);
            assert(sets_of(probe@)[pair.0 as int] == probe@[pair.0 as int].shingles@);
            assert(sets_of(build@)[pair.1 as int] == build@[pair.1 as int].shingles@);
            assert(accepted@[k as int] == similar(
                sets_of(build@),
                sets_of(probe@),
                threshold,
                pair,
            ));
        }
        if accepted[k] {
            pairs_insert(pairs, pair);
        }
        k += 1;
    }
    proof {
        assert(candidates@.take(k as int) == candidates@);
    }
}

/// Runs one more band over the two collections with the keys that the band's
/// hasher gave them. The build records are grouped by key; the probe records
/// are then taken in turn, and what shares a bucket with one of them and is
/// not yet paired with it is gathered and, a block at a time, held against
/// the threshold. Afterwards `pairs` holds what the bands so far and this one
/// join, and `store` is empty.
pub(crate) fn join_band(
    pairs: &mut DashSet<(usize, usize)>,
    store: &mut DashMap<u64, Vec<usize>>,
    build: &Vec<ShingleSet>,
    probe: &Vec<ShingleSet>,
    build_keys: &Vec<u64>,
    probe_keys: &Vec<u64>,
    threshold: Ratio,
    Ghost(bands): Ghost<Seq<Seq<u64>>>,
    Ghost(seeds): Ghost<Seq<u64>>,
)
    requires
        build_keys@ == keys_of(seeds, sets_of(build@)),
        probe_keys@ == keys_of(seeds, sets_of(probe@)),
        pairs_of(*old(pairs)) == joined(sets_of(build@), sets_of(probe@), bands, threshold),
    ensures
        pairs_of(*final(pairs)) == joined(
            sets_of(build@),
            sets_of(probe@),
            bands.push(seeds),
            threshold,
        ),
        buckets_of(*final(store)) == no_buckets(),
{
    let ghost start = pairs_of(*pairs);
    let ghost added = band_matches(sets_of(build@), sets_of(probe@), seeds, threshold);
    buckets_clear(store);
    fill_buckets(store, build_keys);
    let ghost buckets = buckets_of(*store);
    let mut candidates: Vec<(usize, usize)> = Vec::new();
    let mut j: usize = 0;
    while j < probe_keys.len()
        invariant
            j <= probe_keys.len(),
            build_keys@ == keys_of(seeds, sets_of(build@)),
            probe_keys@ == keys_of(seeds, sets_of(probe@)),
            added == band_matches(sets_of(build@), sets_of(probe@), seeds, threshold),
            buckets == buckets_of(*store),
            holds_prefix(buckets, build_keys@, build_keys@.len() as int),
            forall|k: int|
                0 <= k < candidates@.len() ==> collide(
                    build_keys@,
                    probe_keys@,
                    #[trigger] candidates@[k],
                ),
            forall|p: (usize, usize)| start.contains(p) ==> #[trigger] pairs_of(*pairs).contains(p),
            forall|p: (usize, usize)|
                #[trigger] pairs_of(*pairs).contains(p) ==> start.contains(p) || added.contains(p),
            forall|p: (usize, usize)|
                added.contains(p) && p.0 < j ==> {
                    ||| #[trigger] pairs_of(*pairs).contains(p)
                    ||| candidates@.contains(p)
                },
        decreases probe_keys.len() - j,
    {
        let ghost gathered = candidates@;
        gather_row(pairs, store, probe_keys[j], j, &mut candidates);
        proof {
            assert forall|k: int| 0 <= k < candidates@.len() implies collide(
                build_keys@,
                probe_keys@,
                #[trigger] candidates@[k],
            ) by {
                if k < gathered.len() {
                    assert(candidates@[k] == gathered[k]);
                } else {
                    let pair = candidates@[k];
                    let t = choose|t: int|
                        0 <= t < buckets[probe_keys@[j as int]].len()
                            && buckets[probe_keys@[j as int]][t] == pair.1;
                    assert(buckets[probe_keys@[j as int]][t] < build_keys@.len());
                }
            }
            assert forall|p: (usize, usize)| added.contains(p) && p.0 < j + 1 implies {
                ||| #[trigger] pairs_of(*pairs).contains(p)
                ||| candidates@.contains(p)
            } by {
                if !pairs_of(*pairs).contains(p) {
                    if p.0 < j {
                        assert(gathered.contains(p));
                        let k = choose|k: int| 0 <= k < gathered.len() && gathered[k] == p;
                        assert(candidates@[k] == p);
                    } else {
                        assert(p.0 == j);
                        assert(build_keys@[p.1 as int] == probe_keys@[j as int]);
                        assert(buckets[build_keys@[p.1 as int]].contains(p.1));
                        assert(p == (j, p.1));
                    }
                }
            }
        }
        j += 1;
        if candidates.len() >= CANDIDATE_BLOCK {
            let ghost before = pairs_of(*pairs);
            accept_similar(pairs, build, probe, &candidates, threshold);
            proof {
                assert forall|p: (usize, usize)| #[trigger]
                    pairs_of(*pairs).contains(p) implies start.contains(p) || added.contains(
                    p,
                ) by {
                    if !before.contains(p) {
                        let k = choose|k: int| 0 <= k < candidates@.len() && candidates@[k] == p;
                        assert(collide(build_keys@, probe_keys@, candidates@[k]));
                    }
                }
                assert forall|p: (usize, usize)| added.contains(p) && p.0 < j implies #[trigger]
                    pairs_of(*pairs).contains(p) by {}
            }
            candidates = Vec::new();
        }
    }
    let ghost before = pairs_of(*pairs);
    accept_similar(pairs, build, probe, &candidates, threshold);
    buckets_clear(store);
    proof {
        one_more_band(sets_of(build@), sets_of(probe@), bands, seeds, threshold);
        assert forall|p: (usize, usize)| pairs_of(*pairs).contains(p) <==> (start + added).contains(
            p,
        ) by {
            if pairs_of(*pairs).contains(p) && !before.contains(p) {
                let k = choose|k: int| 0 <= k < candidates@.len() && candidates@[k] == p;
                assert(collide(build_keys@, probe_keys@, candidates@[k]));
            }
            if added.contains(p) {
                assert(p.0 < j);
            }
        }
        assert(pairs_of(*pairs) =~= start + added);
    }
}

/// Two collections of fingerprint sets to be joined. The first is the build
/// side of every band, the second the probe side.
pub struct MinHashJoiner {
    smaller_set: Vec<ShingleSet>,
    larger_set: Vec<ShingleSet>,
}

impl MinHashJoiner {
    /// The build side: the fingerprint sets of the left records.
    pub closed spec fn smaller(&self) -> Seq<Set<u32>> {
        sets_of(self.smaller_set@)
    }

    /// The probe side: the fingerprint sets of the right records.
    pub closed spec fn larger(&self) -> Seq<Set<u32>> {
        sets_of(self.larger_set@)
    }

    /// Fingerprints both collections with windows of `ngram_width`
    /// characters.
    pub fn new(left_string_vec: Vec<&str>, right_string_vec: Vec<&str>, ngram_width: usize) -> (joiner:
        Self)
        requires
            left_string_vec@.len() > 0 || right_string_vec@.len() > 0 ==> ngram_width > 0,
        ensures
            joiner.smaller() == plain_sets(texts(left_string_vec@), ngram_width),
            joiner.larger() == plain_sets(texts(right_string_vec@), ngram_width),
    {
        let left_set_vec = par_shingle(&left_string_vec, ngram_width);
        let right_set_vec = par_shingle(&right_string_vec, ngram_width);
        Self { smaller_set: left_set_vec, larger_set: right_set_vec }
    }

    /// Fingerprints both collections with windows of `ngram_width`
    /// characters, each record salted with the salt at its place. A record
    /// without a salt is left out.
    pub fn new_with_salt(
        left_string_vec: Vec<&str>,
        right_string_vec: Vec<&str>,
        left_salt_vec: Vec<&str>,
        right_salt_vec: Vec<&str>,
        ngram_width: usize,
    ) -> (joiner: Self)
        requires
            left_string_vec@.len() > 0 && left_salt_vec@.len() > 0 ==> ngram_width > 0,
            right_string_vec@.len() > 0 && right_salt_vec@.len() > 0 ==> ngram_width > 0,
        ensures
            joiner.smaller() == salted_sets(
                texts(left_string_vec@),
                texts(left_salt_vec@),
                ngram_width,
            ),
            joiner.larger() == salted_sets(
                texts(right_string_vec@),
                texts(right_salt_vec@),
                ngram_width,
            ),
    {
        let left_set_vec = par_shingle_salted(&left_string_vec, &left_salt_vec, ngram_width);
        let right_set_vec = par_shingle_salted(&right_string_vec, &right_salt_vec, ngram_width);
        Self { smaller_set: left_set_vec, larger_set: right_set_vec }
    }

    /// The number of build records.
    pub fn smaller_len(&self) -> (n: usize)
        ensures
            n == self.smaller().len(),
    {
        self.smaller_set.len()
    }

    /// The number of probe records.
    pub fn larger_len(&self) -> (n: usize)
        ensures
            n == self.larger().len(),
    {
        self.larger_set.len()
    }

    /// Joins with one band for each of the given hashers.
    pub fn join_with(&self, hashers: &Vec<MinHasher>, threshold: Ratio) -> (matched_pairs: DashSet<
        (usize, usize),
    >)
        ensures
            pairs_of(matched_pairs) == joined(
                self.smaller(),
                self.larger(),
                bands_of(hashers@),
                threshold,
            ),
    {
        let mut matched_pairs = pairs_new();
        let mut small_set_map = buckets_new();
        let mut k: usize = 0;
        proof {
            assert(bands_of(hashers@).take(0) =~= Seq::<Seq<u64>>::empty());
            assert(pairs_of(matched_pairs) =~= joined(
                self.smaller(),
                self.larger(),
                Seq::<Seq<u64>>::empty(),
                threshold,
            ));
        }
        while k < hashers.len()
            invariant
                k <= hashers.len(),
                pairs_of(matched_pairs) == joined(
                    self.smaller(),
                    self.larger(),
                    bands_of(hashers@).take(k as int),
                    threshold,
                ),
            decreases hashers.len() - k,
        {
            let hasher = &hashers[k];
            let build_keys = par_keys(hasher, &self.smaller_set, 1);
            let probe_keys = par_keys(hasher, &self.larger_set, 1);
            join_band(
                &mut matched_pairs,
                &mut small_set_map,
                &self.smaller_set,
                &self.larger_set,
                &build_keys,
                &probe_keys,
                threshold,
                Ghost(bands_of(hashers@).take(k as int)),
                Ghost(hasher@),
            );
            proof {
                bands_of(hashers@).lemma_take_succ_push(k as int);
            }
            k += 1;
        }
        proof {
            bands_of(hashers@).lemma_take_len();
        }
        matched_pairs
    }

    /// Joins with `n_bands` bands of `band_size` seeds each, drawn from a
    /// generator started from `seed`: the same seed gives the same bands.
    /// Refuses to run without a band or with bands of no width.
    pub fn join(&self, n_bands: usize, band_size: usize, threshold: Ratio, seed: u64) -> (outcome:
        Result<DashSet<(usize, usize)>, JoinError>)
        ensures
            match outcome {
                Ok(matched_pairs) => {
                    &&& band_fault(n_bands, band_size) is None
                    &&& drawn_bands(seeded_bands(seed, n_bands, band_size), n_bands, band_size)
                    &&& pairs_of(matched_pairs) == joined(
                        self.smaller(),
                        self.larger(),
                        seeded_bands(seed, n_bands, band_size),
                        threshold,
                    )
                    &&& forall|pair: (usize, usize)|
                        pairs_of(matched_pairs).contains(pair) ==> similar(
                            self.smaller(),
                            self.larger(),
                            threshold,
                            pair,
                        )
                },
                Err(error) => band_fault(n_bands, band_size) == Some(error),
            },
    {
        match check_bands(n_bands, band_size) {
            Ok(_) => {},
            Err(error) => {
                return Err(error);
            },
        }
        let hashers = seeded_hashers(seed, n_bands, band_size);
        let matched_pairs = self.join_with(&hashers, threshold);
        Ok(matched_pairs)
    }
}

/// The hashers of the bands that a join draws for a seed.
fn seeded_hashers(seed: u64, n_bands: usize, band_size: usize) -> (hashers: Vec<MinHasher>)
    requires
        n_bands * band_size <= usize::MAX,
    ensures
        bands_of(hashers@) == seeded_bands(seed, n_bands, band_size),
        drawn_bands(seeded_bands(seed, n_bands, band_size), n_bands, band_size),
{
    let total = n_bands * band_size;
    let draws = draw_seeded(seed, total, SEED_BOUND);
    let ghost bands = seeded_bands(seed, n_bands, band_size);
    let mut hashers: Vec<MinHasher> = Vec::new();
    let mut offset: usize = 0;
    let mut k: usize = 0;
    while k < n_bands
        invariant
            k <= n_bands,
            total == n_bands * band_size,
            offset == k * band_size,
            draws@ == seeded_draws(seed, total, SEED_BOUND),
            draws@.len() == total,
            forall|i: int| 0 <= i < draws@.len() ==> draws@[i] < SEED_BOUND,
            bands == seeded_bands(seed, n_bands, band_size),
            bands_of(hashers@) == bands.take(k as int),
        decreases n_bands - k,
    {
        proof {
            assert((k + 1) * band_size <= n_bands * band_size) by (nonlinear_arith)
                requires
                    k < n_bands,
            ;
            assert((k + 1) * band_size == k * band_size + band_size) by (nonlinear_arith);
        }
        let mut seeds: Vec<u64> = Vec::new();
        let mut t: usize = 0;
        while t < band_size
            invariant
                t <= band_size,
                offset + band_size <= draws@.len(),
                draws@.len() <= usize::MAX,
                seeds@ == draws@.subrange(offset as int, offset + t),
            decreases band_size - t,
        {
            seeds.push(draws[offset + t]);
            proof {
                assert(seeds@ =~= draws@.subrange(offset as int, offset + t + 1));
            }
            t += 1;
        }
        let hasher = MinHasher::from_seeds(seeds);
        let ghost before = bands_of(hashers@);
        hashers.push(hasher);
        proof {
            assert(hasher@ == bands[k as int]);
            assert(bands_of(hashers@) =~= before.push(hasher@));
            bands.lemma_take_succ_push(k as int);
        }
        offset += band_size;
        k += 1;
    }
    proof {
        bands.lemma_take_len();
        assert forall|b: int| 0 <= b < bands.len() implies {
            &&& (#[trigger] bands[b]).len() == band_size
            &&& forall|i: int| 0 <= i < bands[b].len() ==> bands[b][i] < SEED_BOUND
        } by {
            assert(0 <= b * band_size && (b + 1) * band_size <= n_bands * band_size && (b + 1)
                * band_size == b * band_size + band_size) by (nonlinear_arith)
                requires
                    0 <= b < n_bands,
            ;
        }
    }
    hashers
}

} // verus!
