use dashmap::DashMap;
use dashmap::DashSet;
use rand::distributions::Uniform;
use rand::rngs::StdRng;
use rand::Rng;
use rand::SeedableRng;
use zoomerjoin::banding::band_join;
use zoomerjoin::linkage::{pairwise_similarity, salted_similarity_join, similarity_join};
use zoomerjoin::lshjoiner::LSHjoiner;
use zoomerjoin::minhashjoiner::{left_right_pairs, MinHashJoiner};
use zoomerjoin::minihasher::MinHasher;
use zoomerjoin::plan::{check_bands, check_dimensions, JoinError};
use zoomerjoin::ratio::Ratio;

fn sorted(set: &DashSet<(usize, usize)>) -> Vec<(usize, usize)> {
    let mut pairs: Vec<(usize, usize)> = set.iter().map(|pair| *pair.key()).collect();
    pairs.sort();
    pairs
}

#[test]
fn near_duplicates_are_joined_and_strangers_are_not() {
    let left = vec!["hello world", "goodbye"];
    let right = vec!["hello word", "hello world"];
    let joiner = MinHashJoiner::new(left, right, 3);
    let pairs = joiner.join(100, 2, Ratio::new(1, 2), 1).unwrap();
    assert!(pairs.contains(&(1, 0)));
    assert!(pairs.contains(&(0, 0)));
    assert!(!pairs.contains(&(0, 1)));
    assert!(!pairs.contains(&(1, 1)));
    assert_eq!(pairs.len(), 2);
}

#[test]
fn similarity_join_lists_left_then_right() {
    let left = vec!["hello world", "goodbye"];
    let right = vec!["hello word", "hello world"];
    let mut rows = similarity_join(left, right, 3, 100, 2, Ratio::new(1, 2), 1).unwrap();
    rows.sort();
    assert_eq!(rows, vec![(0, 0), (0, 1)]);
}

#[test]
fn join_accepts_nothing_under_the_threshold() {
    let left = vec!["hello world", "goodbye"];
    let right = vec!["hello word", "hello world"];
    let joiner = MinHashJoiner::new(left, right, 3);
    let exact = joiner.join(200, 1, Ratio::new(1, 1), 5).unwrap();
    assert_eq!(sorted(&exact), vec![(1, 0)]);
    let strict = joiner.join(200, 1, Ratio::new(71, 100), 5).unwrap();
    assert_eq!(sorted(&strict), vec![(1, 0)]);
    let at_the_value = joiner.join(200, 1, Ratio::new(7, 10), 5).unwrap();
    assert_eq!(sorted(&at_the_value), vec![(0, 0), (1, 0)]);
    let beyond = joiner.join(200, 1, Ratio::new(3, 2), 5).unwrap();
    assert!(beyond.is_empty());
}

#[test]
fn many_bands_report_each_pair_once() {
    let left = vec!["hello world", "hello world", "goodbye"];
    let right = vec!["hello world", "hello world"];
    let rows = similarity_join(left, right, 3, 500, 3, Ratio::new(1, 2), 9).unwrap();
    let mut unique = rows.clone();
    unique.sort();
    unique.dedup();
    assert_eq!(unique.len(), rows.len());
    assert_eq!(unique, vec![(0, 0), (0, 1), (1, 0), (1, 1)]);
}

#[test]
fn identical_records_are_found_by_a_single_band() {
    let left = vec!["alpha beta", "gamma delta", "epsilon"];
    let right = vec!["epsilon", "alpha beta"];
    for seed in 0..20 {
        let joiner = MinHashJoiner::new(left.clone(), right.clone(), 2);
        let pairs = joiner.join(1, 8, Ratio::new(1, 1), seed).unwrap();
        assert_eq!(sorted(&pairs), vec![(0, 2), (1, 0)]);
    }
}

#[test]
fn join_refuses_zero_bands_and_zero_width() {
    let joiner = MinHashJoiner::new(vec!["abc"], vec!["abc"], 2);
    assert_eq!(joiner.join(0, 2, Ratio::new(1, 2), 1).err(), Some(JoinError::NoBands));
    assert_eq!(joiner.join(3, 0, Ratio::new(1, 2), 1).err(), Some(JoinError::NoBandWidth));
    assert_eq!(joiner.join(0, 0, Ratio::new(1, 2), 1).err(), Some(JoinError::NoBands));
    assert_eq!(
        similarity_join(vec!["abc"], vec!["abc"], 2, 0, 2, Ratio::new(1, 2), 1),
        Err(JoinError::NoBands)
    );
    assert_eq!(
        similarity_join(vec!["abc"], vec!["abc"], 0, 0, 0, Ratio::new(1, 2), 1),
        Err(JoinError::NoWindowWidth)
    );
    assert_eq!(
        similarity_join(Vec::new(), Vec::new(), 0, 3, 3, Ratio::new(1, 2), 1),
        Err(JoinError::NoWindowWidth)
    );
    assert_eq!(
        salted_similarity_join(
            vec!["abc"],
            vec!["abc"],
            vec!["s"],
            vec!["s"],
            2,
            4,
            0,
            Ratio::new(1, 2),
            1
        ),
        Err(JoinError::NoBandWidth)
    );
}

#[test]
fn join_is_the_same_for_the_same_seed() {
    let left = vec!["hello world", "goodbye", "hello there", "good buy"];
    let right = vec!["hello word", "hello world", "goodbye!", "hullo there"];
    let joiner = MinHashJoiner::new(left, right, 3);
    let first = joiner.join(10, 3, Ratio::new(2, 5), 42).unwrap();
    let second = joiner.join(10, 3, Ratio::new(2, 5), 42).unwrap();
    assert_eq!(sorted(&first), sorted(&second));
}

#[test]
fn join_with_given_hashers_joins_what_shares_a_bucket() {
    let left = vec!["hello world", "goodbye"];
    let right = vec!["goodbye", "hello world", "hello world"];
    let joiner = MinHashJoiner::new(left, right, 3);
    assert_eq!(joiner.smaller_len(), 2);
    assert_eq!(joiner.larger_len(), 3);
    let hashers = vec![MinHasher::from_seeds(vec![1, 2, 3, 4, 5, 6, 7, 8])];
    let pairs = joiner.join_with(&hashers, Ratio::new(1, 1));
    assert_eq!(sorted(&pairs), vec![(0, 1), (1, 0), (2, 0)]);
    let none = joiner.join_with(&Vec::new(), Ratio::new(0, 1));
    assert!(none.is_empty());
}

#[test]
fn hasher_without_seeds_puts_all_records_in_one_bucket() {
    let left = vec!["hello world", "goodbye"];
    let right = vec!["hello word", "zzzzzz"];
    let joiner = MinHashJoiner::new(left, right, 3);
    let hashers = vec![MinHasher::from_seeds(Vec::new())];
    let all = joiner.join_with(&hashers, Ratio::new(0, 1));
    assert_eq!(sorted(&all), vec![(0, 0), (0, 1), (1, 0), (1, 1)]);
    let half = joiner.join_with(&hashers, Ratio::new(1, 2));
    assert_eq!(sorted(&half), vec![(0, 0)]);
}

#[test]
fn empty_records_are_joined_only_at_threshold_zero() {
    let joiner = MinHashJoiner::new(vec!["", "ab"], vec!["a", "xyz"], 3);
    let loose = joiner.join(5, 2, Ratio::new(0, 1), 3).unwrap();
    assert!(loose.contains(&(0, 0)));
    assert!(loose.contains(&(0, 1)));
    let tight = joiner.join(5, 2, Ratio::new(1, 100), 3).unwrap();
    assert!(tight.is_empty());
}

#[test]
fn empty_collections_join_to_nothing() {
    let joiner = MinHashJoiner::new(Vec::new(), vec!["abc"], 2);
    assert!(joiner.join(4, 2, Ratio::new(0, 1), 1).unwrap().is_empty());
    let other = MinHashJoiner::new(vec!["abc"], Vec::new(), 2);
    assert!(other.join(4, 2, Ratio::new(0, 1), 1).unwrap().is_empty());
}

#[test]
fn salts_keep_equal_strings_apart() {
    let left = vec!["hello world", "hello world"];
    let right = vec!["hello world", "hello world"];
    let left_salt = vec!["smith", "jones"];
    let right_salt = vec!["jones", "smith"];
    let mut rows = salted_similarity_join(
        left,
        right,
        left_salt,
        right_salt,
        3,
        50,
        2,
        Ratio::new(1, 2),
        7,
    )
    .unwrap();
    rows.sort();
    assert_eq!(rows, vec![(0, 1), (1, 0)]);
}

#[test]
fn records_without_a_salt_take_no_part() {
    let joiner = MinHashJoiner::new_with_salt(
        vec!["hello world", "hello world", "hello world"],
        vec!["hello world"],
        vec!["s", "s"],
        vec!["s", "s", "s"],
        3,
    );
    assert_eq!(joiner.smaller_len(), 2);
    assert_eq!(joiner.larger_len(), 1);
    let pairs = joiner.join(3, 2, Ratio::new(1, 1), 0).unwrap();
    assert_eq!(sorted(&pairs), vec![(0, 0), (0, 1)]);
}

#[test]
fn lsh_joiner_joins_with_the_callers_generator() {
    let left = vec!["hello world".to_string(), "goodbye".to_string()];
    let right = vec!["hello word".to_string(), "hello world".to_string()];
    let joiner = LSHjoiner::new(left, right, 3);
    let mut rng = StdRng::seed_from_u64(12);
    let pairs = joiner.join(100, 2, Ratio::new(1, 2), &mut rng).unwrap();
    assert_eq!(sorted(&pairs), vec![(0, 0), (1, 0)]);
    let mut again = StdRng::seed_from_u64(12);
    let repeat = joiner.join(100, 2, Ratio::new(1, 2), &mut again).unwrap();
    assert_eq!(sorted(&pairs), sorted(&repeat));
}

#[test]
fn lsh_joiner_refuses_zero_bands_and_zero_width() {
    let joiner = LSHjoiner::new(vec!["abc".to_string()], vec!["abc".to_string()], 2);
    let mut rng = StdRng::seed_from_u64(1);
    assert_eq!(joiner.join(0, 2, Ratio::new(1, 2), &mut rng).err(), Some(JoinError::NoBands));
    assert_eq!(joiner.join(2, 0, Ratio::new(1, 2), &mut rng).err(), Some(JoinError::NoBandWidth));
}

#[test]
fn lsh_joiner_with_salt_keeps_equal_strings_apart() {
    let joiner = LSHjoiner::new_with_salt(
        vec!["hello world".to_string(), "hello world".to_string()],
        vec!["hello world".to_string()],
        vec!["a".to_string(), "b".to_string()],
        vec!["b".to_string()],
        3,
    );
    let mut rng = StdRng::seed_from_u64(4);
    let pairs = joiner.join(20, 2, Ratio::new(1, 2), &mut rng).unwrap();
    assert_eq!(sorted(&pairs), vec![(0, 1)]);
}

#[test]
fn pairwise_similarity_goes_place_by_place() {
    let left = vec!["hello world", "goodbye", "", "extra"];
    let right = vec!["hello word", "goodbye", "abc"];
    let sims = pairwise_similarity(&left, &right, 3).unwrap();
    assert_eq!(sims, vec![Ratio::new(7, 10), Ratio::new(5, 5), Ratio::new(0, 1)]);
    assert_eq!(pairwise_similarity(&left, &right, 0), Err(JoinError::NoWindowWidth));
}

#[test]
fn left_right_pairs_swaps_and_keeps_every_pair() {
    let pairs: DashSet<(usize, usize)> = DashSet::new();
    pairs.insert((1, 2));
    pairs.insert((3, 4));
    pairs.insert((1, 2));
    pairs.insert((2, 1));
    let mut rows = left_right_pairs(&pairs);
    rows.sort();
    assert_eq!(rows, vec![(1, 2), (2, 1), (4, 3)]);
}

#[test]
fn band_join_accepts_exactly_the_verified_candidates() {
    let build_keys: Vec<u64> = vec![10, 20, 10, 30];
    let probe_keys: Vec<u64> = vec![10, 40, 20];
    let mut pairs: DashSet<(usize, usize)> = DashSet::new();
    let mut store: DashMap<u64, Vec<usize>> = DashMap::new();
    store.insert(99, vec![5]);
    band_join(&mut pairs, &mut store, &build_keys, &probe_keys, |_j: usize, i: usize| i != 2);
    assert_eq!(sorted(&pairs), vec![(0, 0), (2, 1)]);
    assert!(store.is_empty());
}

#[test]
fn band_join_does_not_ask_again_about_known_pairs() {
    let build_keys: Vec<u64> = vec![1, 1];
    let probe_keys: Vec<u64> = vec![1];
    let mut pairs: DashSet<(usize, usize)> = DashSet::new();
    pairs.insert((0, 0));
    pairs.insert((7, 7));
    let mut store: DashMap<u64, Vec<usize>> = DashMap::new();
    band_join(&mut pairs, &mut store, &build_keys, &probe_keys, |_j: usize, i: usize| {
        assert_ne!(i, 0);
        false
    });
    assert_eq!(sorted(&pairs), vec![(0, 0), (7, 7)]);
}

#[test]
fn bands_are_checked_before_dimensions_matter() {
    assert_eq!(check_bands(1, 1), Ok(()));
    assert_eq!(check_bands(0, 1), Err(JoinError::NoBands));
    assert_eq!(check_bands(1, 0), Err(JoinError::NoBandWidth));
    assert_eq!(check_bands(0, 0), Err(JoinError::NoBands));
    assert_eq!(check_bands(usize::MAX, 1), Ok(()));
    assert_eq!(check_bands(usize::MAX, 2), Err(JoinError::TooManySeeds));
    assert_eq!(check_bands(usize::MAX / 2 + 1, 2), Err(JoinError::TooManySeeds));
    assert_eq!(check_bands(usize::MAX / 2, 2), Ok(()));
    assert_eq!(check_dimensions(3, 3), Ok(()));
    assert_eq!(check_dimensions(0, 0), Ok(()));
    assert_eq!(check_dimensions(2, 3), Err(JoinError::DimensionMismatch));
}

#[test]
fn join_errors_say_what_went_wrong() {
    assert_eq!(JoinError::NoBands.describe(), "the number of bands must be at least 1");
    assert_eq!(JoinError::NoBandWidth.describe(), "the width of a band must be at least 1");
    assert_eq!(
        JoinError::DimensionMismatch.describe(),
        "the two collections must have the same number of coordinates"
    );
    assert_eq!(JoinError::NoWindowWidth.describe(), "the width of a window must be at least 1");
    assert_eq!(
        JoinError::TooManySeeds.describe(),
        "the bands hold more seeds than can be counted"
    );
}

#[test]
fn crowded_bucket_is_joined_in_full() {
    let left = vec![""; 1100];
    let right = vec![""; 1000];
    let joiner = MinHashJoiner::new(left, right, 3);
    let pairs = joiner.join(2, 3, Ratio::new(0, 1), 1).unwrap();
    assert_eq!(pairs.len(), 1_100_000);
    assert!(pairs.contains(&(0, 0)));
    assert!(pairs.contains(&(999, 1099)));
    assert!(!pairs.contains(&(1000, 0)));
    let none = joiner.join(2, 3, Ratio::new(1, 1_000_000), 1).unwrap();
    assert!(none.is_empty());
}

#[test]
fn seeded_join_uses_the_bands_that_the_generator_hands_out() {
    let left = vec!["hello world", "goodbye", "hello there", "good buy", "hullo world"];
    let right = vec!["hello word", "hello world", "goodbye!", "hullo there", "good boy"];
    let joiner = MinHashJoiner::new(left, right, 2);
    for seed in [0u64, 1, 77] {
        let mut rng = StdRng::seed_from_u64(seed);
        let mut hashers = Vec::new();
        for _ in 0..6 {
            let seeds: Vec<u64> = (0..3).map(|_| rng.sample(Uniform::new(0u64, 20_000_000))).collect();
            hashers.push(MinHasher::from_seeds(seeds));
        }
        let expected = joiner.join_with(&hashers, Ratio::new(1, 4));
        let found = joiner.join(6, 3, Ratio::new(1, 4), seed).unwrap();
        assert_eq!(sorted(&found), sorted(&expected));
        let mut fresh = StdRng::seed_from_u64(seed);
        let in_turn: Vec<MinHasher> = (0..6).map(|_| MinHasher::new(3, &mut fresh)).collect();
        for (drawn, built) in in_turn.iter().zip(&hashers) {
            assert_eq!(drawn.seeds(), built.seeds());
        }
    }
}

#[test]
fn join_refuses_more_seeds_than_can_be_counted() {
    let joiner = MinHashJoiner::new(vec!["abc"], vec!["abc"], 2);
    assert_eq!(
        joiner.join(usize::MAX, 2, Ratio::new(1, 2), 1).err(),
        Some(JoinError::TooManySeeds)
    );
    let other = LSHjoiner::new(vec!["abc".to_string()], vec!["abc".to_string()], 2);
    let mut rng = StdRng::seed_from_u64(1);
    assert_eq!(
        other.join(usize::MAX, 2, Ratio::new(1, 2), &mut rng).err(),
        Some(JoinError::TooManySeeds)
    );
}
