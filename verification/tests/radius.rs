use dashmap::DashMap;
use dashmap::DashSet;
use ndarray::arr2;
use ndarray::Array1;
use ndarray::Array2;
use ndarray::ArrayView1;
use ndarray::ArrayView2;
use ndarray_rand::rand_distr::Normal;
use ndarray_rand::rand_distr::Uniform;
use ndarray_rand::RandomExt;
use rand::rngs::StdRng;
use rand::SeedableRng;
use rustc_hash::FxHasher;
use std::hash::Hash;
use std::hash::Hasher;
use zoomerjoin::banding::band_join;
use zoomerjoin::minhashjoiner::left_right_pairs;
use zoomerjoin::plan::{check_bands, check_dimensions, JoinError};

fn projection_key(x: ArrayView1<f64>, a: &Array2<f64>, b: &Array1<f64>, r: f64) -> u64 {
    let rounded = ((x.dot(a) + b) / r).map(|cell| cell.round() as u64);
    let mut hasher = FxHasher::default();
    rounded.hash(&mut hasher);
    hasher.finish()
}

fn radius_join(
    a: ArrayView2<f64>,
    b: ArrayView2<f64>,
    radius: f64,
    band_width: usize,
    n_bands: usize,
    r: f64,
    seed: u64,
) -> Result<Vec<(usize, usize)>, JoinError> {
    check_dimensions(a.ncols(), b.ncols())?;
    check_bands(n_bands, band_width)?;
    let mut pairs: DashSet<(usize, usize)> = DashSet::new();
    let mut store: DashMap<u64, Vec<usize>> = DashMap::new();
    let mut rng = StdRng::seed_from_u64(seed);
    for _ in 0..n_bands {
        let directions =
            Array2::random_using((a.ncols(), band_width), Normal::new(0.0, 1.0).unwrap(), &mut rng);
        let offsets = Array1::random_using(band_width, Uniform::new(0.0, r), &mut rng);
        let build_keys: Vec<u64> =
            a.outer_iter().map(|x| projection_key(x, &directions, &offsets, r)).collect();
        let probe_keys: Vec<u64> =
            b.outer_iter().map(|x| projection_key(x, &directions, &offsets, r)).collect();
        band_join(&mut pairs, &mut store, &build_keys, &probe_keys, |j: usize, i: usize| {
            let squares: f64 =
                b.row(j).iter().zip(a.row(i).iter()).map(|(x, y)| (x - y).powi(2)).sum();
            squares.sqrt() < radius
        });
    }
    let mut rows = left_right_pairs(&pairs);
    rows.sort();
    Ok(rows)
}

#[test]
fn near_point_is_joined_and_far_point_is_not() {
    let a = arr2(&[[0.0, 0.0]]);
    let b = arr2(&[[0.1, 0.1], [10.0, 10.0]]);
    let rows = radius_join(a.view(), b.view(), 1.0, 2, 40, 4.0, 3).unwrap();
    assert_eq!(rows, vec![(0, 0)]);
}

#[test]
fn nothing_beyond_the_radius_is_joined_however_wide_the_buckets() {
    let a = arr2(&[[0.0, 0.0], [5.0, 5.0], [5.5, 5.0]]);
    let b = arr2(&[[0.1, 0.1], [10.0, 10.0], [5.2, 5.1]]);
    let rows = radius_join(a.view(), b.view(), 1.0, 1, 60, 1000.0, 8).unwrap();
    assert_eq!(rows, vec![(0, 0), (1, 2), (2, 2)]);
}

#[test]
fn mismatched_dimensions_are_refused_before_any_band_runs() {
    let a = arr2(&[[0.0, 0.0]]);
    let b = arr2(&[[0.1, 0.1, 0.3]]);
    assert_eq!(
        radius_join(a.view(), b.view(), 1.0, 2, 40, 4.0, 3),
        Err(JoinError::DimensionMismatch)
    );
    assert_eq!(radius_join(a.view(), a.view(), 1.0, 2, 0, 4.0, 3), Err(JoinError::NoBands));
    assert_eq!(radius_join(a.view(), a.view(), 1.0, 0, 4, 4.0, 3), Err(JoinError::NoBandWidth));
}
