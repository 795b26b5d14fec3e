use rand::rngs::StdRng;
use rand::Rng;
use rand::SeedableRng;
use zoomerjoin::em_link::{next_step, EMLinker, LinkStep};

struct Fit {
    lambda: f64,
    match_params: Vec<Vec<f64>>,
    not_match_params: Vec<Vec<f64>>,
    bundle_probs: Vec<f64>,
    iterations: i32,
}

fn or_zero(value: f64) -> f64 {
    if value.is_nan() {
        0.0
    } else {
        value
    }
}

fn m_step(linker: &EMLinker, fit: &mut Fit) {
    let n = linker.n_rows() as f64;
    let bundles = linker.bundles();
    fit.lambda =
        bundles.iter().zip(&fit.bundle_probs).map(|(b, p)| p * b.count() as f64).sum::<f64>() / n;
    fit.match_params = linker.levels().iter().map(|k| vec![0.0; *k]).collect();
    fit.not_match_params = fit.match_params.clone();
    for (bundle, prob) in bundles.iter().zip(&fit.bundle_probs) {
        let count = bundle.count() as f64;
        for (field, level) in bundle.pattern.iter().enumerate() {
            fit.match_params[field][*level] += or_zero(count * prob / (n * fit.lambda));
            fit.not_match_params[field][*level] +=
                or_zero(count * (1.0 - prob) / (n * (1.0 - fit.lambda)));
        }
    }
}

fn e_step(linker: &EMLinker, fit: &mut Fit) {
    for (bundle, prob) in linker.bundles().iter().zip(fit.bundle_probs.iter_mut()) {
        let mut matched = fit.lambda;
        let mut unmatched = 1.0 - fit.lambda;
        for (field, level) in bundle.pattern.iter().enumerate() {
            matched *= fit.match_params[field][*level];
            unmatched *= fit.not_match_params[field][*level];
        }
        let denominator = matched + unmatched;
        *prob = if denominator == 0.0 { 0.0 } else { or_zero(matched / denominator) };
    }
}

fn unlist(fit: &Fit) -> Vec<f64> {
    fit.not_match_params.iter().chain(&fit.match_params).flatten().copied().collect()
}

fn largest_change(old: &[f64], new: &[f64]) -> f64 {
    old.iter().zip(new).map(|(x, y)| (x - y).abs()).fold(0.0, f64::max)
}

fn estimate(linker: &EMLinker, guesses: &[f64], tol: f64, max_iter: i32) -> Result<Fit, i32> {
    let bundle_probs = linker.bundles().iter().map(|b| guesses[b.ids[0]]).collect();
    let mut fit = Fit {
        lambda: 0.5,
        match_params: Vec::new(),
        not_match_params: Vec::new(),
        bundle_probs,
        iterations: 0,
    };
    m_step(linker, &mut fit);
    let mut change = f64::INFINITY;
    let mut old = unlist(&fit);
    loop {
        let (step, count) = next_step(fit.iterations, max_iter, !(change > tol));
        fit.iterations = count;
        match step {
            LinkStep::Converged => return Ok(fit),
            LinkStep::Exhausted => return Err(fit.iterations),
            LinkStep::Iterate => {
                e_step(linker, &mut fit);
                m_step(linker, &mut fit);
                let new = unlist(&fit);
                change = largest_change(&old, &new);
                old = new;
            }
        }
    }
}

fn synthetic(
    n: usize,
    prior: f64,
    agree_if_match: &[f64],
    agree_if_not: &[f64],
    seed: u64,
) -> (Vec<Vec<usize>>, Vec<f64>) {
    let mut rng = StdRng::seed_from_u64(seed);
    let mut rows = Vec::new();
    let mut guesses = Vec::new();
    for _ in 0..n {
        let is_match = rng.gen_bool(prior);
        let odds = if is_match { agree_if_match } else { agree_if_not };
        let row: Vec<usize> = odds.iter().map(|p| usize::from(rng.gen_bool(*p))).collect();
        let agreeing = row.iter().sum::<usize>() as f64;
        guesses.push((agreeing + 0.5) / (row.len() as f64 + 1.0));
        rows.push(row);
    }
    (rows, guesses)
}

#[test]
fn estimator_recovers_the_generating_parameters() {
    let prior = 0.2;
    let agree_if_match = [0.9, 0.85, 0.95, 0.8];
    let agree_if_not = [0.1, 0.2, 0.05, 0.15];
    let (rows, guesses) = synthetic(200_000, prior, &agree_if_match, &agree_if_not, 17);
    let linker = EMLinker::new(&rows).unwrap();
    assert_eq!(linker.bundles().len(), 16);
    let fit = estimate(&linker, &guesses, 1e-9, 2_000).unwrap();
    assert!((fit.lambda - prior).abs() < 0.01);
    for field in 0..4 {
        assert!((fit.match_params[field][1] - agree_if_match[field]).abs() < 0.02);
        assert!((fit.not_match_params[field][1] - agree_if_not[field]).abs() < 0.01);
        assert!((fit.match_params[field][0] + fit.match_params[field][1] - 1.0).abs() < 1e-9);
        assert!(
            (fit.not_match_params[field][0] + fit.not_match_params[field][1] - 1.0).abs() < 1e-9
        );
    }
    let probs = linker.expand(&fit.bundle_probs);
    assert_eq!(probs.len(), rows.len());
    for (row, prob) in rows.iter().zip(&probs) {
        assert!(*prob >= 0.0 && *prob <= 1.0);
        if row.iter().all(|level| *level == 1) {
            assert!(*prob > 0.99);
        }
        if row.iter().all(|level| *level == 0) {
            assert!(*prob < 0.001);
        }
    }
}

#[test]
fn one_more_cycle_after_convergence_moves_nothing_beyond_tolerance() {
    let (rows, guesses) = synthetic(50_000, 0.3, &[0.9, 0.8, 0.9], &[0.1, 0.1, 0.2], 5);
    let linker = EMLinker::new(&rows).unwrap();
    let tol = 1e-7;
    let mut fit = estimate(&linker, &guesses, tol, 5_000).unwrap();
    let lambda = fit.lambda;
    let before = unlist(&fit);
    e_step(&linker, &mut fit);
    m_step(&linker, &mut fit);
    let after = unlist(&fit);
    assert!(largest_change(&before, &after) < tol);
    assert!((fit.lambda - lambda).abs() < tol);
}

#[test]
fn identical_rows_converge_at_once_to_one_probability() {
    let rows = vec![vec![0, 0, 0]; 25];
    let guesses = vec![0.3; 25];
    let linker = EMLinker::new(&rows).unwrap();
    assert_eq!(linker.bundles().len(), 1);
    let fit = estimate(&linker, &guesses, 1e-9, 10).unwrap();
    assert_eq!(fit.iterations, 1);
    assert!((fit.lambda - 0.3).abs() < 1e-12);
    let probs = linker.expand(&fit.bundle_probs);
    assert_eq!(probs.len(), 25);
    assert!((probs[0] - 0.3).abs() < 1e-12);
    assert!(probs.iter().all(|prob| *prob == probs[0]));
}

#[test]
fn estimator_gives_up_after_the_allowed_steps() {
    let (rows, guesses) = synthetic(20_000, 0.3, &[0.9, 0.8, 0.9], &[0.1, 0.1, 0.2], 5);
    let linker = EMLinker::new(&rows).unwrap();
    assert_eq!(estimate(&linker, &guesses, 1e-12, 3).err(), Some(3));
    assert_eq!(estimate(&linker, &guesses, 1e-12, 0).err(), Some(0));
    assert!(estimate(&linker, &guesses, 1e-6, 5_000).is_ok());
}

#[test]
fn rows_without_evidence_get_probability_zero_and_not_a_number() {
    let rows = vec![vec![0, 1], vec![1, 0], vec![0, 1]];
    let guesses = vec![0.0, 0.0, 0.0];
    let linker = EMLinker::new(&rows).unwrap();
    let fit = estimate(&linker, &guesses, 1e-9, 50).unwrap();
    assert_eq!(fit.lambda, 0.0);
    let probs = linker.expand(&fit.bundle_probs);
    assert_eq!(probs, vec![0.0, 0.0, 0.0]);
}
