//! Approximate record linkage.
//!
//! Two collections of strings are joined without comparing every pair: each
//! string becomes a set of n-gram fingerprints, bands of minhashes send
//! similar sets to the same bucket, and only what shares a bucket is held
//! against the exact Jaccard similarity. Every pair that a join returns has
//! passed that exact check.
//!
//! For probabilistic scoring, the agreement patterns of candidate pairs are
//! grouped into bundles, so that an estimator works on one value per pattern
//! and hands each pair the value of its pattern.
//!
//! Similarities and thresholds are exact fractions; the library holds no
//! floating-point number.
//!
//! - [`shingleset`], [`ratio`]: fingerprint sets and their similarity.
//! - [`minihasher`], [`hamminghasher`]: bucket keys for sets and for strings.
//! - [`banding`], [`match_bucket`]: one band of a join, over any bucket keys
//!   and any exact check.
//! - [`plan`], [`minhashjoiner`], [`lshjoiner`], [`linkage`]: the joins over
//!   strings.
//! - [`em_link`]: bundles of agreement patterns.
//! - [`digest`], [`random`], [`concurrent`], [`parallel`]: what the library
//!   takes from other crates, with what is believed of it.

pub mod banding;
pub mod concurrent;
pub mod digest;
pub mod em_link;
pub mod hamminghasher;
pub mod linkage;
pub mod lshjoiner;
pub mod match_bucket;
pub mod minhashjoiner;
pub mod minihasher;
pub mod parallel;
pub mod plan;
pub mod random;
pub mod ratio;
pub mod shingleset;
