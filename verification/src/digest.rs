//! The non-cryptographic digests that fingerprints and bucket keys are made of.
//!
//! All of them run `rustc_hash::FxHasher` from its initial state, which holds
//! no seed and no address: on the target that the crate is built for, a
//! digest depends on nothing but what is fed to the hasher. Verus does not
//! see the hasher. Each digest therefore has a name, and the function that
//! computes it is believed to return what the name stands for.

use rustc_hash::FxHasher;
use std::hash::Hash;
use std::hash::Hasher;
use vstd::prelude::*;

verus! {

/// What `FxHasher` makes of a window of characters.
pub uninterp spec fn fx_chars_digest(window: Seq<char>) -> u64;

/// What `FxHasher` makes of a salt followed by a window of characters.
pub uninterp spec fn fx_salted_chars_digest(salt: Seq<char>, window: Seq<char>) -> u64;

/// What `FxHasher` makes of a seed followed by one fingerprint.
pub uninterp spec fn fx_seeded_digest(seed: u64, item: u32) -> u64;

/// What `FxHasher` makes of a sequence of 64-bit words.
pub uninterp spec fn fx_words_digest(words: Seq<u64>) -> u64;

/// `FxHasher::default`, `Hash::hash` of the window, `Hasher::finish`. The
/// result is a function of the window's characters alone.
#[verifier::external_body]
pub(crate) fn fx_chars(window: &[char]) -> (digest: u64)
    ensures
        digest == fx_chars_digest(window@),
{
    let mut hasher = FxHasher::default();
    window.hash(&mut hasher);
    hasher.finish()
}

/// `FxHasher::default`, `Hash::hash` of the salt and then of the window,
/// `Hasher::finish`. The result is a function of the two character sequences
/// alone.
#[verifier::external_body]
pub(crate) fn fx_salted_chars(salt: &str, window: &[char]) -> (digest: u64)
    ensures
        digest == fx_salted_chars_digest(salt@, window@),
{
    let mut hasher = FxHasher::default();
    salt.hash(&mut hasher);
    window.hash(&mut hasher);
    hasher.finish()
}

/// `FxHasher::default`, `Hash::hash` of the seed and then of the fingerprint,
/// `Hasher::finish`. The result is a function of the two numbers alone.
#[verifier::external_body]
pub(crate) fn fx_seeded(seed: u64, item: u32) -> (digest: u64)
    ensures
        digest == fx_seeded_digest(seed, item),
{
    let mut hasher = FxHasher::default();
    seed.hash(&mut hasher);
    item.hash(&mut hasher);
    hasher.finish()
}

/// `FxHasher::default`, `Hash::hash_slice` of the words, `Hasher::finish`.
/// The result is a function of the word sequence alone.
#[verifier::external_body]
pub(crate) fn fx_words(words: &[u64]) -> (digest: u64)
    ensures
        digest == fx_words_digest(words@),
{
    let mut hasher = FxHasher::default();
    Hash::hash_slice(words, &mut hasher);
    hasher.finish()
}

} // verus!
