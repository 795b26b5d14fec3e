//! The random generator that hashers draw their parameters from.
//!
//! The generator is `rand`'s `StdRng`. What a generator in some unknown state
//! hands out is left open: of such a draw only the range is stated. What a
//! generator hands out right after it was started from a seed depends on the
//! seed alone, and has a name.

use rand::distributions::Uniform;
use rand::rngs::StdRng;
use rand::Rng;
use rand::SeedableRng;
use vstd::prelude::*;

verus! {

/// `rand::rngs::StdRng`, taken as it is: nothing is said of its state.
#[verifier::external_type_specification]
#[verifier::external_body]
pub struct ExStdRng(StdRng);

/// The first `count` numbers below `bound` that a generator started from
/// `seed` hands out.
pub uninterp spec fn seeded_draws(seed: u64, count: usize, bound: u64) -> Seq<u64>;

/// `StdRng::seed_from_u64`, then `Rng::sample_iter` of `Uniform::new(0, bound)`
/// for `count` numbers: the generator is a function of the seed and takes
/// nothing from its surroundings, so the numbers depend on the arguments
/// alone. There are `count` of them, each below `bound`. `Uniform::new`
/// refuses an empty range, so `bound` is not zero.
#[verifier::external_body]
pub(crate) fn draw_seeded(seed: u64, count: usize, bound: u64) -> (drawn: Vec<u64>)
    requires
        bound > 0,
    ensures
        drawn@ == seeded_draws(seed, count, bound),
        drawn@.len() == count,
        forall|i: int| 0 <= i < drawn@.len() ==> drawn@[i] < bound,
{
    StdRng::seed_from_u64(seed).sample_iter(Uniform::new(0u64, bound)).take(count).collect()
}

/// `Rng::sample` of `Uniform::new(0, bound)`: a number below `bound`.
/// `Uniform::new` refuses an empty range, so `bound` is not zero.
#[verifier::external_body]
pub(crate) fn draw_below(rng: &mut StdRng, bound: u64) -> (drawn: u64)
    requires
        bound > 0,
    ensures
        drawn < bound,
{
    rng.sample(Uniform::new(0u64, bound))
}

/// `Rng::gen_range(0..bound)`: an index below `bound`. The call refuses an
/// empty range, so `bound` is not zero.
#[verifier::external_body]
pub(crate) fn draw_index(rng: &mut StdRng, bound: usize) -> (drawn: usize)
    requires
        bound > 0,
    ensures
        drawn < bound,
{
    rng.gen_range(0..bound)
}

} // verus!
