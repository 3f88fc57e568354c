//! The pseudo-random generator behind the shuffle. Nothing in this file is
//! proved: it says what the generator of the `rand` crate is taken to do.

use vstd::prelude::*;
use rand::rngs::{EntropyRng, StdRng};
use rand::{Rng, SeedableRng};

verus! {

/// `rand::rngs::StdRng`, the generator that the shuffle draws from. Its state
/// is hidden; what is said of it goes through `generator_seed` and
/// `generator_served`.
#[verifier::external_type_specification]
#[verifier::external_body]
pub struct ExStdRng(StdRng);

/// `rand::Error`, which reports that no source of entropy could be read.
#[verifier::external_type_specification]
#[verifier::external_body]
pub struct ExRandError(rand::Error);

/// The seed that a generator was made from by `SeedableRng::seed_from_u64`,
/// if it was made so.
pub uninterp spec fn generator_seed(rng: StdRng) -> Option<u64>;

/// The upper bounds of the draws that a generator has served since it was
/// made, oldest first.
pub uninterp spec fn generator_served(rng: StdRng) -> Seq<i32>;

/// What `Rng::gen_range(0, bound)` returns for an `i32` bound on a generator
/// that `seed_from_u64(seed)` made and that has since served draws with the
/// bounds `served`, in that order. In the 0.6 line of the crate `StdRng` is
/// HC-128 on every platform, seeded and read in little-endian order, so the
/// value depends on nothing else; another line of the crate may draw another
/// value.
pub uninterp spec fn seeded_draw(seed: u64, served: Seq<i32>, bound: i32) -> i32;

/// Makes a generator from a seed with `SeedableRng::seed_from_u64`, which
/// expands the seed by a fixed rule, so the same seed always gives a generator
/// in the same state. The contract records the seed and that nothing has been
/// drawn yet.
#[verifier::external_body]
pub(crate) fn seeded_generator(seed: u64) -> (rng: StdRng)
    ensures
        generator_seed(rng) == Some(seed),
        generator_served(rng) == Seq::<i32>::empty(),
{
    StdRng::seed_from_u64(seed)
}

/// Makes a generator with `SeedableRng::from_rng` from `EntropyRng::new()`,
/// which reads entropy from the operating system or, failing that, from
/// timing jitter, and reports an error where neither can be had. Nothing is
/// claimed of the generator that comes back.
#[verifier::external_body]
pub(crate) fn entropy_generator() -> (made: Result<StdRng, rand::Error>) {
    StdRng::from_rng(EntropyRng::new())
}

/// Draws with `Rng::gen_range(0, bound)`, which returns a value from 0 up to
/// but not including `bound` and panics unless `bound` is positive. The
/// generator's state is a function of its seed and of the bounds it has
/// served, so on a seeded generator the value is `seeded_draw` of these; the
/// draw is then added to what the generator has served.
#[verifier::external_body]
pub(crate) fn draw_below(rng: &mut StdRng, bound: i32) -> (draw: i32)
    requires
        0 < bound,
    ensures
        0 <= draw < bound,
        generator_seed(*final(rng)) == generator_seed(*old(rng)),
        generator_served(*final(rng)) == generator_served(*old(rng)).push(bound),
        generator_seed(*old(rng)) matches Some(seed) ==> draw == seeded_draw(
            seed,
            generator_served(*old(rng)),
            bound,
        ),
{
    rng.gen_range(0, bound)
}

} // verus!
