//! The random stream: a generator handle that is passed explicitly to every
//! step that draws from it.

use rand::rngs::OsRng;
use rand::rngs::SmallRng;
use rand::Rng;
use rand::SeedableRng;
use vstd::prelude::*;

verus! {

/// `rand::rngs::SmallRng`, carried through as an opaque handle.
#[verifier::external_type_specification]
#[verifier::external_body]
pub struct ExSmallRng(SmallRng);

/// `rand::Error`, the failure of an entropy source.
#[verifier::external_type_specification]
#[verifier::external_body]
pub struct ExRandError(rand::Error);

/// Calls `SeedableRng::from_seed` of `SmallRng`. Nothing is claimed of the
/// generator that comes back.
#[verifier::external_body]
pub(crate) fn generator_from_seed(seed: [u8; 32]) -> (rng: SmallRng) {
    SmallRng::from_seed(seed)
}

/// Calls `SeedableRng::from_rng` of `SmallRng` on `OsRng`, which seeds the
/// generator from the operating system. Nothing is claimed of the outcome:
/// the source may fail.
#[verifier::external_body]
pub(crate) fn generator_from_entropy() -> (rng: Result<SmallRng, rand::Error>) {
    SmallRng::from_rng(OsRng)
}

/// Calls `Rng::gen_range` on the range from 0 up to, not including, `bound`.
/// The range must not be empty; the draw lies in it.
#[verifier::external_body]
pub(crate) fn draw_below(rng: &mut SmallRng, bound: usize) -> (n: usize)
    requires
        bound > 0,
    ensures
        n < bound,
{
    rng.gen_range(0..bound)
}

/// Calls `Rng::gen_ratio`: true with a chance of `numerator` in
/// `denominator`. Only the two certain cases are claimed.
#[verifier::external_body]
pub(crate) fn draw_ratio(rng: &mut SmallRng, numerator: u32, denominator: u32) -> (hit: bool)
    requires
        denominator > 0,
        numerator <= denominator,
    ensures
        numerator == denominator ==> hit,
        numerator == 0 ==> !hit,
{
    rng.gen_ratio(numerator, denominator)
}

/// Calls `Rng::gen` for a `usize`. Any value may come back.
#[verifier::external_body]
pub(crate) fn draw_any(rng: &mut SmallRng) -> (n: usize) {
    rng.gen::<usize>()
}

/// The generator of a run. A reproducible run starts from the all-zero
/// seed; otherwise the seed comes from the operating system, and the error
/// of that source is handed on.
pub fn start_generator(from_entropy: bool) -> (rng: Result<SmallRng, rand::Error>)
    ensures
        !from_entropy ==> rng is Ok,
{
    if from_entropy {
        generator_from_entropy()
    } else {
        Ok(generator_from_seed([0u8; 32]))
    }
}

} // verus!
