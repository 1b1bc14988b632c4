//! `rand`'s small generator and `fastrand`.

use rand::rngs::SmallRng;
use rand::{Rng, SeedableRng};
use vstd::prelude::*;

verus! {

/// `rand::rngs::SmallRng`, a generator of random numbers; opaque.
#[verifier::external_type_specification]
#[verifier::external_body]
pub struct ExSmallRng(rand::rngs::SmallRng);

/// `SmallRng::seed_from_u64`: a generator with the given seed. Which numbers a seed leads to differs
/// between machines, so nothing is claimed of them.
#[verifier::external_body]
pub(crate) fn rng_from_seed(seed: u64) -> (rng: SmallRng)
{
    SmallRng::seed_from_u64(seed)
}

/// `SmallRng::from_os_rng`: a generator seeded by the operating system, which is taken to have random
/// numbers to give. Nothing is claimed of the generator.
#[verifier::external_body]
pub(crate) fn rng_from_os() -> (rng: SmallRng)
{
    SmallRng::from_os_rng()
}

/// `Rng::random_range` on `0..len`: some number of the range, which must not be empty.
#[verifier::external_body]
pub(crate) fn random_below(rng: &mut SmallRng, len: usize) -> (number: usize)
    requires
        len > 0,
    ensures
        number < len,
{
    rng.random_range(0..len)
}

/// `fastrand::usize` on `..len`: some number of the range, which must not be empty.
#[verifier::external_body]
pub(crate) fn fast_random_below(len: usize) -> (number: usize)
    requires
        len > 0,
    ensures
        number < len,
{
    fastrand::usize(..len)
}

}
