//! Orbit determination: tracking devices, the measurements they take, and
//! the simulation of a tracking arc.

pub mod msr;
pub mod simulator;

use vstd::prelude::*;

verus! {

/// `rand::rngs::StdRng`, the random number generator that the devices draw
/// their noise from. The library hands it on and sees nothing of it.
#[verifier::external_type_specification]
#[verifier::external_body]
pub struct ExStdRng(rand::rngs::StdRng);

/// A device that can be asked for a measurement of a state.
///
/// What an implementation promises of its name and of its measurements it
/// says by the two relations, which promise nothing unless it states them.
pub trait TrackingDeviceSim<MsrIn, Msr>: Sized {
    /// Whether `name` is the name of the device.
    open spec fn named(&self, name: Seq<char>) -> bool {
        true
    }

    /// Whether the device can answer `msr` when it is asked for a
    /// measurement of `state` with the generator `rng` to draw from, and
    /// leave itself as `after` and the generator as `left`.
    open spec fn measured(
        &self,
        state: MsrIn,
        rng: rand::rngs::StdRng,
        msr: Option<Msr>,
        after: Self,
        left: rand::rngs::StdRng,
    ) -> bool {
        true
    }

    /// The name of the device.
    fn name(&self) -> (name: String)
        ensures
            self.named(name@),
    ;

    /// Takes a measurement of `state`, if the device sees it. The noise of
    /// the measurement is drawn from `rng`.
    fn measure(&mut self, state: &MsrIn, rng: &mut rand::rngs::StdRng) -> (msr: Option<Msr>)
        ensures
            old(self).measured(*state, *old(rng), msr, *final(self), *final(rng)),
    ;
}

/// The generator that `rand` makes of a seed: in the version of `rand` that
/// the library is built with, the ChaCha stream cipher with 12 rounds, its
/// key drawn from the seed by PCG32.
pub uninterp spec fn seeded_rng(seed: u64) -> rand::rngs::StdRng;

/// Calls `rand::SeedableRng::seed_from_u64` for `rand::rngs::StdRng`.
/// Assumed: the generator depends on the seed alone.
#[verifier::external_body]
pub(crate) fn rng_from_seed(seed: u64) -> (rng: rand::rngs::StdRng)
    ensures
        rng == seeded_rng(seed),
{
    <rand::rngs::StdRng as rand::SeedableRng>::seed_from_u64(seed)
}

/// `rand::Error`, the error of a source of random numbers that fails. The
/// library hands it on and sees nothing of it.
#[verifier::external_type_specification]
#[verifier::external_body]
pub struct ExRandError(rand::Error);

/// Calls `rand::SeedableRng::from_rng` for `rand::rngs::StdRng` on
/// `rand::rngs::OsRng`, which seeds a generator from the operating system, or
/// fails where the system gives no random numbers.
#[verifier::external_body]
pub(crate) fn rng_from_os() -> Result<rand::rngs::StdRng, rand::Error> {
    <rand::rngs::StdRng as rand::SeedableRng>::from_rng(rand::rngs::OsRng)
}

} // verus!
