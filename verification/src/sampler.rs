//! The source of the uniform draws that sampling consumes.

use crate::fixed::{Fixed, SCALE};
use rand::rngs::StdRng;
use rand::RngCore;
use rand::SeedableRng;
use vstd::prelude::*;

verus! {

/// Makes `rand::rngs::StdRng` known as a type whose inside is not looked
/// into.
#[verifier::external_type_specification]
#[verifier::external_body]
pub struct ExStdRng(StdRng);

/// Draws one word from the generator of the current thread.
///
/// Calls `rand::random::<u64>()`. Nothing is claimed of the word.
#[verifier::external_body]
fn ambient_word() -> (w: u64) {
    rand::random::<u64>()
}

/// Builds a generator from a seed.
///
/// Calls `StdRng::seed_from_u64`. Nothing is claimed of the generator.
#[verifier::external_body]
fn seeded_generator(seed: u64) -> (g: StdRng) {
    StdRng::seed_from_u64(seed)
}

/// Draws the next word of a generator.
///
/// Calls `RngCore::next_u64` on it. Nothing is claimed of the word, nor of the
/// generator afterwards.
#[verifier::external_body]
fn generator_word(generator: &mut StdRng) -> (w: u64) {
    generator.next_u64()
}

/// The fraction in `[0, 1)` that a word stands for: its last nine decimal
/// digits, read as billionths.
pub open spec fn unit_of_word_spec(w: u64) -> Fixed {
    Fixed::of(w as int % SCALE as int)
}

/// Clamps a number into `[0, 1)`.
pub open spec fn unit_clamp_spec(c: Fixed) -> Fixed {
    if c@ < 0 {
        Fixed::of(0)
    } else if c@ >= SCALE {
        Fixed::of(SCALE - 1)
    } else {
        Fixed::of(c@)
    }
}

/// Turns a word into a fraction in `[0, 1)`.
pub fn unit_of_word(w: u64) -> (u: Fixed)
    ensures
        u == unit_of_word_spec(w),
        0 <= u@ < SCALE,
{
    Fixed::from_raw((w % 1_000_000_000) as i64)
}

/// Clamps a number into `[0, 1)`.
pub fn unit_clamp(c: Fixed) -> (u: Fixed)
    ensures
        u == unit_clamp_spec(c),
        0 <= u@ < SCALE,
{
    if c.lt(Fixed::zero()) {
        Fixed::zero()
    } else if c.lt(Fixed::one()) {
        Fixed::from_raw(c.to_raw())
    } else {
        Fixed::from_raw(SCALE - 1)
    }
}

/// Where uniform draws come from.
pub enum Sampler {
    /// The generator of the current thread.
    Ambient,
    /// A generator built from a seed.
    Seeded(StdRng),
    /// No generator: every draw is the same fraction.
    Constant(Fixed),
}

impl Sampler {
    /// The fraction that every draw returns, if the sampler is pinned to one.
    pub open spec fn pinned(&self) -> Option<Fixed> {
        match self {
            Sampler::Constant(c) => Some(unit_clamp_spec(*c)),
            _ => None,
        }
    }

    /// A sampler that draws from the generator of the current thread.
    pub fn ambient() -> (s: Sampler)
        ensures
            s is Ambient,
            s.pinned().is_none(),
    {
        Sampler::Ambient
    }

    /// A sampler that draws from a generator built from `seed`. Which
    /// generator a seed gives is left to the call that builds it.
    pub fn seeded(seed: u64) -> (s: Sampler)
        ensures
            s is Seeded,
            s.pinned().is_none(),
    {
        Sampler::Seeded(seeded_generator(seed))
    }

    /// A sampler whose every draw is `c`, clamped into `[0, 1)`.
    pub fn constant(c: Fixed) -> (s: Sampler)
        ensures
            s.pinned() == Some(unit_clamp_spec(c)),
    {
        Sampler::Constant(c)
    }

    /// Draws a fraction in `[0, 1)`.
    pub fn next_unit(&mut self) -> (u: Fixed)
        ensures
            0 <= u@ < SCALE,
            *old(self) is Ambient ==> *final(self) is Ambient,
            *old(self) is Seeded ==> *final(self) is Seeded,
            *old(self) is Constant ==> *final(self) == *old(self),
            final(self).pinned() == old(self).pinned(),
            old(self).pinned() matches Some(c) ==> u == c,
    {
        match self {
            Sampler::Ambient => unit_of_word(ambient_word()),
            Sampler::Seeded(generator) => unit_of_word(generator_word(generator)),
            Sampler::Constant(c) => unit_clamp(*c),
        }
    }
}

} // verus!
