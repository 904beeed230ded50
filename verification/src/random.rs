//! The stream of random numbers that sampling draws from.
//!
//! A `Sampler` is handed explicitly to everything that samples. It either
//! draws from the thread-local generator of the `rand` crate or replays a
//! given list of words, which makes a rendering reproducible.

use crate::fixed::Fixed;
use crate::fixed::SCALE;
use rand::rngs::ThreadRng;
use rand::RngCore;
use vstd::prelude::*;

verus! {

/// The thread-local generator of `rand`. Nothing inside it is visible here.
#[verifier::external_type_specification]
#[verifier::external_body]
pub struct ExThreadRng(rand::rngs::ThreadRng);

/// `rand::thread_rng`: a handle to the generator of the current thread,
/// which `rand` seeds from the operating system on first use. Nothing is
/// claimed of the handle. Where the operating system gives no entropy,
/// `rand` panics.
#[verifier::external_body]
fn thread_generator() -> ThreadRng {
    rand::thread_rng()
}

/// `RngCore::next_u32` on the thread-local generator: the next random word.
/// Nothing is claimed of the word, nor of the generator afterwards. The
/// generator is seeded anew from time to time; where the operating system
/// then gives no entropy, `rand` panics.
#[verifier::external_body]
fn next_random_word(rng: &mut ThreadRng) -> u32 {
    rng.next_u32()
}

/// A source of random words.
pub enum Sampler {
    /// Draws from the thread-local random number generator.
    Entropy(ThreadRng),
    /// Replays `words` in order, starting over after the last one. An empty
    /// list replays zero.
    Replay { words: Vec<u32>, position: usize },
}

impl Sampler {
    /// Whether the sampler replays a list of words.
    pub open spec fn replays(self) -> bool {
        self is Replay
    }

    /// The word that a replaying sampler yields next.
    pub open spec fn upcoming(self) -> u32
        recommends
            self is Replay,
    {
        if self->words@.len() == 0 {
            0
        } else {
            self->words@[self->position as int % self->words@.len() as int]
        }
    }

    /// A replaying sampler after one draw.
    pub open spec fn advanced(self) -> Sampler
        recommends
            self is Replay,
    {
        Sampler::Replay {
            words: self->words,
            position: if self->words@.len() == 0 {
                0
            } else {
                ((self->position as int % self->words@.len() as int + 1) % (
                self->words@.len() as int)) as usize
            },
        }
    }

    /// The number from zero to one that a replaying sampler yields next.
    pub open spec fn upcoming_unit(self) -> Fixed
        recommends
            self is Replay,
    {
        Fixed { raw: self.upcoming() as i64 }
    }

    /// A sampler that draws from the thread-local random number generator of
    /// `rand`, which is seeded by the operating system. Where the operating
    /// system gives no entropy for the first seed, `rand` panics.
    pub fn from_entropy() -> (r: Sampler)
        ensures
            !r.replays(),
    {
        Sampler::Entropy(thread_generator())
    }

    /// A sampler that replays `words` from the first one on.
    pub fn replay(words: Vec<u32>) -> (r: Sampler)
        ensures
            r == (Sampler::Replay { words, position: 0 }),
    {
        Sampler::Replay { words, position: 0 }
    }

    /// Draws the next word. A replaying sampler yields `upcoming` and moves
    /// on by one; of a word drawn from entropy nothing is known. The
    /// generator of `rand` is seeded anew from time to time: where the
    /// operating system then gives no entropy, `rand` panics. A replaying
    /// sampler never does.
    pub fn next_word(&mut self) -> (w: u32)
        ensures
            old(self).replays() ==> w == old(self).upcoming() && *final(self) == old(
                self,
            ).advanced(),
            old(self).replays() == final(self).replays(),
    {
        match self {
            Sampler::Entropy(rng) => next_random_word(rng),
            Sampler::Replay { words, position } => {
                let n = words.len();
                if n == 0 {
                    *position = 0;
                    0
                } else {
                    let i = *position % n;
                    let w = words[i];
                    *position = (i + 1) % n;
                    w
                }
            },
        }
    }

    /// Draws a number from the interval from zero to one, one excluded: the
    /// next word as a fraction of 2^32. It panics where `next_word` does.
    pub fn next_unit(&mut self) -> (r: Fixed)
        ensures
            0 <= r.raw < SCALE,
            old(self).replays() ==> r == old(self).upcoming_unit() && *final(self) == old(
                self,
            ).advanced(),
            old(self).replays() == final(self).replays(),
    {
        let w = self.next_word();
        Fixed { raw: w as i64 }
    }
}

} // verus!
