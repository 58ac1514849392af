//! Random draws, by the ChaCha generator.
use rand::{Rng, SeedableRng};
use vstd::prelude::*;

verus! {

/// The number of 32-bit words in the stream of a ChaCha generator, after which it repeats itself.
pub open spec fn stream_length() -> nat {
    0x10_0000_0000_0000_0000
}

/// What `rand::Rng::gen_range(0..bound)` on `usize` draws from the ChaCha stream of `seed` at the
/// word `word`, on a machine whose `usize` has `bits` bits, and the word at which it leaves off.
pub uninterp spec fn chacha_range(seed: u64, word: u128, bound: usize, bits: u32) -> (usize, u128);

/// What `rand::Rng::gen` on `u8` draws from the ChaCha stream of `seed` at the word `word`.
pub uninterp spec fn chacha_byte(seed: u64, word: u128) -> u8;

/// Calls `rand::Rng::gen_range(0..bound)` on a `rand_chacha::ChaChaRng` that was made by
/// `seed_from_u64(seed)` and has been read up to the word `word`. Claimed: what is drawn lies below
/// `bound`; it and the word at which the generator then stands depend on nothing but the seed, the
/// word, the bound, and the width of `usize`, by which `rand` chooses how many words to read.
#[verifier::external_body]
fn draw_range(seed: u64, word: u128, bound: usize) -> (drawn: (usize, u128))
    requires
        bound > 0,
    ensures
        drawn.0 < bound,
        drawn == chacha_range(seed, word, bound, usize::BITS),
{
    let mut rng = rand_chacha::ChaChaRng::seed_from_u64(seed);
    rng.set_word_pos(word);
    let index = rng.gen_range(0..bound);
    (index, rng.get_word_pos())
}

/// Calls `rand::Rng::gen` for a `u8` on a `rand_chacha::ChaChaRng` that was made by
/// `seed_from_u64(seed)` and has been read up to the word `word`. Claimed: the byte depends on
/// nothing but the seed and the word, and one word of the stream is used up for it.
#[verifier::external_body]
fn draw_byte(seed: u64, word: u128) -> (drawn: (u8, u128))
    ensures
        drawn.0 == chacha_byte(seed, word),
        drawn.1 == (word + 1) % stream_length() as int,
{
    let mut rng = rand_chacha::ChaChaRng::seed_from_u64(seed);
    rng.set_word_pos(word);
    let byte = rng.gen::<u8>();
    (byte, rng.get_word_pos())
}

/// A ChaCha generator: the seed of its stream, and the word of the stream that is read next.
#[derive(Clone, Copy, Debug, PartialEq, Eq, Structural)]
pub struct Random {
    pub seed: u64,
    pub word: u128,
}

impl Random {
    /// The index below `bound` that is drawn next.
    pub open spec fn next_index(self, bound: usize) -> usize {
        chacha_range(self.seed, self.word, bound, usize::BITS).0
    }

    /// The generator once an index below `bound` has been drawn.
    pub open spec fn after_index(self, bound: usize) -> Random {
        Random { word: chacha_range(self.seed, self.word, bound, usize::BITS).1, ..self }
    }

    /// The byte that is drawn next.
    pub open spec fn next_byte(self) -> u8 {
        chacha_byte(self.seed, self.word)
    }

    /// The generator once a byte has been drawn.
    pub open spec fn after_byte(self) -> Random {
        Random { word: ((self.word + 1) % stream_length() as int) as u128, ..self }
    }

    /// A generator at the start of the stream of `seed`.
    pub fn new(seed: u64) -> (random: Self)
        ensures
            random == (Random { seed, word: 0 }),
    {
        Random { seed, word: 0 }
    }

    /// Draws an index below `bound`.
    pub fn index(&mut self, bound: usize) -> (index: usize)
        requires
            bound > 0,
        ensures
            index < bound,
            index == old(self).next_index(bound),
            *final(self) == old(self).after_index(bound),
    {
        let drawn = draw_range(self.seed, self.word, bound);
        self.word = drawn.1;
        drawn.0
    }

    /// Draws a byte.
    pub fn byte(&mut self) -> (byte: u8)
        ensures
            byte == old(self).next_byte(),
            *final(self) == old(self).after_byte(),
    {
        let drawn = draw_byte(self.seed, self.word);
        self.word = drawn.1;
        drawn.0
    }
}

} // verus!
