//! The position hash behind the generator.

use vstd::prelude::*;
use vstd::wrapping::u32_specs;

verus! {

/// Factor by which the position is multiplied before the seed is added.
pub const POSITION_FACTOR: u32 = 0x68E3_1DA4;

/// Offset added between the first and the second mixing round.
pub const ROUND_OFFSET: u32 = 0xB529_7A4D;

/// Factor applied between the second and the third mixing round.
pub const ROUND_FACTOR: u32 = 0x1B56_C4E9;

/// The largest word a sample can be. A sample `w` stands for the fraction
/// `w / SCALE` of the unit interval.
pub const SCALE: u32 = 0xFFFF_FFFF;

/// Reduction of an integer modulo 2^32.
pub open spec fn wrap(x: int) -> u32 {
    (x % 0x1_0000_0000) as u32
}

/// Mixes the high bits of a word into its low bits.
pub open spec fn fold_down(x: u32) -> u32 {
    x ^ (x >> 8)
}

/// Mixes the low bits of a word into its high bits; bits shifted past the top are lost.
pub open spec fn fold_up(x: u32) -> u32 {
    x ^ (x << 8)
}

/// The word that is mixed for `seed` at `position`: the position, scaled and
/// offset by the seed, modulo 2^32.
pub open spec fn scaled(seed: u32, position: nat) -> u32 {
    wrap(position * POSITION_FACTOR + seed)
}

/// Three mixing rounds, with an addition and a multiplication modulo 2^32 in between.
pub open spec fn mix(x: u32) -> u32 {
    let first = fold_down(x);
    let second = fold_up(wrap(first + ROUND_OFFSET));
    fold_down(wrap(second * ROUND_FACTOR))
}

/// The word that a generator seeded with `seed` yields at `position`.
pub open spec fn noise(seed: u32, position: nat) -> u32 {
    mix(scaled(seed, position))
}

/// Wrapping multiplication of two words is multiplication modulo 2^32.
proof fn lemma_wrapping_mul(x: u32, y: u32)
    ensures
        u32_specs::wrapping_mul(x, y) == wrap(x * y),
{
    assert(x as nat * y as nat == x * y) by (nonlinear_arith);
}

/// Adding a word to an already reduced integer and wrapping is addition modulo 2^32.
proof fn lemma_wrapping_add(x: int, y: u32)
    ensures
        u32_specs::wrapping_add(wrap(x), y) == wrap(x + y),
{
}

/// Computes [`noise`] for a position that fits in 32 bits.
pub fn noise_at(seed: u32, position: u32) -> (word: u32)
    ensures
        word == noise(seed, position as nat),
{
    let product: u32 = position.wrapping_mul(POSITION_FACTOR);
    let scaled: u32 = product.wrapping_add(seed);
    proof {
        lemma_wrapping_mul(position, POSITION_FACTOR);
        lemma_wrapping_add(position * POSITION_FACTOR, seed);
    }
    let first: u32 = scaled ^ (scaled >> 8);
    let offset: u32 = first.wrapping_add(ROUND_OFFSET);
    let second: u32 = offset ^ (offset << 8);
    let scrambled: u32 = second.wrapping_mul(ROUND_FACTOR);
    proof {
        lemma_wrapping_mul(second, ROUND_FACTOR);
    }
    scrambled ^ (scrambled >> 8)
}

} // verus!
