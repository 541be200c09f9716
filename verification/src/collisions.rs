//! When two draws yield the same word.
//!
//! Mixing is one-to-one, so two draws collide exactly when the words mixed
//! for them agree. From that follow the laws below: distinct seeds never
//! agree at a position, a stream repeats after [`PERIOD`] positions and not
//! before, and one word alone mixes to the top of the scale.

use vstd::prelude::*;
use vstd::arithmetic::div_mod::lemma_mod_multiples_vanish;
use crate::noise::{
    fold_down, fold_up, mix, noise, scaled, wrap, POSITION_FACTOR, ROUND_FACTOR, ROUND_OFFSET,
    SCALE,
};

verus! {

/// Number of positions after which a stream repeats.
pub const PERIOD: u32 = 0x4000_0000;

/// The one word that mixes to [`SCALE`].
pub const SATURATING_WORD: u32 = 0x5920_0CBF;

/// Each of the two folds is one-to-one.
proof fn lemma_folds_injective(x: u32, y: u32)
    ensures
        fold_down(x) == fold_down(y) ==> x == y,
        fold_up(x) == fold_up(y) ==> x == y,
{
    assert(x ^ (x >> 8) == y ^ (y >> 8) ==> x == y) by (bit_vector);
    assert(x ^ (x << 8) == y ^ (y << 8) ==> x == y) by (bit_vector);
}

/// Multiplying by [`ROUND_FACTOR`] modulo 2^32 is undone by multiplying by
/// its inverse modulo 2^32, which is `0xAE4E_5359`.
proof fn lemma_round_factor_invertible(x: u32)
    ensures
        wrap(wrap(x * ROUND_FACTOR) * 0xAE4E_5359) == x,
{
    assert((((x * 0x1B56_C4E9u32) % 0x1_0000_0000) * 0xAE4E_5359u32) % 0x1_0000_0000 == x)
        by (bit_vector);
}

/// Mixing is one-to-one: only equal words mix to equal words.
pub proof fn lemma_mix_injective(x: u32, y: u32)
    requires
        mix(x) == mix(y),
    ensures
        x == y,
{
    let offset_x = wrap(fold_down(x) + ROUND_OFFSET);
    let offset_y = wrap(fold_down(y) + ROUND_OFFSET);
    let product_x = wrap(fold_up(offset_x) * ROUND_FACTOR);
    let product_y = wrap(fold_up(offset_y) * ROUND_FACTOR);
    lemma_folds_injective(product_x, product_y);
    lemma_round_factor_invertible(fold_up(offset_x));
    lemma_round_factor_invertible(fold_up(offset_y));
    lemma_folds_injective(offset_x, offset_y);
    lemma_folds_injective(x, y);
}

/// Two draws collide exactly when the words that are mixed for them agree.
pub proof fn lemma_noise_collision(seed_a: u32, position_a: nat, seed_b: u32, position_b: nat)
    ensures
        noise(seed_a, position_a) == noise(seed_b, position_b) <==> scaled(seed_a, position_a)
            == scaled(seed_b, position_b),
{
    if noise(seed_a, position_a) == noise(seed_b, position_b) {
        lemma_mix_injective(scaled(seed_a, position_a), scaled(seed_b, position_b));
    }
}

/// Offsetting one integer by two words gives the same result modulo 2^32
/// only if the two words are the same.
proof fn lemma_offset_injective(base: int, a: u32, b: u32)
    requires
        wrap(base + a) == wrap(base + b),
    ensures
        a == b,
{
}

/// At any one position, distinct seeds yield distinct words.
pub proof fn lemma_noise_separates_seeds(seed_a: u32, seed_b: u32, position: nat)
    requires
        seed_a != seed_b,
    ensures
        noise(seed_a, position) != noise(seed_b, position),
{
    lemma_noise_collision(seed_a, position, seed_b, position);
    if scaled(seed_a, position) == scaled(seed_b, position) {
        lemma_offset_injective(position * POSITION_FACTOR, seed_a, seed_b);
    }
}

/// A draw yields [`SCALE`], the one sample that stands for the whole of the
/// unit interval, exactly when the word mixed for it is [`SATURATING_WORD`].
pub proof fn lemma_noise_saturates(seed: u32, position: nat)
    ensures
        noise(seed, position) == SCALE <==> scaled(seed, position) == SATURATING_WORD,
{
    assert(mix(SATURATING_WORD) == SCALE) by {
        assert(0x5920_0CBFu32 ^ (0x5920_0CBFu32 >> 8) == 0x5979_2CB3u32) by (bit_vector);
        assert(0x0EA2_A700u32 ^ (0x0EA2_A700u32 << 8) == 0xAC05_A700u32) by (bit_vector);
        assert(0xFF00_FF00u32 ^ (0xFF00_FF00u32 >> 8) == 0xFFFF_FFFFu32) by (bit_vector);
    }
    if noise(seed, position) == SCALE {
        lemma_mix_injective(scaled(seed, position), SATURATING_WORD);
    }
}

/// [`POSITION_FACTOR`] is a multiple of four, so positions one [`PERIOD`]
/// apart yield the same word.
pub proof fn lemma_noise_period(seed: u32, position: nat)
    ensures
        noise(seed, position + PERIOD as nat) == noise(seed, position),
{
    let base: int = position * POSITION_FACTOR + seed;
    let shifted: int = (position + PERIOD as nat) * POSITION_FACTOR + seed;
    // One period scales to a multiple of 2^32: 2^30 * (4 * 0x1A38_C769).
    assert(shifted == 0x1_0000_0000 * 0x1A38_C769 + base) by (nonlinear_arith)
        requires
            base == position * 0x68E3_1DA4 + seed,
            shifted == (position + 0x4000_0000) * 0x68E3_1DA4 + seed,
    ;
    lemma_mod_multiples_vanish(0x1A38_C769, base, 0x1_0000_0000);
}

/// Scaling a position modulo 2^32 depends on the position modulo [`PERIOD`] alone.
proof fn lemma_scaling_reduces(position: nat)
    ensures
        wrap(position * POSITION_FACTOR) == wrap((position % (PERIOD as nat)) * POSITION_FACTOR),
{
    let q: int = position as int / 0x4000_0000;
    let r: int = position as int % 0x4000_0000;
    assert(position * 0x68E3_1DA4 == 0x1_0000_0000 * (q * 0x1A38_C769) + r * 0x68E3_1DA4)
        by (nonlinear_arith)
        requires
            position == q * 0x4000_0000 + r,
    ;
    lemma_mod_multiples_vanish(q * 0x1A38_C769, r * 0x68E3_1DA4, 0x1_0000_0000);
}

/// Scaling a position below [`PERIOD`] is undone, up to a factor of four, by
/// multiplying by `0x8040_38D9`, the inverse modulo 2^32 of a quarter of
/// [`POSITION_FACTOR`].
proof fn lemma_scaling_invertible(position: u32)
    requires
        position < PERIOD,
    ensures
        wrap(wrap(position * POSITION_FACTOR) * 0x8040_38D9) == 4 * position,
{
    assert((((position * 0x68E3_1DA4u32) % 0x1_0000_0000) * 0x8040_38D9u32) % 0x1_0000_0000 == 4
        * position) by (bit_vector)
        requires
            position < 0x4000_0000u32,
    ;
}

/// Removing a common offset keeps two integers equal modulo 2^32.
proof fn lemma_offset_cancels(x: int, y: int, offset: u32)
    requires
        wrap(x + offset) == wrap(y + offset),
    ensures
        wrap(x) == wrap(y),
{
}

/// Within one [`PERIOD`] a stream never repeats a word: two positions yield
/// the same word only if they agree modulo the period.
pub proof fn lemma_noise_separates_positions(seed: u32, position_a: nat, position_b: nat)
    requires
        position_a % (PERIOD as nat) != position_b % (PERIOD as nat),
    ensures
        noise(seed, position_a) != noise(seed, position_b),
{
    lemma_noise_collision(seed, position_a, seed, position_b);
    if scaled(seed, position_a) == scaled(seed, position_b) {
        let a: u32 = (position_a % (PERIOD as nat)) as u32;
        let b: u32 = (position_b % (PERIOD as nat)) as u32;
        lemma_offset_cancels(position_a * POSITION_FACTOR, position_b * POSITION_FACTOR, seed);
        lemma_scaling_reduces(position_a);
        lemma_scaling_reduces(position_b);
        assert(wrap(a * POSITION_FACTOR) == wrap(b * POSITION_FACTOR));
        lemma_scaling_invertible(a);
        lemma_scaling_invertible(b);
        assert(4 * a == 4 * b);
    }
}

} // verus!
