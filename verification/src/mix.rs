//! The mixing core: from a counter and a key to a 32-bit or 64-bit value.
//!
//! The model is written over the integers. One round squares the running
//! state, adds a Weyl term derived from the key, reduces modulo `2^64` and
//! swaps the two 32-bit halves, so that the fast-changing high bits feed the
//! low bits of the next round.

use vstd::prelude::*;

verus! {

/// A key with close to as many one bits as zero bits, for callers that have
/// no key of their own.
pub const KEY: u64 = 0x5d8491e219f6537d;

/// `2^64`, the number of values of the running state.
pub open spec fn word_span() -> int {
    0x1_0000_0000_0000_0000
}

/// `2^32`, the number of values of one half of the running state.
pub open spec fn half_span() -> int {
    0x1_0000_0000
}

/// The first Weyl term: the counter times the key, modulo `2^64`.
pub open spec fn weyl_low(counter: u64, key: u64) -> int {
    (counter * key) % word_span()
}

/// The second Weyl term: the first plus the key, modulo `2^64`.
pub open spec fn weyl_high(counter: u64, key: u64) -> int {
    (weyl_low(counter, key) + key) % word_span()
}

/// `x` squared plus a Weyl term, modulo `2^64`.
#[verifier::opaque]
pub open spec fn square_add(x: int, weyl: int) -> int {
    (x * x + weyl) % word_span()
}

/// The 64-bit value `x` with its high and low 32-bit halves exchanged.
#[verifier::opaque]
pub open spec fn swap_halves(x: int) -> int {
    x / half_span() + (x % half_span()) * half_span()
}

/// One full round: square, add, swap.
pub open spec fn round(x: int, weyl: int) -> int {
    swap_halves(square_add(x, weyl))
}

/// The state after the fourth squaring, before any half is dropped. Both
/// widths are cut from it.
pub open spec fn fourth_square(counter: u64, key: u64) -> int {
    let y = weyl_low(counter, key);
    let z = weyl_high(counter, key);
    square_add(round(round(round(y, y), z), y), z)
}

/// The 32-bit output: the high half of the fourth squaring.
#[verifier::opaque]
pub open spec fn mix32(counter: u64, key: u64) -> u32 {
    (fourth_square(counter, key) / half_span()) as u32
}

/// The 64-bit output: the fourth squaring, with the high half of a fifth
/// squaring folded into its low half by exclusive or.
#[verifier::opaque]
pub open spec fn mix64(counter: u64, key: u64) -> u64 {
    let t = fourth_square(counter, key);
    let fifth = square_add(swap_halves(t), weyl_low(counter, key));
    (t as u64) ^ ((fifth / half_span()) as u64)
}

/// The running state stays a 64-bit value through every step.
pub proof fn lemma_steps_in_range(x: int, weyl: int)
    requires
        0 <= x < word_span(),
    ensures
        0 <= square_add(x, weyl) < word_span(),
        0 <= swap_halves(x) < word_span(),
        0 <= round(x, weyl) < word_span(),
        0 <= x / half_span() < half_span(),
{
    reveal(square_add);
    reveal(swap_halves);
}

/// The fourth squaring is a 64-bit value.
pub proof fn lemma_fourth_square_in_range(counter: u64, key: u64)
    ensures
        0 <= fourth_square(counter, key) < word_span(),
{
    reveal(square_add);
}

/// The two widths agree where they overlap: the high half of the 64-bit
/// output is the 32-bit output for the same counter and key. Only the low
/// half carries the extra round.
pub proof fn lemma_mix64_high_half(counter: u64, key: u64)
    ensures
        mix64(counter, key) as int / half_span() == mix32(counter, key),
{
    reveal(mix32);
    reveal(mix64);
    let t = fourth_square(counter, key);
    let fifth = square_add(swap_halves(t), weyl_low(counter, key));
    let whole: u64 = t as u64;
    let fold: u64 = (fifth / half_span()) as u64;
    lemma_fourth_square_in_range(counter, key);
    lemma_steps_in_range(t, 0);
    lemma_steps_in_range(swap_halves(t), weyl_low(counter, key));
    lemma_steps_in_range(fifth, 0);
    assert(whole == t);
    assert(fold < 0x1_0000_0000);
    assert((whole ^ fold) / 0x1_0000_0000 == whole / 0x1_0000_0000) by (bit_vector)
        requires
            fold < 0x1_0000_0000,
    ;
}

/// The key matters: under the key zero every counter mixes to zero.
pub proof fn lemma_zero_key(counter: u64)
    ensures
        mix32(counter, 0) == 0,
        mix64(counter, 0) == 0,
{
    reveal(mix32);
    reveal(mix64);
    reveal(square_add);
    reveal(swap_halves);
    assert(counter * 0 == 0) by (nonlinear_arith);
    assert(weyl_low(counter, 0) == 0 && weyl_high(counter, 0) == 0);
    assert(square_add(0, 0) == 0);
    assert(swap_halves(0) == 0);
    assert(round(0, 0) == 0);
    assert(fourth_square(counter, 0) == 0);
    assert(0u64 ^ 0u64 == 0u64) by (bit_vector);
}

/// `x` squared plus `weyl`, wrapping.
#[inline]
fn square_plus(x: u64, weyl: u64) -> (r: u64)
    ensures
        r == square_add(x as int, weyl as int),
{
    proof {
        reveal(square_add);
    }
    x.wrapping_mul(x).wrapping_add(weyl)
}

/// `x` with its halves exchanged: a rotation by 32 bits.
#[inline]
fn swapped(x: u64) -> (r: u64)
    ensures
        r == swap_halves(x as int),
{
    proof {
        reveal(swap_halves);
    }
    assert((x >> 32) | (x << 32) == x / 0x1_0000_0000 + (x % 0x1_0000_0000) * 0x1_0000_0000)
        by (bit_vector);
    (x >> 32) | (x << 32)
}

/// The high 32 bits of `x`.
#[inline]
fn high_half(x: u64) -> (r: u32)
    ensures
        r == x as int / half_span(),
{
    assert(x >> 32 == x / 0x1_0000_0000) by (bit_vector);
    assert((x >> 32) < 0x1_0000_0000) by (bit_vector);
    (x >> 32) as u32
}

/// Generates a 32-bit value from `counter` under `key`.
///
/// The counter is the whole state: increase it to get the next value. The
/// key should be an irregular bit pattern with about as many ones as zeroes.
/// The value is a function of the two arguments and of nothing else: equal
/// arguments give equal values, for every counter and every key.
#[inline]
pub fn rand32(counter: u64, key: u64) -> (value: u32)
    ensures
        value == mix32(counter, key),
{
    proof {
        reveal(mix32);
    }
    let y: u64 = counter.wrapping_mul(key);
    let z: u64 = y.wrapping_add(key);
    let mut x: u64 = y;
    x = swapped(square_plus(x, y));
    x = swapped(square_plus(x, z));
    x = swapped(square_plus(x, y));
    high_half(square_plus(x, z))
}

/// Generates a 64-bit value from `counter` under `key`, from one counter
/// step.
///
/// The value is a function of the two arguments and of nothing else: equal
/// arguments give equal values, for every counter and every key.
#[inline]
pub fn rand64(counter: u64, key: u64) -> (value: u64)
    ensures
        value == mix64(counter, key),
{
    proof {
        reveal(mix64);
    }
    let y: u64 = counter.wrapping_mul(key);
    let z: u64 = y.wrapping_add(key);
    let mut x: u64 = y;
    x = swapped(square_plus(x, y));
    x = swapped(square_plus(x, z));
    x = swapped(square_plus(x, y));
    let t: u64 = square_plus(x, z);
    x = swapped(t);
    t ^ (high_half(square_plus(x, y)) as u64)
}

} // verus!
