//! From one raw draw to a value below a bound, without modulo bias.
//!
//! The raw draw is multiplied by the bound. The high half of the double-width
//! product is the candidate; the low half decides whether the candidate is
//! kept. Rejecting the draws whose low half falls under `span mod bound`
//! leaves every value below the bound with the same number of raw draws, which
//! [`lemma_sample_uniform`] proves.
//!
//! The model takes the number of raw values, `span`, as a parameter, so that
//! one set of proofs serves both widths.

use vstd::prelude::*;
use vstd::arithmetic::div_mod::{lemma_fundamental_div_mod, lemma_fundamental_div_mod_converse};
use vstd::arithmetic::power2::{
    lemma2_to64, lemma_pow2_adds, lemma_pow2_pos, lemma_pow2_strictly_increases, pow2,
};
use vstd::set_lib::{lemma_int_range, lemma_len_subset, lemma_set_disjoint_lens, set_int_range};
use crate::mix::{half_span, word_span};

verus! {

/// The high half of `raw * to`: the candidate value.
pub open spec fn product_high(raw: int, to: int, span: int) -> int {
    (raw * to) / span
}

/// The low half of `raw * to`: what the decision reads.
pub open spec fn product_low(raw: int, to: int, span: int) -> int {
    (raw * to) % span
}

/// The rejection threshold: `-to` reduced modulo `span`, then modulo `to`.
pub open spec fn threshold(to: int, span: int) -> int {
    ((-to) % span) % to
}

/// Whether the raw draw is kept.
pub open spec fn accepts(raw: int, to: int, span: int) -> bool {
    product_low(raw, to, span) >= threshold(to, span)
}

/// Whether a 32-bit raw draw is kept under a 32-bit bound.
pub open spec fn accepts32(raw: u32, to: u32) -> bool {
    accepts(raw as int, to as int, half_span())
}

/// Whether a 64-bit raw draw is kept under a 64-bit bound.
pub open spec fn accepts64(raw: u64, to: u64) -> bool {
    accepts(raw as int, to as int, word_span())
}

/// The value a kept 32-bit raw draw gives.
pub open spec fn high32(raw: u32, to: u32) -> u32 {
    product_high(raw as int, to as int, half_span()) as u32
}

/// The value a kept 64-bit raw draw gives.
pub open spec fn high64(raw: u64, to: u64) -> u64 {
    product_high(raw as int, to as int, word_span()) as u64
}

/// The outcome of one 32-bit raw draw: its value, or `None` for "draw again".
pub open spec fn sample32(raw: u32, to: u32) -> Option<u32> {
    if accepts32(raw, to) {
        Some(high32(raw, to))
    } else {
        None
    }
}

/// The outcome of one 64-bit raw draw: its value, or `None` for "draw again".
pub open spec fn sample64(raw: u64, to: u64) -> Option<u64> {
    if accepts64(raw, to) {
        Some(high64(raw, to))
    } else {
        None
    }
}

/// `n` is `2^k` for some `k`.
pub open spec fn is_power_of_two(n: int) -> bool {
    exists|k: nat| n == #[trigger] pow2(k)
}

/// The threshold is what is left of `span` after taking out whole multiples
/// of the bound, so it lies below the bound.
pub proof fn lemma_threshold(to: int, span: int)
    requires
        0 < to <= span,
    ensures
        threshold(to, span) == span % to,
        0 <= threshold(to, span) < to,
{
    if to == span {
        assert((-to) % span == 0) by (nonlinear_arith)
            requires
                to == span,
                0 < span,
        ;
        assert(span % to == 0) by (nonlinear_arith)
            requires
                to == span,
                0 < span,
        ;
    } else {
        assert((-to) % span == span - to) by (nonlinear_arith)
            requires
                0 < to < span,
        ;
        assert((span - to) % to == span % to) by (nonlinear_arith)
            requires
                0 < to < span,
        ;
    }
}

/// Every candidate lies below the bound, kept or not.
pub proof fn lemma_candidate_below_bound(raw: int, to: int, span: int)
    requires
        0 <= raw < span,
        0 < to,
    ensures
        0 <= product_high(raw, to, span) < to,
{
    assert(0 <= (raw * to) / span < to) by (nonlinear_arith)
        requires
            0 <= raw < span,
            0 < to,
    ;
}

/// A low half that reaches the bound is over the threshold: the common case
/// is decided without a division.
pub proof fn lemma_low_over_bound_accepts(raw: int, to: int, span: int)
    requires
        0 < to <= span,
        product_low(raw, to, span) >= to,
    ensures
        accepts(raw, to, span),
{
    lemma_threshold(to, span);
}

/// A bound that divides `span` rejects nothing.
pub proof fn lemma_divisor_accepts_all(raw: int, to: int, span: int)
    requires
        0 < to <= span,
        span % to == 0,
    ensures
        accepts(raw, to, span),
{
    lemma_threshold(to, span);
    assert((raw * to) % span >= 0) by (nonlinear_arith)
        requires
            0 < span,
    ;
}

/// A power of two no larger than `2^e` divides `2^e`.
proof fn lemma_power_of_two_divides(to: int, e: nat)
    requires
        is_power_of_two(to),
        to <= pow2(e),
    ensures
        0 < to,
        pow2(e) as int % to == 0,
{
    let k = choose|k: nat| to == #[trigger] pow2(k);
    lemma_pow2_pos(k);
    if k > e {
        lemma_pow2_strictly_increases(e, k);
    }
    let rest = (e - k) as nat;
    lemma_pow2_adds(k, rest);
    let q = pow2(rest) as int;
    assert((to * q) % to == 0) by (nonlinear_arith)
        requires
            to > 0,
    ;
}

/// Whether the 32-bit bound `to` divides `2^32`: the bounds that reject no
/// raw draw.
pub open spec fn divides_span32(to: u32) -> bool {
    to > 0 && half_span() % (to as int) == 0
}

/// Whether the 64-bit bound `to` divides `2^64`: the bounds that reject no
/// raw draw.
pub open spec fn divides_span64(to: u64) -> bool {
    to > 0 && word_span() % (to as int) == 0
}

/// A 32-bit bound that divides `2^32` keeps every raw draw.
pub proof fn lemma_divisor_accepts32(raw: u32, to: u32)
    requires
        divides_span32(to),
    ensures
        accepts32(raw, to),
{
    lemma_divisor_accepts_all(raw as int, to as int, half_span());
}

/// A 64-bit bound that divides `2^64` keeps every raw draw.
pub proof fn lemma_divisor_accepts64(raw: u64, to: u64)
    requires
        divides_span64(to),
    ensures
        accepts64(raw, to),
{
    lemma_divisor_accepts_all(raw as int, to as int, word_span());
}

/// A 32-bit bound that is a power of two divides `2^32`, and so keeps every
/// raw draw.
pub proof fn lemma_power_of_two_accepts32(raw: u32, to: u32)
    requires
        is_power_of_two(to as int),
    ensures
        divides_span32(to),
        accepts32(raw, to),
{
    lemma2_to64();
    lemma_power_of_two_divides(to as int, 32);
    lemma_divisor_accepts32(raw, to);
}

/// A 64-bit bound that is a power of two divides `2^64`, and so keeps every
/// raw draw.
pub proof fn lemma_power_of_two_accepts64(raw: u64, to: u64)
    requires
        is_power_of_two(to as int),
    ensures
        divides_span64(to),
        accepts64(raw, to),
{
    lemma2_to64();
    lemma_power_of_two_divides(to as int, 64);
    lemma_divisor_accepts64(raw, to);
}

/// The raw draws below `span` that are kept and give `value`.
pub open spec fn kept_raws(value: int, to: int, span: int) -> Set<int> {
    Set::new(
        |raw: int|
            0 <= raw < span && accepts(raw, to, span) && product_high(raw, to, span) == value,
    )
}

/// The least raw draw that is kept and gives `value`: the first whose product
/// with the bound reaches `value * span + threshold`.
pub open spec fn first_raw_for(value: int, to: int, span: int) -> int {
    (value * span + threshold(to, span) + to - 1) / to
}

/// For a positive `to`, `raw * to` reaches `low` exactly when `raw` reaches
/// `low / to` rounded up.
proof fn lemma_multiple_reaches(raw: int, to: int, low: int)
    requires
        to > 0,
    ensures
        raw * to >= low <==> raw >= (low + to - 1) / to,
{
    let a = (low + to - 1) / to;
    lemma_fundamental_div_mod(low + to - 1, to);
    assert(to * a == a * to) by (nonlinear_arith);
    if raw >= a {
        assert(raw * to >= a * to) by (nonlinear_arith)
            requires
                raw >= a,
                to > 0,
        ;
    } else {
        assert(raw * to <= a * to - to) by (nonlinear_arith)
            requires
                raw <= a - 1,
                to > 0,
        ;
    }
}

/// A raw draw is kept and gives `value` exactly when its product with the
/// bound falls in the upper part of the `value`-th stretch of length `span`:
/// from `value * span + threshold` up to, not including, `(value + 1) * span`.
proof fn lemma_kept_window(raw: int, value: int, to: int, span: int)
    requires
        0 < to <= span,
    ensures
        accepts(raw, to, span) && product_high(raw, to, span) == value <==> value * span
            + threshold(to, span) <= raw * to < value * span + span,
{
    let p = raw * to;
    lemma_threshold(to, span);
    lemma_fundamental_div_mod(p, span);
    assert(span * (p / span) == (p / span) * span) by (nonlinear_arith);
    if value * span + threshold(to, span) <= p < value * span + span {
        lemma_fundamental_div_mod_converse(p, span, value, p - value * span);
    }
}

/// No modulo bias: every value below the bound is given by the same number
/// of raw draws, `span / to` of them, and they lie in one run. The
/// `span % to` raw draws that would tip the balance are the ones the
/// threshold rejects.
pub proof fn lemma_sample_uniform(value: int, to: int, span: int)
    requires
        0 < to <= span,
        0 <= value < to,
    ensures
        kept_raws(value, to, span) == set_int_range(
            first_raw_for(value, to, span),
            first_raw_for(value, to, span) + span / to,
        ),
        kept_raws(value, to, span).finite(),
        kept_raws(value, to, span).len() == span / to,
{
    let t = threshold(to, span);
    let q = span / to;
    let low = value * span + t;
    let a = first_raw_for(value, to, span);
    lemma_threshold(to, span);
    lemma_fundamental_div_mod(span, to);
    assert(q >= 0) by (nonlinear_arith)
        requires
            q == span / to,
            0 < to <= span,
    ;
    assert(low >= 0) by (nonlinear_arith)
        requires
            low == value * span + t,
            value >= 0,
            span > 0,
            t >= 0,
    ;
    assert(value * span + span <= to * span) by (nonlinear_arith)
        requires
            0 <= value < to,
            span > 0,
    ;
    assert forall|raw: int|
        kept_raws(value, to, span).contains(raw) <==> set_int_range(a, a + q).contains(
            raw,
        ) by {
        lemma_kept_window(raw, value, to, span);
        lemma_multiple_reaches(raw, to, low);
        lemma_multiple_reaches(raw - q, to, low);
        assert((raw - q) * to == raw * to - to * q) by (nonlinear_arith);
        if low <= raw * to < value * span + span {
            assert(0 <= raw < span) by (nonlinear_arith)
                requires
                    0 <= low <= raw * to,
                    raw * to < to * span,
                    to > 0,
            ;
        }
    }
    assert(kept_raws(value, to, span) =~= set_int_range(a, a + q));
    lemma_int_range(a, a + q);
}

/// The raw draws below `span` that are kept and give a value below `below`.
pub open spec fn kept_raws_below(below: int, to: int, span: int) -> Set<int> {
    Set::new(
        |raw: int|
            0 <= raw < span && accepts(raw, to, span) && product_high(raw, to, span) < below,
    )
}

/// The raw draws below `span` that are rejected.
pub open spec fn rejected_raws(to: int, span: int) -> Set<int> {
    Set::new(|raw: int| 0 <= raw < span && !accepts(raw, to, span))
}

/// The values below `below` share `below * (span / to)` kept raw draws.
proof fn lemma_kept_below_count(below: int, to: int, span: int)
    requires
        0 < to <= span,
        0 <= below <= to,
    ensures
        kept_raws_below(below, to, span).finite(),
        kept_raws_below(below, to, span).len() == below * (span / to),
    decreases below,
{
    if below == 0 {
        assert forall|raw: int| !kept_raws_below(0, to, span).contains(raw) by {
            if 0 <= raw < span {
                lemma_candidate_below_bound(raw, to, span);
            }
        }
        assert(kept_raws_below(0, to, span) =~= Set::empty());
    } else {
        let rest = kept_raws_below(below - 1, to, span);
        let last = kept_raws(below - 1, to, span);
        lemma_kept_below_count(below - 1, to, span);
        lemma_sample_uniform(below - 1, to, span);
        assert(kept_raws_below(below, to, span) =~= rest + last);
        assert(rest.disjoint(last));
        lemma_set_disjoint_lens(rest, last);
        assert(below * (span / to) == (below - 1) * (span / to) + span / to)
            by (nonlinear_arith);
    }
}

/// Exactly `span % to` raw draws are rejected, fewer than the bound: a retry
/// is the rarer the smaller the bound is against `span`.
pub proof fn lemma_rejected_count(to: int, span: int)
    requires
        0 < to <= span,
    ensures
        rejected_raws(to, span).finite(),
        rejected_raws(to, span).len() == span % to,
        rejected_raws(to, span).len() < to,
{
    let all = set_int_range(0, span);
    let kept = kept_raws_below(to, to, span);
    let rejected = rejected_raws(to, span);
    lemma_int_range(0, span);
    lemma_kept_below_count(to, to, span);
    lemma_len_subset(rejected, all);
    assert forall|raw: int| all.contains(raw) <==> (kept + rejected).contains(raw) by {
        if 0 <= raw < span {
            lemma_candidate_below_bound(raw, to, span);
        }
    }
    assert(all =~= kept + rejected);
    assert(kept.disjoint(rejected));
    lemma_set_disjoint_lens(kept, rejected);
    lemma_fundamental_div_mod(span, to);
}

/// The high 32 bits of the 64-bit product of `a` and `b`.
#[inline]
pub fn mul_high_u32(a: u32, b: u32) -> (r: u32)
    ensures
        r == product_high(a as int, b as int, half_span()),
{
    assert(a * b <= 0xffff_ffff * 0xffff_ffff) by (nonlinear_arith)
        requires
            a <= 0xffff_ffff,
            b <= 0xffff_ffff,
    ;
    let wide: u64 = (a as u64) * (b as u64);
    assert(wide >> 32 == wide / 0x1_0000_0000) by (bit_vector);
    assert((wide >> 32) < 0x1_0000_0000) by (bit_vector);
    (wide >> 32) as u32
}

/// The high 64 bits of the 128-bit product of `a` and `b`.
#[inline]
pub fn mul_high_u64(a: u64, b: u64) -> (r: u64)
    ensures
        r == product_high(a as int, b as int, word_span()),
{
    assert(a * b <= 0xffff_ffff_ffff_ffff * 0xffff_ffff_ffff_ffff) by (nonlinear_arith)
        requires
            a <= 0xffff_ffff_ffff_ffff,
            b <= 0xffff_ffff_ffff_ffff,
    ;
    let wide: u128 = (a as u128) * (b as u128);
    assert(wide >> 64 == wide / 0x1_0000_0000_0000_0000) by (bit_vector);
    assert((wide >> 64) < 0x1_0000_0000_0000_0000) by (bit_vector);
    (wide >> 64) as u64
}

/// Decides one 32-bit raw draw against the bound `to`: `Some` of a value
/// below `to` when the draw is kept, `None` when another draw is needed.
///
/// The bound must be positive: there is no value below zero to give.
#[inline]
pub fn bounded_from_raw32(raw: u32, to: u32) -> (r: Option<u32>)
    requires
        to > 0,
    ensures
        r == sample32(raw, to),
        r matches Some(v) ==> v < to,
{
    let hi: u32 = mul_high_u32(raw, to);
    let lo: u32 = raw.wrapping_mul(to);
    proof {
        lemma_threshold(to as int, half_span());
        lemma_candidate_below_bound(raw as int, to as int, half_span());
        if lo >= to {
            lemma_low_over_bound_accepts(raw as int, to as int, half_span());
        }
    }
    if lo >= to || lo >= 0u32.wrapping_sub(to) % to {
        Some(hi)
    } else {
        None
    }
}

/// Decides one 64-bit raw draw against the bound `to`: `Some` of a value
/// below `to` when the draw is kept, `None` when another draw is needed.
///
/// The bound must be positive: there is no value below zero to give.
#[inline]
pub fn bounded_from_raw64(raw: u64, to: u64) -> (r: Option<u64>)
    requires
        to > 0,
    ensures
        r == sample64(raw, to),
        r matches Some(v) ==> v < to,
{
    let hi: u64 = mul_high_u64(raw, to);
    let lo: u64 = raw.wrapping_mul(to);
    proof {
        lemma_threshold(to as int, word_span());
        lemma_candidate_below_bound(raw as int, to as int, word_span());
        if lo >= to {
            lemma_low_over_bound_accepts(raw as int, to as int, word_span());
        }
    }
    if lo >= to || lo >= 0u64.wrapping_sub(to) % to {
        Some(hi)
    } else {
        None
    }
}

} // verus!
