//! The generator: a counter that advances by one per raw draw, and a key
//! that never changes.
//!
//! Every operation is specified as a transition of [`State`], the pair that a
//! generator stands for. A raw draw mixes the counter it finds and leaves the
//! counter one further, wrapping at `2^64`. A bounded draw repeats raw draws
//! until the sampler keeps one.

use vstd::prelude::*;
use crate::bounded::{
    accepts32, accepts64, bounded_from_raw32, bounded_from_raw64, high32, high64,
    is_power_of_two, lemma_power_of_two_accepts32, lemma_power_of_two_accepts64,
    lemma_threshold,
};
use crate::mix::{half_span, lemma_zero_key, mix32, mix64, rand32, rand64, word_span, KEY};

verus! {

/// Whether `n` satisfies `p` and nothing below `n` does.
pub open spec fn is_first(p: spec_fn(nat) -> bool, n: nat) -> bool {
    p(n) && forall|i: nat| i < n ==> !#[trigger] p(i)
}

/// The least number that satisfies `p`, where one does.
pub open spec fn first(p: spec_fn(nat) -> bool) -> nat {
    choose|n: nat| is_first(p, n)
}

/// Where some number satisfies `p`, `first(p)` is the least such number.
pub proof fn lemma_first(p: spec_fn(nat) -> bool, n: nat)
    requires
        p(n),
    ensures
        is_first(p, first(p)),
        first(p) <= n,
    decreases n,
{
    if is_first(p, n) {
    } else {
        let i = choose|i: nat| i < n && #[trigger] p(i);
        lemma_first(p, i);
    }
}

/// Only one number can be the first.
pub proof fn lemma_first_unique(p: spec_fn(nat) -> bool, n: nat)
    requires
        is_first(p, n),
    ensures
        first(p) == n,
{
    lemma_first(p, n);
}

/// What a generator stands for: the counter its next raw draw will consume,
/// and its key.
pub struct State {
    pub counter: u64,
    pub key: u64,
}

impl State {
    /// The state `n` raw draws later. The counter wraps at `2^64`.
    pub open spec fn skip(self, n: nat) -> State {
        State { counter: ((self.counter + n) % word_span()) as u64, key: self.key }
    }

    /// The state with its counter replaced.
    pub open spec fn reset(self, counter: u64) -> State {
        State { counter, key: self.key }
    }

    /// The 32-bit value that the next raw draw gives.
    pub open spec fn raw32(self) -> u32 {
        mix32(self.counter, self.key)
    }

    /// The 64-bit value that the next raw draw gives.
    pub open spec fn raw64(self) -> u64 {
        mix64(self.counter, self.key)
    }

    /// Whether the sampler keeps the 32-bit raw draw made `n` draws from
    /// here, under the bound `to`.
    pub open spec fn keeps32(self, to: u32, n: nat) -> bool {
        accepts32(self.skip(n).raw32(), to)
    }

    /// Whether the sampler keeps the 64-bit raw draw made `n` draws from
    /// here, under the bound `to`.
    pub open spec fn keeps64(self, to: u64, n: nat) -> bool {
        accepts64(self.skip(n).raw64(), to)
    }

    /// `keeps32` as a predicate on the number of draws.
    pub open spec fn kept32(self, to: u32) -> spec_fn(nat) -> bool {
        |n: nat| self.keeps32(to, n)
    }

    /// `keeps64` as a predicate on the number of draws.
    pub open spec fn kept64(self, to: u64) -> spec_fn(nat) -> bool {
        |n: nat| self.keeps64(to, n)
    }

    /// Whether a 32-bit bounded draw from here comes to an end: some raw draw
    /// from here on is kept.
    pub open spec fn settles32(self, to: u32) -> bool {
        exists|n: nat| self.keeps32(to, n)
    }

    /// Whether a 64-bit bounded draw from here comes to an end: some raw draw
    /// from here on is kept.
    pub open spec fn settles64(self, to: u64) -> bool {
        exists|n: nat| self.keeps64(to, n)
    }

    /// How many 32-bit raw draws a bounded draw from here rejects before it
    /// keeps one.
    pub open spec fn rejections32(self, to: u32) -> nat {
        first(self.kept32(to))
    }

    /// How many 64-bit raw draws a bounded draw from here rejects before it
    /// keeps one.
    pub open spec fn rejections64(self, to: u64) -> nat {
        first(self.kept64(to))
    }

    /// The value of a 32-bit bounded draw from here: the candidate of the
    /// first raw draw that is kept.
    pub open spec fn bounded32(self, to: u32) -> u32 {
        high32(self.skip(self.rejections32(to)).raw32(), to)
    }

    /// The value of a 64-bit bounded draw from here: the candidate of the
    /// first raw draw that is kept.
    pub open spec fn bounded64(self, to: u64) -> u64 {
        high64(self.skip(self.rejections64(to)).raw64(), to)
    }
}

/// Skipping in two steps is skipping once by the sum.
pub proof fn lemma_skip_adds(s: State, a: nat, b: nat)
    ensures
        s.skip(a).skip(b) == s.skip(a + b),
        s.skip(0) == s,
{
}

/// The key is fixed for a generator's whole life: no draw and no reset
/// changes it.
pub proof fn lemma_key_is_fixed(s: State, n: nat, counter: u64)
    ensures
        s.skip(n).key == s.key,
        s.reset(counter).key == s.key,
{
}

/// After the counter is set to `counter`, the next raw draw consumes exactly
/// `counter`: it mixes `counter` under the unchanged key, and leaves the
/// counter at `counter + 1`, wrapped.
pub proof fn lemma_reset_then_draw(s: State, counter: u64)
    ensures
        s.reset(counter).counter == counter,
        s.reset(counter).raw32() == mix32(counter, s.key),
        s.reset(counter).raw64() == mix64(counter, s.key),
        s.reset(counter).skip(1) == (State {
            counter: if counter == u64::MAX { 0 } else { (counter + 1) as u64 },
            key: s.key,
        }),
{
}

/// No two raw draws of one generator consume the same counter, short of a
/// full trip round the 64-bit counter: the draws made `i` and `j` draws from
/// any state find different counters whenever `i` and `j` differ by less than
/// `2^64`.
pub proof fn lemma_draws_distinct(s: State, i: nat, j: nat)
    requires
        i < j < i + word_span(),
    ensures
        s.skip(i).counter != s.skip(j).counter,
{
    let a = s.counter + i;
    let b = s.counter + j;
    assert(a % word_span() != b % word_span()) by (nonlinear_arith)
        requires
            a < b < a + word_span(),
            word_span() == 0x1_0000_0000_0000_0000,
    ;
}

/// Under a bound that is a power of two a 32-bit bounded draw never retries:
/// it comes to an end from every state, after rejecting nothing.
pub proof fn lemma_power_of_two_draws_once32(s: State, to: u32)
    requires
        is_power_of_two(to as int),
    ensures
        s.settles32(to),
        s.rejections32(to) == 0,
{
    lemma_power_of_two_accepts32(s.skip(0).raw32(), to);
    assert(s.keeps32(to, 0));
    assert(s.kept32(to)(0));
    lemma_first_unique(s.kept32(to), 0);
}

/// Under a bound that is a power of two a 64-bit bounded draw never retries:
/// it comes to an end from every state, after rejecting nothing.
pub proof fn lemma_power_of_two_draws_once64(s: State, to: u64)
    requires
        is_power_of_two(to as int),
    ensures
        s.settles64(to),
        s.rejections64(to) == 0,
{
    lemma_power_of_two_accepts64(s.skip(0).raw64(), to);
    assert(s.keeps64(to, 0));
    assert(s.kept64(to)(0));
    lemma_first_unique(s.kept64(to), 0);
}

/// Why a bounded draw asks that it settles: under the key zero every raw draw
/// is zero, which a bound that does not divide `2^32` rejects, so that no
/// 32-bit bounded draw under such a bound ever comes to an end.
pub proof fn lemma_zero_key_never_settles32(s: State, to: u32)
    requires
        s.key == 0,
        to > 0,
        half_span() % (to as int) != 0,
    ensures
        !s.settles32(to),
{
    lemma_threshold(to as int, half_span());
    assert forall|n: nat| !s.keeps32(to, n) by {
        lemma_zero_key(s.skip(n).counter);
    }
}

/// Why a bounded draw asks that it settles: under the key zero every raw draw
/// is zero, which a bound that does not divide `2^64` rejects, so that no
/// 64-bit bounded draw under such a bound ever comes to an end.
pub proof fn lemma_zero_key_never_settles64(s: State, to: u64)
    requires
        s.key == 0,
        to > 0,
        word_span() % (to as int) != 0,
    ensures
        !s.settles64(to),
{
    lemma_threshold(to as int, word_span());
    assert forall|n: nat| !s.keeps64(to, n) by {
        lemma_zero_key(s.skip(n).counter);
    }
}

/// A 32-bit bounded draw that comes to an end rejects as many raw draws as
/// lie before the first one kept; where the very first raw draw is
/// rejected, that is at least one, so the counter ends more than one
/// further.
pub proof fn lemma_rejections32(s: State, to: u32)
    requires
        s.settles32(to),
    ensures
        s.keeps32(to, s.rejections32(to)),
        forall|i: nat| i < s.rejections32(to) ==> !s.keeps32(to, i),
        !s.keeps32(to, 0) ==> s.rejections32(to) >= 1,
{
    let n = choose|n: nat| s.keeps32(to, n);
    assert(s.kept32(to)(n));
    lemma_first(s.kept32(to), n);
    assert forall|i: nat| i < s.rejections32(to) implies !s.keeps32(to, i) by {
        assert(!s.kept32(to)(i));
    }
}

/// A 64-bit bounded draw that comes to an end rejects as many raw draws as
/// lie before the first one kept; where the very first raw draw is
/// rejected, that is at least one, so the counter ends more than one
/// further.
pub proof fn lemma_rejections64(s: State, to: u64)
    requires
        s.settles64(to),
    ensures
        s.keeps64(to, s.rejections64(to)),
        forall|i: nat| i < s.rejections64(to) ==> !s.keeps64(to, i),
        !s.keeps64(to, 0) ==> s.rejections64(to) >= 1,
{
    let n = choose|n: nat| s.keeps64(to, n);
    assert(s.kept64(to)(n));
    lemma_first(s.kept64(to), n);
    assert forall|i: nat| i < s.rejections64(to) implies !s.keeps64(to, i) by {
        assert(!s.kept64(to)(i));
    }
}

/// A generated value together with the counter that it was generated from.
/// Mixing `counter` under the generator's key gives `value` again.
pub struct RandRes<T> {
    /// The counter that the draw consumed.
    pub counter: u64,
    /// The value generated from `counter`.
    pub value: T,
}

/// The stateful generator: it keeps the counter, advances it on each raw
/// draw, and mixes under one key for its whole life.
///
/// Drawing takes `&mut self`: exclusive access is what makes "the counter
/// found" and "the counter left" well defined, and it is what keeps two draws
/// from ever consuming the same counter. To draw from several threads at
/// once, use [`crate::shared::SharedRand`].
#[derive(Debug)]
pub struct Rand {
    counter: u64,
    key: u64,
}

impl View for Rand {
    type V = State;

    closed spec fn view(&self) -> State {
        State { counter: self.counter, key: self.key }
    }
}

impl Rand {
    /// Creates a generator with the given key, its counter at zero.
    #[inline]
    pub fn new(key: u64) -> (rand: Self)
        ensures
            rand@ == (State { counter: 0, key }),
    {
        Self::with_counter(0, key)
    }

    /// Creates a generator with the given key and initial counter.
    #[inline]
    pub fn with_counter(counter: u64, key: u64) -> (rand: Self)
        ensures
            rand@ == (State { counter, key }),
    {
        Self { counter, key }
    }

    /// Sets the counter and returns the one it replaces. Any value is
    /// accepted; the next raw draw consumes it.
    #[inline]
    pub fn set_counter(&mut self, counter: u64) -> (previous: u64)
        ensures
            previous == old(self)@.counter,
            final(self)@ == old(self)@.reset(counter),
    {
        let previous: u64 = self.counter;
        self.counter = counter;
        previous
    }

    /// The counter that the next raw draw will consume.
    #[inline]
    pub fn counter(&self) -> (counter: u64)
        ensures
            counter == self@.counter,
    {
        self.counter
    }

    /// Takes the current counter and leaves the next one in its place.
    #[inline]
    fn advance(&mut self) -> (taken: u64)
        ensures
            taken == old(self)@.counter,
            final(self)@ == old(self)@.skip(1),
    {
        let taken: u64 = self.counter;
        self.counter = taken.wrapping_add(1);
        taken
    }

    /// Generates a 32-bit value and reports the counter it came from.
    #[inline]
    pub fn next_full_u32(&mut self) -> (res: RandRes<u32>)
        ensures
            res.counter == old(self)@.counter,
            res.value == old(self)@.raw32(),
            res.value == mix32(res.counter, old(self)@.key),
            final(self)@ == old(self)@.skip(1),
    {
        let counter: u64 = self.advance();
        RandRes { counter, value: rand32(counter, self.key) }
    }

    /// Generates a 32-bit value.
    #[inline]
    pub fn next_u32(&mut self) -> (value: u32)
        ensures
            value == old(self)@.raw32(),
            final(self)@ == old(self)@.skip(1),
    {
        let counter: u64 = self.advance();
        rand32(counter, self.key)
    }

    /// Generates a 32-bit value in `0..to`, each value as likely as any
    /// other.
    ///
    /// Raw draws are made until the sampler keeps one, so the counter may
    /// advance by more than one: by the number of rejected draws, plus one.
    ///
    /// The bound must be positive. The call returns exactly when some raw
    /// draw from the current counter on is kept, which is what the second
    /// precondition asks: [`lemma_power_of_two_draws_once32`] gives it for a
    /// bound that is a power of two, and [`Rand::next_u32_up_within`] does
    /// without it.
    #[inline]
    pub fn next_u32_up(&mut self, to: u32) -> (value: u32)
        requires
            to > 0,
            old(self)@.settles32(to),
        ensures
            is_first(old(self)@.kept32(to), old(self)@.rejections32(to)),
            value == old(self)@.bounded32(to),
            value < to,
            final(self)@ == old(self)@.skip(old(self)@.rejections32(to) + 1),
    {
        let ghost start: State = self@;
        let ghost limit: nat = choose|n: nat| start.keeps32(to, n);
        let ghost mut tried: nat = 0;
        loop
            invariant
                to > 0,
                start == old(self)@,
                self@ == start.skip(tried),
                tried <= limit,
                start.keeps32(to, limit),
                forall|i: nat| i < tried ==> !#[trigger] start.kept32(to)(i),
            decreases limit - tried,
        {
            let raw: u32 = self.next_u32();
            match bounded_from_raw32(raw, to) {
                Some(value) => {
                    proof {
                        assert(start.kept32(to)(tried));
                        lemma_first_unique(start.kept32(to), tried);
                    }
                    return value;
                },
                None => {
                    proof {
                        assert(!start.kept32(to)(tried));
                        tried = tried + 1;
                    }
                },
            }
        }
    }

    /// Generates a 32-bit value in `0..to` from at most `draws` raw draws.
    ///
    /// This is [`Rand::next_u32_up`] for callers that cannot show that the
    /// draw comes to an end: it gives up after `draws` rejected raw draws,
    /// which it has then consumed. The bound must be positive.
    #[inline]
    pub fn next_u32_up_within(&mut self, to: u32, draws: u64) -> (outcome: Option<u32>)
        requires
            to > 0,
        ensures
            match outcome {
                Some(value) => {
                    &&& is_first(old(self)@.kept32(to), old(self)@.rejections32(to))
                    &&& old(self)@.rejections32(to) < draws
                    &&& value == old(self)@.bounded32(to)
                    &&& value < to
                    &&& final(self)@ == old(self)@.skip(old(self)@.rejections32(to) + 1)
                },
                None => {
                    &&& forall|n: nat| n < draws ==> !old(self)@.keeps32(to, n)
                    &&& final(self)@ == old(self)@.skip(draws as nat)
                },
            },
    {
        let ghost start: State = self@;
        let mut tried: u64 = 0;
        while tried < draws
            invariant
                to > 0,
                start == old(self)@,
                self@ == start.skip(tried as nat),
                tried <= draws,
                forall|i: nat| i < tried ==> !#[trigger] start.kept32(to)(i),
            decreases draws - tried,
        {
            let raw: u32 = self.next_u32();
            match bounded_from_raw32(raw, to) {
                Some(value) => {
                    proof {
                        assert(start.kept32(to)(tried as nat));
                        lemma_first_unique(start.kept32(to), tried as nat);
                    }
                    return Some(value);
                },
                None => {
                    assert(!start.kept32(to)(tried as nat));
                    tried = tried + 1;
                },
            }
        }
        assert forall|n: nat| n < draws implies !start.keeps32(to, n) by {
            assert(!start.kept32(to)(n));
        }
        None
    }

    /// Generates a 64-bit value and reports the counter it came from.
    #[inline]
    pub fn next_full_u64(&mut self) -> (res: RandRes<u64>)
        ensures
            res.counter == old(self)@.counter,
            res.value == old(self)@.raw64(),
            res.value == mix64(res.counter, old(self)@.key),
            final(self)@ == old(self)@.skip(1),
    {
        let counter: u64 = self.advance();
        RandRes { counter, value: rand64(counter, self.key) }
    }

    /// Generates a 64-bit value.
    #[inline]
    pub fn next_u64(&mut self) -> (value: u64)
        ensures
            value == old(self)@.raw64(),
            final(self)@ == old(self)@.skip(1),
    {
        let counter: u64 = self.advance();
        rand64(counter, self.key)
    }

    /// Generates a 64-bit value in `0..to`, each value as likely as any
    /// other.
    ///
    /// Raw draws are made until the sampler keeps one, so the counter may
    /// advance by more than one: by the number of rejected draws, plus one.
    ///
    /// The bound must be positive. The call returns exactly when some raw
    /// draw from the current counter on is kept, which is what the second
    /// precondition asks: [`lemma_power_of_two_draws_once64`] gives it for a
    /// bound that is a power of two, and [`Rand::next_u64_up_within`] does
    /// without it.
    #[inline]
    pub fn next_u64_up(&mut self, to: u64) -> (value: u64)
        requires
            to > 0,
            old(self)@.settles64(to),
        ensures
            is_first(old(self)@.kept64(to), old(self)@.rejections64(to)),
            value == old(self)@.bounded64(to),
            value < to,
            final(self)@ == old(self)@.skip(old(self)@.rejections64(to) + 1),
    {
        let ghost start: State = self@;
        let ghost limit: nat = choose|n: nat| start.keeps64(to, n);
        let ghost mut tried: nat = 0;
        loop
            invariant
                to > 0,
                start == old(self)@,
                self@ == start.skip(tried),
                tried <= limit,
                start.keeps64(to, limit),
                forall|i: nat| i < tried ==> !#[trigger] start.kept64(to)(i),
            decreases limit - tried,
        {
            let raw: u64 = self.next_u64();
            match bounded_from_raw64(raw, to) {
                Some(value) => {
                    proof {
                        assert(start.kept64(to)(tried));
                        lemma_first_unique(start.kept64(to), tried);
                    }
                    return value;
                },
                None => {
                    proof {
                        assert(!start.kept64(to)(tried));
                        tried = tried + 1;
                    }
                },
            }
        }
    }

    /// Generates a 64-bit value in `0..to` from at most `draws` raw draws.
    ///
    /// This is [`Rand::next_u64_up`] for callers that cannot show that the
    /// draw comes to an end: it gives up after `draws` rejected raw draws,
    /// which it has then consumed. The bound must be positive.
    #[inline]
    pub fn next_u64_up_within(&mut self, to: u64, draws: u64) -> (outcome: Option<u64>)
        requires
            to > 0,
        ensures
            match outcome {
                Some(value) => {
                    &&& is_first(old(self)@.kept64(to), old(self)@.rejections64(to))
                    &&& old(self)@.rejections64(to) < draws
                    &&& value == old(self)@.bounded64(to)
                    &&& value < to
                    &&& final(self)@ == old(self)@.skip(old(self)@.rejections64(to) + 1)
                },
                None => {
                    &&& forall|n: nat| n < draws ==> !old(self)@.keeps64(to, n)
                    &&& final(self)@ == old(self)@.skip(draws as nat)
                },
            },
    {
        let ghost start: State = self@;
        let mut tried: u64 = 0;
        while tried < draws
            invariant
                to > 0,
                start == old(self)@,
                self@ == start.skip(tried as nat),
                tried <= draws,
                forall|i: nat| i < tried ==> !#[trigger] start.kept64(to)(i),
            decreases draws - tried,
        {
            let raw: u64 = self.next_u64();
            match bounded_from_raw64(raw, to) {
                Some(value) => {
                    proof {
                        assert(start.kept64(to)(tried as nat));
                        lemma_first_unique(start.kept64(to), tried as nat);
                    }
                    return Some(value);
                },
                None => {
                    assert(!start.kept64(to)(tried as nat));
                    tried = tried + 1;
                },
            }
        }
        assert forall|n: nat| n < draws implies !start.keeps64(to, n) by {
            assert(!start.kept64(to)(n));
        }
        None
    }
}

impl Default for Rand {
    /// A generator under [`KEY`], its counter at zero.
    #[inline]
    fn default() -> (rand: Self)
        ensures
            rand@ == (State { counter: 0, key: KEY }),
    {
        Self::new(KEY)
    }
}

} // verus!
