//! A generator that several threads can draw from at once.
//!
//! [`SharedRand`] keeps its counter in an atomic word and draws through
//! `&self`. Each raw draw takes its counter by one atomic fetch-and-add, so
//! that no two draws on one instance get the same counter, however they
//! interleave, short of a full trip round the 64-bit counter.
//!
//! What a draw finds in the counter depends on what the other holders of the
//! generator did before it. No contract here can say which counter a draw
//! consumes; each says what holds of the result whichever counter it was.
//! [`crate::generator::Rand`] is the generator whose draws are specified to
//! the counter.

use core::sync::atomic::{AtomicU64, Ordering};
use vstd::prelude::*;
use crate::bounded::{
    bounded_from_raw32, bounded_from_raw64, divides_span32, divides_span64,
    lemma_divisor_accepts32, lemma_divisor_accepts64, sample32, sample64,
};
use crate::generator::RandRes;
use crate::mix::{mix32, mix64, rand32, rand64, KEY};

verus! {

/// A generator with an atomic counter, for use through shared references.
#[derive(Debug)]
pub struct SharedRand {
    counter: AtomicU64,
    key: u64,
}

impl SharedRand {
    /// The key, fixed when the generator is made.
    pub closed spec fn key(&self) -> u64 {
        self.key
    }

    /// Creates a generator with the given key, its counter at zero.
    #[inline]
    pub fn new(key: u64) -> (rand: Self)
        ensures
            rand.key() == key,
    {
        Self::with_counter(0, key)
    }

    /// Creates a generator with the given key and initial counter.
    #[inline]
    pub fn with_counter(counter: u64, key: u64) -> (rand: Self)
        ensures
            rand.key() == key,
    {
        Self { counter: AtomicU64::new(counter), key }
    }

    /// Sets the counter in one atomic swap and returns the counter that the
    /// swap replaced.
    #[inline]
    pub fn set_counter(&self, counter: u64) -> (previous: u64) {
        self.counter.swap(counter, Ordering::AcqRel)
    }

    /// The counter as one atomic load finds it.
    #[inline]
    pub fn counter(&self) -> (counter: u64) {
        self.counter.load(Ordering::Acquire)
    }

    /// Takes a counter for one raw draw and leaves the next in its place, in
    /// one atomic fetch-and-add that wraps at `2^64`.
    #[inline]
    fn take(&self) -> (counter: u64) {
        self.counter.fetch_add(1, Ordering::AcqRel)
    }

    /// Generates a 32-bit value and reports the counter it came from: the
    /// value is that counter mixed under the key.
    #[inline]
    pub fn next_full_u32(&self) -> (res: RandRes<u32>)
        ensures
            res.value == mix32(res.counter, self.key()),
    {
        let counter: u64 = self.take();
        RandRes { counter, value: rand32(counter, self.key) }
    }

    /// Generates a 32-bit value: some counter mixed under the key.
    #[inline]
    pub fn next_u32(&self) -> (value: u32)
        ensures
            exists|counter: u64| value == mix32(counter, self.key()),
    {
        self.next_full_u32().value
    }

    /// Generates a 32-bit value in `0..to` from at most `draws` raw draws,
    /// each of which takes a counter of its own.
    ///
    /// The outcome is `None` where every one of the raw draws was rejected.
    /// With a draw to make and a bound that divides `2^32`, such as a power
    /// of two, none is.
    #[inline]
    pub fn next_u32_up_within(&self, to: u32, draws: u64) -> (outcome: Option<u32>)
        requires
            to > 0,
        ensures
            outcome matches Some(value) ==> value < to && exists|counter: u64|
                sample32(mix32(counter, self.key()), to) == Some(value),
            outcome.is_none() && draws > 0 ==> exists|counter: u64|
                sample32(mix32(counter, self.key()), to).is_none(),
            draws == 0 ==> outcome.is_none(),
            draws > 0 && divides_span32(to) ==> outcome.is_some(),
    {
        let mut tried: u64 = 0;
        while tried < draws
            invariant
                to > 0,
                tried <= draws,
                tried > 0 ==> exists|counter: u64|
                    sample32(mix32(counter, self.key()), to).is_none(),
            decreases draws - tried,
        {
            let raw: RandRes<u32> = self.next_full_u32();
            let decided: Option<u32> = bounded_from_raw32(raw.value, to);
            if decided.is_some() {
                return decided;
            }
            assert(sample32(mix32(raw.counter, self.key()), to).is_none());
            tried = tried + 1;
        }
        proof {
            if draws > 0 && divides_span32(to) {
                let counter = choose|counter: u64|
                    sample32(mix32(counter, self.key()), to).is_none();
                lemma_divisor_accepts32(mix32(counter, self.key()), to);
            }
        }
        None
    }

    /// Generates a 64-bit value and reports the counter it came from: the
    /// value is that counter mixed under the key.
    #[inline]
    pub fn next_full_u64(&self) -> (res: RandRes<u64>)
        ensures
            res.value == mix64(res.counter, self.key()),
    {
        let counter: u64 = self.take();
        RandRes { counter, value: rand64(counter, self.key) }
    }

    /// Generates a 64-bit value: some counter mixed under the key.
    #[inline]
    pub fn next_u64(&self) -> (value: u64)
        ensures
            exists|counter: u64| value == mix64(counter, self.key()),
    {
        self.next_full_u64().value
    }

    /// Generates a 64-bit value in `0..to` from at most `draws` raw draws,
    /// each of which takes a counter of its own.
    ///
    /// The outcome is `None` where every one of the raw draws was rejected.
    /// With a draw to make and a bound that divides `2^64`, such as a power
    /// of two, none is.
    #[inline]
    pub fn next_u64_up_within(&self, to: u64, draws: u64) -> (outcome: Option<u64>)
        requires
            to > 0,
        ensures
            outcome matches Some(value) ==> value < to && exists|counter: u64|
                sample64(mix64(counter, self.key()), to) == Some(value),
            outcome.is_none() && draws > 0 ==> exists|counter: u64|
                sample64(mix64(counter, self.key()), to).is_none(),
            draws == 0 ==> outcome.is_none(),
            draws > 0 && divides_span64(to) ==> outcome.is_some(),
    {
        let mut tried: u64 = 0;
        while tried < draws
            invariant
                to > 0,
                tried <= draws,
                tried > 0 ==> exists|counter: u64|
                    sample64(mix64(counter, self.key()), to).is_none(),
            decreases draws - tried,
        {
            let raw: RandRes<u64> = self.next_full_u64();
            let decided: Option<u64> = bounded_from_raw64(raw.value, to);
            if decided.is_some() {
                return decided;
            }
            assert(sample64(mix64(raw.counter, self.key()), to).is_none());
            tried = tried + 1;
        }
        proof {
            if draws > 0 && divides_span64(to) {
                let counter = choose|counter: u64|
                    sample64(mix64(counter, self.key()), to).is_none();
                lemma_divisor_accepts64(mix64(counter, self.key()), to);
            }
        }
        None
    }
}

impl Default for SharedRand {
    /// A generator under [`KEY`], its counter at zero.
    #[inline]
    fn default() -> (rand: Self)
        ensures
            rand.key() == KEY,
    {
        Self::new(KEY)
    }
}

} // verus!
