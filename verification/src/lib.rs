//! A counter-based, non-cryptographic random number generator built on the
//! "squares" construction: a counter is multiplied by a key and pushed through
//! rounds of squaring and half-swapping.
//!
//! The crate has four parts, leaves first:
//!
//! - [`mix`]: the stateless mixing functions [`rand32`] and [`rand64`], each
//!   proved equal to an arithmetic model over the integers.
//! - [`bounded`]: the multiply-and-reject step that turns one raw draw into a
//!   value below a bound without modulo bias, with the proofs that the step
//!   is in range and exactly uniform.
//! - [`generator`]: [`Rand`], a counter and a key behind exclusive access,
//!   whose every operation is specified as a transition of the pair.
//! - [`shared`]: [`SharedRand`], the same generator with an atomic counter,
//!   for drawing through shared references; its contracts say what holds of
//!   a draw whichever counter it found.
//!
//! **Not cryptographically secure.**

pub mod bounded;
pub mod generator;
pub mod mix;
pub mod shared;

pub use generator::{Rand, RandRes};
pub use mix::{rand32, rand64, KEY};
pub use shared::SharedRand;
