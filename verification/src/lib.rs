//! Token-generation core for a chat assistant driven by an autoregressive
//! sequence model: nucleus (top-p) sampling over a probability distribution,
//! repetition penalties on logits, and the generation loop's state machine.
//!
//! Probabilities, logits and sampling parameters are held in fixed-point form:
//! a real value `x` is represented by the integer `x * SCALE`, so that all of
//! the sampling arithmetic is exact integer arithmetic.
use vstd::prelude::*;

verus! {

/// Fixed-point scale: the integer `SCALE` represents the real value `1.0`.
pub const SCALE: u64 = 1_000_000;

} // verus!

pub mod engine;
pub mod penalty;
pub mod sampler;
