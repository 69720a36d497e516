//! Phase and frequency core of a SOGI phase-locked loop.
//!
//! The estimator's phase is held as a binary angle: a `u32` phase `p` stands
//! for `2π·p / 2^32` radians, so every phase lies in `[0, 2π)` by construction
//! and advancing it is a true (floor-based) modulo, also for negative steps.
//! Angular frequency is held as the phase step taken per sample, in the same
//! unit. The oscillator adds a saturated correction from the loop controller
//! to its nominal step and integrates the sum into the phase once per sample.
mod oscillator;

pub use oscillator::{OscState, PhaseOscillator, TURN};
