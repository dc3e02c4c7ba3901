//! A feedback delay line with wet/dry mixing, in exact fixed-point arithmetic.
//!
//! Samples are `i32` values and every control (delay time, feedback, gains) is an
//! unsigned Q16 number: the integer `v` stands for `v / 65536`. The crate keeps a
//! bounded history of processed samples, reads it back at a fractional distance by
//! linear interpolation, and mixes the delayed signal with the dry input.
//!
//! - [`fixed`]: the weighted sum of two samples, rounded once and saturated.
//! - [`history`]: the bounded history of processed samples.
//! - [`fractional`]: the delay length and the interpolated read.
//! - [`params`]: the controls and their ranges.
//! - [`smooth`]: the linear ramp that carries a control to a new value.
//! - [`line`]: the processor, its lifecycle and the per-frame step.
//! - [`laws`] and [`response`]: what is proved of all of these together.

pub mod fixed;
pub mod history;
pub mod fractional;
pub mod params;
pub mod smooth;
pub mod line;
pub mod laws;
pub mod response;
