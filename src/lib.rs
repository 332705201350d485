//! A digital signal compressor for audio, computed in fixed point.
//!
//! Samples, envelopes, gains, thresholds and smoothing coefficients are all
//! fixed-point numbers in which [`fixed::UNIT`] stands for `1.0`.
use vstd::prelude::*;

pub mod fixed;
pub mod gain;
pub mod detector;
pub mod even_gain_fn;
pub mod compressor;
pub mod laws;

pub use compressor::{Compressor, AvgCompressor, MinCompressor};
pub use detector::{Detector, PeakEnvelopeDetector, RmsEnvelopeDetector};
pub use even_gain_fn::{EvenGainFunction, Average, Minimum};
pub use fixed::UNIT;

verus! {

} // verus!
