//! Verified core of a resonant audio streaming engine: looping sample
//! sources, the per-buffer decisions of the synthesis stage, interleaved
//! mixing, the steps of the adaptive limiter, and the binning of a
//! magnitude spectrum.
//!
//! The library moves, orders and counts; it does no arithmetic on samples.
//! Samples are of any copyable type and are combined by a function of the
//! caller. Magnitudes, levels and frequencies are carried as ordinals,
//! integers in the order of the numbers they stand for, and parameter
//! values as opaque codes.

pub mod cursor;
pub mod source;
pub mod stage;
pub mod stream;
pub mod state;
pub mod spectrum;
pub mod plan;
pub mod limiter;
pub mod ordinal;
