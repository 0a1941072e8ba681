//! A feedback delay network (FDN) artificial reverberator.
//!
//! The core is a fixed-point digital-signal-processing engine: a [`delay_line::DelayLine`]
//! models a pure delay of exactly `N` samples, and [`fdn::FDN`] couples four such delay
//! pairs through a fixed 4x4 mixing matrix and a feedback gain of 13/20, retaining the
//! cross-block feedback signal between calls. Samples are `i64` fixed-point values; all
//! arithmetic saturates at the representable range.

pub mod ring;
pub mod sample;
pub mod delay_line;
pub mod matrix;
pub mod fdn;
pub mod laws;
