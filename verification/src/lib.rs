//! Time-scale modification of mono audio signals: change a signal's duration
//! while keeping its pitch.
//!
//! All sample and weight arithmetic is fixed-point over `i64`, with
//! [`fixed::ONE`] as the unit, so every computation has an exact
//! integer-arithmetic meaning that the contracts state in full.
//!
//! The engines are `ola` (overlap-add), `sola` (synchronized overlap-add,
//! which aligns each frame by a local cross-correlation search), and
//! `phase_vocoder` (a spectral stretcher built on the `stft`/`istft` pair).

pub mod accum;
pub mod complex;
pub mod fft;
pub mod fixed;
pub mod merge;
pub mod ola;
pub mod phase_vocoder;
pub mod sample;
pub mod signal;
pub mod sola;
pub mod windows;
