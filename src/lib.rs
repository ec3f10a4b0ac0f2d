//! A polyphonic software synthesizer engine in fixed-point arithmetic.
//!
//! Levels, amplitudes, volumes and frequency ratios are integers scaled by
//! [`units::ONE`]; waveform phases are positions within a period of
//! [`units::PERIOD`] units; time is counted in samples.

pub mod error;
pub mod units;
pub mod waves;
pub mod envelope;
pub mod oscillator;
pub mod synth;
pub mod stream;
pub mod keyboard;
