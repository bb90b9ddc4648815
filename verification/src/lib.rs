//! Detection core for slicing radio transmissions out of an IQ sample stream.
//!
//! Power levels are carried as fixed-point decibel values (thousandths of a
//! dB, `i64`), so that every threshold, percentile and hysteresis decision is
//! exact integer arithmetic. The spectral estimation that produces those
//! power values (windowed FFT and the dB conversion) is floating-point work
//! that lives outside this crate; the detection logic here is verified for
//! every power profile it can be handed.

pub mod detector;
pub mod input;
pub mod streaming;
