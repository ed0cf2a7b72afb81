//! Digital-signal-processing core of a continuously variable, multi-mode,
//! zero-delay-feedback state-variable filter (SVF).
//!
//! The audio algebra is carried out in Q32.32 fixed point (an `i64` holding
//! `value * 2^32`), so that every per-sample computation has an exact,
//! machine-checked description: the trapezoidal integrator primitive, the
//! algebraic zero-delay-feedback solve, the smoothed per-sample coefficient
//! ramps, the ten-way output-mode dispatch, and the closed-form transfer
//! function shared with the response plot. Mapping raw host parameters
//! (normalized cutoff, decibel gain, sample rate) into the filter's
//! coefficient domain is the caller's concern and stays outside this crate.

pub mod fixed;
pub mod integrator;
pub mod smoother;
pub mod svf;
pub mod filter;
pub mod transfer;

