//! A small audio playground: a wavetable oscillator driven by exact
//! phase-accumulator arithmetic, the synchronous render/control message
//! protocol around it, an operational-transformation validity checker,
//! and a fixed-window rate limiter.

pub mod bridge;
pub mod fixed_window_rate_limiter;
pub mod operational_transformation;
pub mod wavetable;
