//! An adaptive prefetch decision kernel: from a short run of block addresses
//! to the decision whether the next access should take the direct path.
//!
//! The kernel keeps a threshold and a phase, both adapted on every cycle, and
//! two counters. This crate is its integer side, proved in full. Every
//! floating-point quantity is held as its IEEE-754 single-precision pattern,
//! a `u32`, and everything that can be decided on patterns is decided here:
//!
//! - [`single`]: the order of patterns, and the proof that it is the order
//!   of the values;
//! - [`convert`]: the pattern that an unsigned integer rounds to, and the
//!   rounded quotient of two such integers;
//! - [`telemetry`]: the six features of a run of addresses;
//! - [`fast_math`]: the inputs that the fast approximations answer with a
//!   fixed value, and the first guess of the inverse square root;
//! - [`kernel`]: the presets, the clamped threshold, the normalized phase,
//!   the decision and the counters, with the laws that hold over any run of
//!   cycles.
//!
//! The arithmetic on the values themselves (sums, products, sines, the
//! exponential) is left to the caller's floating-point unit, and reaches the
//! kernel as a [`kernel::CycleEvaluation`].

pub mod convert;
pub mod fast_math;
pub mod kernel;
pub mod single;
pub mod telemetry;

pub use kernel::{AetherLinkKernel, CycleEvaluation};
