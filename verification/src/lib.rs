//! GLV scalar multiplication for the Pallas / Vesta curve cycle.
//!
//! - `arithmetic`: word-level add-with-carry and multiply-accumulate.
//! - `limbs`: the integer model of little-endian limb sequences and of
//!   column-wise multiplication.
//! - `scalar`: arithmetic modulo a scalar-field order on raw limbs.
//! - `group`: what GLV multiplication needs of a curve point, and the laws of
//!   scalar multiplication.
//! - `high_part`: what the truncated product computes, and how close it comes
//!   to the exact high part of the product.
//! - `glv`: the truncated product `mul_high`, the GLV decomposition and the
//!   constant-time Shamir ladder.
//! - `curves`: the Pallas and Vesta constants and the proof that the
//!   decomposition fits the ladder for them.
//! - `dlog`: points of the two groups written by their discrete logarithm.

pub mod arithmetic;
pub(crate) mod ct;
pub mod curves;
pub mod dlog;
pub mod glv;
pub mod group;
pub mod high_part;
pub mod limbs;
pub mod scalar;
