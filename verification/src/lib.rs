//! Exact radio-frequency unit conversions and link-budget cascade arithmetic.
//!
//! Every quantity is a [`rational::Rational`], an exact fraction of 128-bit
//! integers in lowest terms. Contracts are stated over the real number that
//! a value denotes: a conversion returns the exact result of its formula, or
//! an [`error::RfError`] that says why no value denotes it.
//!
//! - [`frequency`]: hertz to terahertz, and wavelength;
//! - [`power`]: dBm and dBW;
//! - [`noise`]: noise factor, noise temperature, thermal noise power, and
//!   the Friis cascade;
//! - [`p1db`]: the 1-dB compression point and its cascade;
//! - [`constants`]: the physical constants of the formulas;
//! - [`rational`], [`fraction`], [`wide`], [`number_theory`],
//!   [`real_arith`]: the arithmetic underneath.

pub mod constants;
pub mod error;
pub mod fraction;
pub mod frequency;
pub mod noise;
pub mod number_theory;
pub mod p1db;
pub mod power;
pub mod rational;
pub mod real_arith;
pub mod wide;
