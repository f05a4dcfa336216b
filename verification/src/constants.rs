//! Physical constants.

use vstd::prelude::*;
use crate::fraction::{quotient, representable};
use crate::number_theory::gcd;
use crate::rational::Rational;

verus! {

/// Speed of light in vacuum, in metres per second. Exact by definition of
/// the metre.
pub const SPEED_OF_LIGHT: i64 = 299_792_458;

/// Standard reference temperature for noise figures, in kelvin.
pub const T0: i64 = 290;

/// The value of Boltzmann's constant in joules per kelvin,
/// `1.380649e-23`. Exact by definition of the kelvin.
pub open spec fn boltzmann_value() -> real {
    quotient(1_380_649, 100_000_000_000_000_000_000_000_000_000)
}

/// Boltzmann's constant in joules per kelvin.
pub fn boltzmann() -> (k: Rational)
    ensures
        k@ == boltzmann_value(),
        representable(k@),
{
    proof {
        reveal_with_fuel(gcd, 16);
    }
    Rational::from_lowest_terms(1_380_649, 100_000_000_000_000_000_000_000_000_000)
}

} // verus!
