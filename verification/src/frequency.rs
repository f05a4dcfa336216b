//! Frequency units from hertz to terahertz, and wavelength.

use vstd::prelude::*;
use crate::constants::SPEED_OF_LIGHT;
use crate::error::{exact, or_unrepresentable, outcome, RfError};
use crate::fraction::representable;
use crate::rational::Rational;
use crate::real_arith::{lemma_div_mul_cancel, lemma_div_unique};

verus! {

/// `x * factor`, for a step up the prefixes.
fn scale_up(x: Rational, factor: i64) -> (res: Result<Rational, RfError>)
    requires
        factor > 0,
    ensures
        outcome(res) == exact(x@ * factor as real),
{
    let k = Rational::from_i64(factor);
    or_unrepresentable(x.checked_mul(&k))
}

/// `x / factor`, for a step down the prefixes.
fn scale_down(x: Rational, factor: i64) -> (res: Result<Rational, RfError>)
    requires
        factor > 0,
    ensures
        outcome(res) == exact(x@ / factor as real),
{
    let k = Rational::from_i64(factor);
    or_unrepresentable(x.checked_div(&k))
}

/// A frequency in terahertz as gigahertz: `thz * 10^3`.
pub fn thz_to_ghz(thz: Rational) -> (res: Result<Rational, RfError>)
    ensures
        outcome(res) == exact(thz@ * 1_000real),
{
    scale_up(thz, 1_000)
}

/// A frequency in terahertz as megahertz: `thz * 10^6`.
pub fn thz_to_mhz(thz: Rational) -> (res: Result<Rational, RfError>)
    ensures
        outcome(res) == exact(thz@ * 1_000_000real),
{
    scale_up(thz, 1_000_000)
}

/// A frequency in terahertz as kilohertz: `thz * 10^9`.
pub fn thz_to_khz(thz: Rational) -> (res: Result<Rational, RfError>)
    ensures
        outcome(res) == exact(thz@ * 1_000_000_000real),
{
    scale_up(thz, 1_000_000_000)
}

/// A frequency in terahertz as hertz: `thz * 10^12`.
pub fn thz_to_hz(thz: Rational) -> (res: Result<Rational, RfError>)
    ensures
        outcome(res) == exact(thz@ * 1_000_000_000_000real),
{
    scale_up(thz, 1_000_000_000_000)
}

/// A frequency in gigahertz as terahertz: `ghz / 10^3`.
pub fn ghz_to_thz(ghz: Rational) -> (res: Result<Rational, RfError>)
    ensures
        outcome(res) == exact(ghz@ / 1_000real),
{
    scale_down(ghz, 1_000)
}

/// A frequency in gigahertz as megahertz: `ghz * 10^3`.
pub fn ghz_to_mhz(ghz: Rational) -> (res: Result<Rational, RfError>)
    ensures
        outcome(res) == exact(ghz@ * 1_000real),
{
    scale_up(ghz, 1_000)
}

/// A frequency in gigahertz as kilohertz: `ghz * 10^6`.
pub fn ghz_to_khz(ghz: Rational) -> (res: Result<Rational, RfError>)
    ensures
        outcome(res) == exact(ghz@ * 1_000_000real),
{
    scale_up(ghz, 1_000_000)
}

/// A frequency in gigahertz as hertz: `ghz * 10^9`.
pub fn ghz_to_hz(ghz: Rational) -> (res: Result<Rational, RfError>)
    ensures
        outcome(res) == exact(ghz@ * 1_000_000_000real),
{
    scale_up(ghz, 1_000_000_000)
}

/// A frequency in megahertz as terahertz: `mhz / 10^6`.
pub fn mhz_to_thz(mhz: Rational) -> (res: Result<Rational, RfError>)
    ensures
        outcome(res) == exact(mhz@ / 1_000_000real),
{
    scale_down(mhz, 1_000_000)
}

/// A frequency in megahertz as gigahertz: `mhz / 10^3`.
pub fn mhz_to_ghz(mhz: Rational) -> (res: Result<Rational, RfError>)
    ensures
        outcome(res) == exact(mhz@ / 1_000real),
{
    scale_down(mhz, 1_000)
}

/// A frequency in megahertz as kilohertz: `mhz * 10^3`.
pub fn mhz_to_khz(mhz: Rational) -> (res: Result<Rational, RfError>)
    ensures
        outcome(res) == exact(mhz@ * 1_000real),
{
    scale_up(mhz, 1_000)
}

/// A frequency in megahertz as hertz: `mhz * 10^6`.
pub fn mhz_to_hz(mhz: Rational) -> (res: Result<Rational, RfError>)
    ensures
        outcome(res) == exact(mhz@ * 1_000_000real),
{
    scale_up(mhz, 1_000_000)
}

/// A frequency in kilohertz as terahertz: `khz / 10^9`.
pub fn khz_to_thz(khz: Rational) -> (res: Result<Rational, RfError>)
    ensures
        outcome(res) == exact(khz@ / 1_000_000_000real),
{
    scale_down(khz, 1_000_000_000)
}

/// A frequency in kilohertz as gigahertz: `khz / 10^6`.
pub fn khz_to_ghz(khz: Rational) -> (res: Result<Rational, RfError>)
    ensures
        outcome(res) == exact(khz@ / 1_000_000real),
{
    scale_down(khz, 1_000_000)
}

/// A frequency in kilohertz as megahertz: `khz / 10^3`.
pub fn khz_to_mhz(khz: Rational) -> (res: Result<Rational, RfError>)
    ensures
        outcome(res) == exact(khz@ / 1_000real),
{
    scale_down(khz, 1_000)
}

/// A frequency in kilohertz as hertz: `khz * 10^3`.
pub fn khz_to_hz(khz: Rational) -> (res: Result<Rational, RfError>)
    ensures
        outcome(res) == exact(khz@ * 1_000real),
{
    scale_up(khz, 1_000)
}

/// A frequency in hertz as terahertz: `hz / 10^12`.
pub fn hz_to_thz(hz: Rational) -> (res: Result<Rational, RfError>)
    ensures
        outcome(res) == exact(hz@ / 1_000_000_000_000real),
{
    scale_down(hz, 1_000_000_000_000)
}

/// A frequency in hertz as gigahertz: `hz / 10^9`.
pub fn hz_to_ghz(hz: Rational) -> (res: Result<Rational, RfError>)
    ensures
        outcome(res) == exact(hz@ / 1_000_000_000real),
{
    scale_down(hz, 1_000_000_000)
}

/// A frequency in hertz as megahertz: `hz / 10^6`.
pub fn hz_to_mhz(hz: Rational) -> (res: Result<Rational, RfError>)
    ensures
        outcome(res) == exact(hz@ / 1_000_000real),
{
    scale_down(hz, 1_000_000)
}

/// A frequency in hertz as kilohertz: `hz / 10^3`.
pub fn hz_to_khz(hz: Rational) -> (res: Result<Rational, RfError>)
    ensures
        outcome(res) == exact(hz@ / 1_000real),
{
    scale_down(hz, 1_000)
}

/// What [`frequency_to_wavelength`] and [`wavelength_to_frequency`] return:
/// the speed of light over `x`.
pub open spec fn light_speed_over(x: real) -> Result<real, RfError> {
    if x == 0real {
        Err(RfError::DivisionByZero)
    } else {
        exact(SPEED_OF_LIGHT as real / x)
    }
}

/// `c / x` for the speed of light `c`.
fn speed_of_light_over(x: Rational) -> (res: Result<Rational, RfError>)
    ensures
        outcome(res) == light_speed_over(x@),
{
    if x.is_zero() {
        return Err(RfError::DivisionByZero);
    }
    let c = Rational::from_i64(SPEED_OF_LIGHT);
    or_unrepresentable(c.checked_div(&x))
}

/// The wavelength in metres of a frequency in hertz: `c / frequency`.
/// A frequency of zero has no wavelength.
pub fn frequency_to_wavelength(frequency: Rational) -> (res: Result<Rational, RfError>)
    ensures
        outcome(res) == light_speed_over(frequency@),
{
    speed_of_light_over(frequency)
}

/// The frequency in hertz of a wavelength in metres: `c / wavelength`.
/// A wavelength of zero has no frequency.
pub fn wavelength_to_frequency(wavelength: Rational) -> (res: Result<Rational, RfError>)
    ensures
        outcome(res) == light_speed_over(wavelength@),
{
    speed_of_light_over(wavelength)
}

/// A step up the prefixes and the same step down, or down and then up,
/// returns the frequency: where the first conversion succeeds, the second
/// succeeds on its result.
pub proof fn lemma_prefix_round_trip(frequency: real, factor: real)
    requires
        representable(frequency),
        factor != 0real,
    ensures
        exact(frequency * factor) matches Ok(scaled) ==> exact(scaled / factor) == Ok::<
            real,
            RfError,
        >(frequency),
        exact(frequency / factor) matches Ok(scaled) ==> exact(scaled * factor) == Ok::<
            real,
            RfError,
        >(frequency),
{
    lemma_div_unique(frequency * factor, factor, frequency);
    lemma_div_mul_cancel(frequency, factor);
}

/// Frequency to wavelength and back returns the frequency, and wavelength
/// to frequency and back the wavelength: both are the speed of light over
/// their argument.
pub proof fn lemma_wavelength_round_trip(x: real)
    requires
        representable(x),
    ensures
        light_speed_over(x) matches Ok(y) ==> light_speed_over(y) == Ok::<real, RfError>(x),
{
    if x != 0real {
        let c = SPEED_OF_LIGHT as real;
        assert(c == 299_792_458real);
        let y = c / x;
        lemma_div_mul_cancel(c, x);
        assert(y != 0real) by (nonlinear_arith)
            requires
                y * x == c,
                c != 0real,
        ;
        assert(x * y == c) by (nonlinear_arith)
            requires
                y * x == c,
        ;
        lemma_div_unique(c, y, x);
    }
}

} // verus!
