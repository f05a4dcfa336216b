//! Noise factor, noise temperature, thermal noise power, and the Friis
//! cascade of a chain of stages.

use vstd::prelude::*;
use crate::constants::{boltzmann, boltzmann_value, T0};
use crate::error::{exact, or_unrepresentable, outcome, RfError};
use crate::fraction::representable;
use crate::rational::{lemma_wf_representable, Rational};
use crate::real_arith::{lemma_product_nonzero, lemma_scale_ratio};

verus! {

/// What [`noise_temperature_from_noise_factor`] returns:
/// `T0 * (noise_factor - 1)`, the excess noise factor formed first.
pub open spec fn noise_temperature_from_noise_factor_spec(noise_factor: real) -> Result<
    real,
    RfError,
> {
    if representable(noise_factor - 1real) {
        exact(T0 as real * (noise_factor - 1real))
    } else {
        Err(RfError::Unrepresentable)
    }
}

/// What [`noise_factor_from_noise_temperature`] returns:
/// `1 + noise_temperature / T0`, the ratio formed first.
pub open spec fn noise_factor_from_noise_temperature_spec(noise_temperature: real) -> Result<
    real,
    RfError,
> {
    if representable(noise_temperature / T0 as real) {
        exact(1real + noise_temperature / T0 as real)
    } else {
        Err(RfError::Unrepresentable)
    }
}

/// What [`noise_power_from_bandwidth`] returns: `k * (T * B)` with `k`
/// Boltzmann's constant, the product of temperature and bandwidth formed
/// first.
pub open spec fn noise_power_from_bandwidth_spec(temperature: real, bandwidth: real) -> Result<
    real,
    RfError,
> {
    if representable(temperature * bandwidth) {
        exact(boltzmann_value() * (temperature * bandwidth))
    } else {
        Err(RfError::Unrepresentable)
    }
}

/// Equivalent noise temperature in kelvin of a linear noise factor, at the
/// reference temperature of 290 K.
pub fn noise_temperature_from_noise_factor(noise_factor: Rational) -> (res: Result<
    Rational,
    RfError,
>)
    ensures
        outcome(res) == noise_temperature_from_noise_factor_spec(noise_factor@),
{
    let one = Rational::from_i64(1);
    let reference = Rational::from_i64(T0);
    let excess = match noise_factor.checked_sub(&one) {
        Some(q) => q,
        None => {
            return Err(RfError::Unrepresentable);
        },
    };
    or_unrepresentable(reference.checked_mul(&excess))
}

/// Linear noise factor of an equivalent noise temperature in kelvin, at the
/// reference temperature of 290 K.
pub fn noise_factor_from_noise_temperature(noise_temperature: Rational) -> (res: Result<
    Rational,
    RfError,
>)
    ensures
        outcome(res) == noise_factor_from_noise_temperature_spec(noise_temperature@),
{
    let one = Rational::from_i64(1);
    let reference = Rational::from_i64(T0);
    let ratio = match noise_temperature.checked_div(&reference) {
        Some(q) => q,
        None => {
            return Err(RfError::Unrepresentable);
        },
    };
    or_unrepresentable(one.checked_add(&ratio))
}

/// Thermal noise power in watts of a temperature in kelvin over a bandwidth
/// in hertz: `k * T * B` with `k` Boltzmann's constant.
pub fn noise_power_from_bandwidth(temperature: Rational, bandwidth: Rational) -> (res: Result<
    Rational,
    RfError,
>)
    ensures
        outcome(res) == noise_power_from_bandwidth_spec(temperature@, bandwidth@),
{
    let product = match temperature.checked_mul(&bandwidth) {
        Some(q) => q,
        None => {
            return Err(RfError::Unrepresentable);
        },
    };
    or_unrepresentable(boltzmann().checked_mul(&product))
}

/// The real numbers that a chain of `(parameter, gain)` stages denotes.
pub open spec fn stage_values(stages: Seq<(Rational, Rational)>) -> Seq<(real, real)> {
    Seq::new(stages.len(), |i: int| (stages[i].0@, stages[i].1@))
}

/// The gain in front of stage `i`: the product of the gains of stages `0..i`.
pub open spec fn gain_before(s: Seq<(real, real)>, i: int) -> real
    decreases i,
{
    if i <= 0 {
        1real
    } else {
        gain_before(s, i - 1) * s[i - 1].1
    }
}

/// Friis' formula for the noise factor of the first `n` stages:
/// `F1 + (F2 - 1) / G1 + (F3 - 1) / (G1 * G2) + ...`.
pub open spec fn friis_noise_factor(s: Seq<(real, real)>, n: int) -> real
    decreases n,
{
    if n <= 1 {
        s[0].0
    } else {
        friis_noise_factor(s, n - 1) + (s[n - 1].0 - 1real) / gain_before(s, n - 1)
    }
}

/// Friis' formula for the noise temperature of the first `n` stages:
/// `T1 + T2 / G1 + T3 / (G1 * G2) + ...`.
pub open spec fn friis_noise_temperature(s: Seq<(real, real)>, n: int) -> real
    decreases n,
{
    if n <= 1 {
        s[0].0
    } else {
        friis_noise_temperature(s, n - 1) + s[n - 1].0 / gain_before(s, n - 1)
    }
}

/// No gain that the formula divides by is zero: every stage but the last.
pub open spec fn divisor_gains_nonzero(s: Seq<(real, real)>) -> bool {
    forall|i: int| 0 <= i < s.len() - 1 ==> (#[trigger] s[i]).1 != 0real
}

/// The quantities that stage `i` adds to a noise-factor cascade all have a
/// representation: the gain in front of it, its excess noise factor, its
/// contribution, and the total up to and including it.
pub open spec fn factor_step_representable(s: Seq<(real, real)>, i: int) -> bool {
    &&& representable(gain_before(s, i))
    &&& representable(s[i].0 - 1real)
    &&& representable((s[i].0 - 1real) / gain_before(s, i))
    &&& representable(friis_noise_factor(s, i + 1))
}

/// The same for a noise-temperature cascade.
pub open spec fn temperature_step_representable(s: Seq<(real, real)>, i: int) -> bool {
    &&& representable(gain_before(s, i))
    &&& representable(s[i].0 / gain_before(s, i))
    &&& representable(friis_noise_temperature(s, i + 1))
}

/// What [`cascade_noise_factor`] returns for a chain of real-valued stages.
pub open spec fn cascade_noise_factor_spec(s: Seq<(real, real)>) -> Result<real, RfError> {
    if s.len() == 0 {
        Err(RfError::InvalidInput)
    } else if !divisor_gains_nonzero(s) {
        Err(RfError::DivisionByZero)
    } else if !(forall|i: int| 1 <= i < s.len() ==> #[trigger] factor_step_representable(s, i)) {
        Err(RfError::Unrepresentable)
    } else {
        Ok(friis_noise_factor(s, s.len() as int))
    }
}

/// What [`cascade_noise_temperature`] returns for a chain of real-valued
/// stages.
pub open spec fn cascade_noise_temperature_spec(s: Seq<(real, real)>) -> Result<real, RfError> {
    if s.len() == 0 {
        Err(RfError::InvalidInput)
    } else if !divisor_gains_nonzero(s) {
        Err(RfError::DivisionByZero)
    } else if !(forall|i: int|
        1 <= i < s.len() ==> #[trigger] temperature_step_representable(s, i)) {
        Err(RfError::Unrepresentable)
    } else {
        Ok(friis_noise_temperature(s, s.len() as int))
    }
}

/// With no zero among the divisor gains, the gain in front of every stage is
/// nonzero.
pub proof fn lemma_gain_before_nonzero(s: Seq<(real, real)>, i: int)
    requires
        divisor_gains_nonzero(s),
        0 <= i < s.len(),
    ensures
        gain_before(s, i) != 0real,
    decreases i,
{
    if i > 0 {
        lemma_gain_before_nonzero(s, i - 1);
        assert(s[i - 1].1 != 0real);
        lemma_product_nonzero(gain_before(s, i - 1), s[i - 1].1);
    }
}

/// Whether a gain that the cascade divides by is zero.
fn has_zero_divisor_gain(stages: &[(Rational, Rational)]) -> (found: bool)
    ensures
        found == !divisor_gains_nonzero(stage_values(stages@)),
{
    let ghost s = stage_values(stages@);
    let n = stages.len();
    if n == 0 {
        return false;
    }
    let mut i: usize = 0;
    while i + 1 < n
        invariant
            i < n,
            n == stages.len(),
            s == stage_values(stages@),
            forall|j: int| 0 <= j < i ==> (#[trigger] s[j]).1 != 0real,
        decreases n - i,
    {
        let gain = stages[i].1;
        if gain.is_zero() {
            assert(s[i as int].1 == 0real);
            return true;
        }
        i += 1;
    }
    false
}

/// Total noise factor of a chain of `(noise_factor, gain)` stages, both
/// linear, by Friis' formula.
///
/// Fails with `InvalidInput` on an empty chain, with `DivisionByZero` when a
/// stage other than the last has gain zero, and with `Unrepresentable` when
/// the running gain, a stage's contribution or a running total has no
/// representation.
pub fn cascade_noise_factor(stages: &[(Rational, Rational)]) -> (res: Result<Rational, RfError>)
    ensures
        outcome(res) == cascade_noise_factor_spec(stage_values(stages@)),
{
    let ghost s = stage_values(stages@);
    let n = stages.len();
    if n == 0 {
        return Err(RfError::InvalidInput);
    }
    if has_zero_divisor_gain(stages) {
        return Err(RfError::DivisionByZero);
    }
    let one = Rational::from_i64(1);
    let first = stages[0];
    let mut total = first.0;
    let mut running_gain = first.1;
    let mut k: usize = 1;
    proof {
        reveal_with_fuel(gain_before, 2);
        assert(gain_before(s, 1) == 1real * s[0].1);
    }
    while k < n
        invariant
            1 <= k <= n,
            n == stages.len(),
            s == stage_values(stages@),
            divisor_gains_nonzero(s),
            one@ == 1real,
            total@ == friis_noise_factor(s, k as int),
            k < n ==> running_gain@ == gain_before(s, k as int),
            forall|j: int| 1 <= j < k ==> #[trigger] factor_step_representable(s, j),
        decreases n - k,
    {
        let stage = stages[k];
        proof {
            use_type_invariant(&running_gain);
            lemma_wf_representable(running_gain);
            lemma_gain_before_nonzero(s, k as int);
            assert(s[k as int].0 == stage.0@);
        }
        let excess = match stage.0.checked_sub(&one) {
            Some(e) => e,
            None => {
                assert(!factor_step_representable(s, k as int));
                return Err(RfError::Unrepresentable);
            },
        };
        let term = match excess.checked_div(&running_gain) {
            Some(t) => t,
            None => {
                assert(!factor_step_representable(s, k as int));
                return Err(RfError::Unrepresentable);
            },
        };
        let sum = match total.checked_add(&term) {
            Some(t) => t,
            None => {
                assert(!factor_step_representable(s, k as int));
                return Err(RfError::Unrepresentable);
            },
        };
        proof {
            assert(factor_step_representable(s, k as int));
        }
        total = sum;
        if k + 1 < n {
            assert(s[k as int].1 == stage.1@);
            running_gain = match running_gain.checked_mul(&stage.1) {
                Some(g) => g,
                None => {
                    assert(!factor_step_representable(s, k + 1));
                    return Err(RfError::Unrepresentable);
                },
            };
        }
        k += 1;
    }
    Ok(total)
}

/// Total noise temperature of a chain of `(temperature_kelvin, gain)`
/// stages, gain linear, by Friis' formula.
///
/// Fails as [`cascade_noise_factor`] does.
pub fn cascade_noise_temperature(stages: &[(Rational, Rational)]) -> (res: Result<
    Rational,
    RfError,
>)
    ensures
        outcome(res) == cascade_noise_temperature_spec(stage_values(stages@)),
{
    let ghost s = stage_values(stages@);
    let n = stages.len();
    if n == 0 {
        return Err(RfError::InvalidInput);
    }
    if has_zero_divisor_gain(stages) {
        return Err(RfError::DivisionByZero);
    }
    let first = stages[0];
    let mut total = first.0;
    let mut running_gain = first.1;
    let mut k: usize = 1;
    proof {
        reveal_with_fuel(gain_before, 2);
        assert(gain_before(s, 1) == 1real * s[0].1);
    }
    while k < n
        invariant
            1 <= k <= n,
            n == stages.len(),
            s == stage_values(stages@),
            divisor_gains_nonzero(s),
            total@ == friis_noise_temperature(s, k as int),
            k < n ==> running_gain@ == gain_before(s, k as int),
            forall|j: int| 1 <= j < k ==> #[trigger] temperature_step_representable(s, j),
        decreases n - k,
    {
        let stage = stages[k];
        proof {
            use_type_invariant(&running_gain);
            lemma_wf_representable(running_gain);
            lemma_gain_before_nonzero(s, k as int);
            assert(s[k as int].0 == stage.0@);
        }
        let term = match stage.0.checked_div(&running_gain) {
            Some(t) => t,
            None => {
                assert(!temperature_step_representable(s, k as int));
                return Err(RfError::Unrepresentable);
            },
        };
        let sum = match total.checked_add(&term) {
            Some(t) => t,
            None => {
                assert(!temperature_step_representable(s, k as int));
                return Err(RfError::Unrepresentable);
            },
        };
        proof {
            assert(temperature_step_representable(s, k as int));
        }
        total = sum;
        if k + 1 < n {
            assert(s[k as int].1 == stage.1@);
            running_gain = match running_gain.checked_mul(&stage.1) {
                Some(g) => g,
                None => {
                    assert(!temperature_step_representable(s, k + 1));
                    return Err(RfError::Unrepresentable);
                },
            };
        }
        k += 1;
    }
    Ok(total)
}

/// An empty chain, and only an empty chain, is invalid input to both
/// cascades.
pub proof fn lemma_empty_chain_is_invalid(s: Seq<(real, real)>)
    ensures
        cascade_noise_factor_spec(s) == Err::<real, RfError>(RfError::InvalidInput) <==> s.len()
            == 0,
        cascade_noise_temperature_spec(s) == Err::<real, RfError>(RfError::InvalidInput)
            <==> s.len() == 0,
{
}

/// A chain of one stage has that stage's noise factor, whatever its gain.
pub proof fn lemma_single_stage_noise_factor(noise_factor: real, gain: real)
    ensures
        cascade_noise_factor_spec(seq![(noise_factor, gain)]) == Ok::<real, RfError>(
            noise_factor,
        ),
{
    let s = seq![(noise_factor, gain)];
    assert(s.len() == 1);
    assert(s[0] == (noise_factor, gain));
}

/// A chain of one stage has that stage's noise temperature, whatever its
/// gain.
pub proof fn lemma_single_stage_noise_temperature(temperature: real, gain: real)
    ensures
        cascade_noise_temperature_spec(seq![(temperature, gain)]) == Ok::<real, RfError>(
            temperature,
        ),
{
    let s = seq![(temperature, gain)];
    assert(s.len() == 1);
    assert(s[0] == (temperature, gain));
}

/// The chain `s` of `(noise_factor, gain)` stages with each noise factor
/// turned into its noise temperature `T0 * (F - 1)`.
pub open spec fn as_temperature_stages(s: Seq<(real, real)>) -> Seq<(real, real)> {
    Seq::new(s.len(), |i: int| (T0 as real * (s[i].0 - 1real), s[i].1))
}

/// Turning noise factors into temperatures leaves the gains as they are.
proof fn lemma_temperature_stages_keep_gain(s: Seq<(real, real)>, i: int)
    requires
        0 <= i <= s.len(),
    ensures
        gain_before(as_temperature_stages(s), i) == gain_before(s, i),
    decreases i,
{
    if i > 0 {
        lemma_temperature_stages_keep_gain(s, i - 1);
    }
}

/// The two forms of Friis' formula agree: cascading the noise temperatures
/// of a chain gives the noise temperature of its cascaded noise factor.
pub proof fn lemma_temperature_cascade_matches_factor_cascade(s: Seq<(real, real)>, n: int)
    requires
        1 <= n <= s.len(),
        divisor_gains_nonzero(s),
    ensures
        friis_noise_temperature(as_temperature_stages(s), n) == T0 as real * (friis_noise_factor(
            s,
            n,
        ) - 1real),
    decreases n,
{
    let t = as_temperature_stages(s);
    assert(T0 as real == 290real);
    assert(t[0].0 == T0 as real * (s[0].0 - 1real));
    if n > 1 {
        lemma_temperature_cascade_matches_factor_cascade(s, n - 1);
        lemma_temperature_stages_keep_gain(s, n - 1);
        lemma_gain_before_nonzero(s, n - 1);
        lemma_scale_ratio(T0 as real, s[n - 1].0 - 1real, gain_before(s, n - 1));
        assert(t[n - 1].0 == T0 as real * (s[n - 1].0 - 1real));
    }
}

/// Each stage of [`as_temperature_stages`] holds what
/// [`noise_temperature_from_noise_factor`] returns for the stage's noise
/// factor, wherever that conversion succeeds.
pub proof fn lemma_temperature_stages_are_converted(s: Seq<(real, real)>, i: int)
    requires
        0 <= i < s.len(),
    ensures
        as_temperature_stages(s)[i].1 == s[i].1,
        noise_temperature_from_noise_factor_spec(s[i].0) matches Ok(t) ==> t
            == as_temperature_stages(s)[i].0,
{
}

/// Cascading by noise factor and cascading by noise temperature agree:
/// where both cascades of a chain succeed, one on its noise factors and one
/// on their noise temperatures, the results are the noise factor and the
/// noise temperature of one another, and each conversion of one result
/// that succeeds returns the other.
pub proof fn lemma_cascades_agree(s: Seq<(real, real)>)
    ensures
        cascade_noise_factor_spec(s) matches Ok(f) ==> (cascade_noise_temperature_spec(
            as_temperature_stages(s),
        ) matches Ok(t) ==> {
            &&& t == T0 as real * (f - 1real)
            &&& f == 1real + t / T0 as real
            &&& noise_temperature_from_noise_factor_spec(f) matches Ok(u) ==> u == t
            &&& noise_factor_from_noise_temperature_spec(t) matches Ok(g) ==> g == f
        }),
{
    if cascade_noise_factor_spec(s) is Ok {
        lemma_temperature_cascade_matches_factor_cascade(s, s.len() as int);
        assert(T0 as real == 290real);
    }
}

/// Noise factor to noise temperature and back returns the noise factor:
/// where the first conversion succeeds, the second succeeds on its result.
pub proof fn lemma_noise_factor_round_trip(noise_factor: real)
    requires
        representable(noise_factor),
    ensures
        noise_temperature_from_noise_factor_spec(noise_factor) matches Ok(t)
            ==> noise_factor_from_noise_temperature_spec(t) == Ok::<real, RfError>(noise_factor),
{
    assert(T0 as real == 290real);
}

/// Noise temperature to noise factor and back returns the temperature.
pub proof fn lemma_noise_temperature_round_trip(temperature: real)
    requires
        representable(temperature),
    ensures
        noise_factor_from_noise_temperature_spec(temperature) matches Ok(f)
            ==> noise_temperature_from_noise_factor_spec(f) == Ok::<real, RfError>(temperature),
{
    assert(T0 as real == 290real);
}

} // verus!
