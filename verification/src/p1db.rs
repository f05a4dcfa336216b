//! The 1-dB compression point: input- and output-referred, and of a cascade.

use vstd::prelude::*;
use crate::error::{exact, or_unrepresentable, outcome, RfError};
use crate::fraction::representable;
use crate::rational::Rational;
use crate::real_arith::lemma_div_mul_cancel;

verus! {

/// What [`input_to_output_db`] returns: `input_p1db + (gain_db - 1)`, the
/// gain less one formed first.
pub open spec fn input_to_output_db_spec(input_p1db: real, gain_db: real) -> Result<real, RfError> {
    if representable(gain_db - 1real) {
        exact(input_p1db + (gain_db - 1real))
    } else {
        Err(RfError::Unrepresentable)
    }
}

/// What [`output_to_input_db`] returns: `output_p1db - (gain_db - 1)`, the
/// gain less one formed first.
pub open spec fn output_to_input_db_spec(output_p1db: real, gain_db: real) -> Result<real, RfError> {
    if representable(gain_db - 1real) {
        exact(output_p1db - (gain_db - 1real))
    } else {
        Err(RfError::Unrepresentable)
    }
}

/// The sum that [`cascade_output_p1db_linear`] inverts:
/// `(1 / cumulative) * gain + 1 / stage`.
pub open spec fn compression_sum(cumulative: real, stage: real, gain: real) -> real {
    (1real / cumulative) * gain + 1real / stage
}

/// What [`cascade_output_p1db_linear`] returns.
pub open spec fn cascade_output_p1db_linear_spec(cumulative: real, stage: real, gain: real) -> Result<
    real,
    RfError,
> {
    if cumulative == 0real || stage == 0real {
        Err(RfError::DivisionByZero)
    } else if !representable((1real / cumulative) * gain) || !representable(
        compression_sum(cumulative, stage, gain),
    ) {
        Err(RfError::Unrepresentable)
    } else if compression_sum(cumulative, stage, gain) == 0real {
        Err(RfError::DivisionByZero)
    } else {
        Ok(1real / compression_sum(cumulative, stage, gain))
    }
}

/// Output-referred compression point of a stage from its input-referred
/// one, both in dBm, gain in dB: the output compresses one decibel below
/// where the linear gain would put it.
pub fn input_to_output_db(input_p1db: Rational, gain_db: Rational) -> (res: Result<
    Rational,
    RfError,
>)
    ensures
        outcome(res) == input_to_output_db_spec(input_p1db@, gain_db@),
{
    let one = Rational::from_i64(1);
    let shift = match gain_db.checked_sub(&one) {
        Some(q) => q,
        None => {
            return Err(RfError::Unrepresentable);
        },
    };
    or_unrepresentable(input_p1db.checked_add(&shift))
}

/// Input-referred compression point of a stage from its output-referred
/// one, both in dBm, gain in dB.
pub fn output_to_input_db(output_p1db: Rational, gain_db: Rational) -> (res: Result<
    Rational,
    RfError,
>)
    ensures
        outcome(res) == output_to_input_db_spec(output_p1db@, gain_db@),
{
    let one = Rational::from_i64(1);
    let shift = match gain_db.checked_sub(&one) {
        Some(q) => q,
        None => {
            return Err(RfError::Unrepresentable);
        },
    };
    or_unrepresentable(output_p1db.checked_sub(&shift))
}

/// Output compression point of a chain after one more stage, all in linear
/// power units: the reciprocal of
/// `(1 / cumulative_output_p1db) * stage_gain + 1 / stage_output_p1db`.
///
/// Fails with `DivisionByZero` when either compression point is zero or the
/// sum to invert is zero, and with `Unrepresentable` when the scaled
/// reciprocal or the sum has no representation.
pub fn cascade_output_p1db_linear(
    cumulative_output_p1db: Rational,
    stage_output_p1db: Rational,
    stage_gain: Rational,
) -> (res: Result<Rational, RfError>)
    ensures
        outcome(res) == cascade_output_p1db_linear_spec(
            cumulative_output_p1db@,
            stage_output_p1db@,
            stage_gain@,
        ),
{
    let inverse_cumulative = match cumulative_output_p1db.recip() {
        Some(q) => q,
        None => {
            return Err(RfError::DivisionByZero);
        },
    };
    let inverse_stage = match stage_output_p1db.recip() {
        Some(q) => q,
        None => {
            return Err(RfError::DivisionByZero);
        },
    };
    let scaled = match inverse_cumulative.checked_mul(&stage_gain) {
        Some(q) => q,
        None => {
            return Err(RfError::Unrepresentable);
        },
    };
    let sum = match scaled.checked_add(&inverse_stage) {
        Some(q) => q,
        None => {
            return Err(RfError::Unrepresentable);
        },
    };
    match sum.recip() {
        Some(q) => Ok(q),
        None => Err(RfError::DivisionByZero),
    }
}

/// Input-referred to output-referred and back, or the other way round,
/// returns the compression point for every gain, a negative one too: where
/// the first conversion succeeds, the second succeeds on its result.
pub proof fn lemma_input_output_round_trip(p1db: real, gain_db: real)
    requires
        representable(p1db),
    ensures
        input_to_output_db_spec(p1db, gain_db) matches Ok(output) ==> output_to_input_db_spec(
            output,
            gain_db,
        ) == Ok::<real, RfError>(p1db),
        output_to_input_db_spec(p1db, gain_db) matches Ok(input) ==> input_to_output_db_spec(
            input,
            gain_db,
        ) == Ok::<real, RfError>(p1db),
{
}

/// One more stage never raises the compression point: with positive
/// compression points and gain, the cascaded point is positive, at most the
/// stage's own, and at most the cumulative one over the gain.
pub proof fn lemma_cascade_never_improves(cumulative: real, stage: real, gain: real)
    requires
        cumulative > 0real,
        stage > 0real,
        gain > 0real,
    ensures
        compression_sum(cumulative, stage, gain) > 0real,
        0real < 1real / compression_sum(cumulative, stage, gain) <= stage,
        (1real / compression_sum(cumulative, stage, gain)) * gain <= cumulative,
{
    let a = 1real / cumulative;
    let b = 1real / stage;
    lemma_div_mul_cancel(1real, cumulative);
    lemma_div_mul_cancel(1real, stage);
    assert(a > 0real) by (nonlinear_arith)
        requires
            a * cumulative == 1real,
            cumulative > 0real,
    ;
    assert(b > 0real) by (nonlinear_arith)
        requires
            b * stage == 1real,
            stage > 0real,
    ;
    let scaled = a * gain;
    assert(scaled > 0real) by (nonlinear_arith)
        requires
            scaled == a * gain,
            a > 0real,
            gain > 0real,
    ;
    let sum = scaled + b;
    assert(sum == compression_sum(cumulative, stage, gain));
    let v = 1real / sum;
    lemma_div_mul_cancel(1real, sum);
    assert(v > 0real) by (nonlinear_arith)
        requires
            v * sum == 1real,
            sum > 0real,
    ;
    assert(v * b <= 1real && v * scaled <= 1real) by (nonlinear_arith)
        requires
            v * (scaled + b) == 1real,
            v > 0real,
            scaled > 0real,
            b > 0real,
    ;
    assert(v <= stage) by (nonlinear_arith)
        requires
            v * b <= 1real,
            b * stage == 1real,
            b > 0real,
            stage > 0real,
    ;
    assert(v * gain <= cumulative) by (nonlinear_arith)
        requires
            v * (a * gain) <= 1real,
            a * cumulative == 1real,
            a > 0real,
            cumulative > 0real,
    ;
}

} // verus!
