//! Power levels in decibels relative to one milliwatt and to one watt.

use vstd::prelude::*;
use crate::error::{exact, or_unrepresentable, outcome, RfError};
use crate::fraction::representable;
use crate::rational::Rational;

verus! {

/// A level in dBm as dBW: `dbm - 30`.
pub fn dbm_to_dbw(dbm: Rational) -> (res: Result<Rational, RfError>)
    ensures
        outcome(res) == exact(dbm@ - 30real),
{
    let offset = Rational::from_i64(30);
    or_unrepresentable(dbm.checked_sub(&offset))
}

/// A level in dBW as dBm: `dbw + 30`.
pub fn dbw_to_dbm(dbw: Rational) -> (res: Result<Rational, RfError>)
    ensures
        outcome(res) == exact(dbw@ + 30real),
{
    let offset = Rational::from_i64(30);
    or_unrepresentable(dbw.checked_add(&offset))
}

/// dBm to dBW and back, or dBW to dBm and back, returns the level: where
/// the first conversion succeeds, the second succeeds on its result.
pub proof fn lemma_dbm_dbw_round_trip(level: real)
    requires
        representable(level),
    ensures
        exact(level - 30real) matches Ok(dbw) ==> exact(dbw + 30real) == Ok::<real, RfError>(
            level,
        ),
        exact(level + 30real) matches Ok(dbm) ==> exact(dbm - 30real) == Ok::<real, RfError>(
            level,
        ),
{
}

} // verus!
