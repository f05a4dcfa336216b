//! The ways a conversion can fail.

use vstd::prelude::*;
use crate::fraction::representable;
use crate::rational::Rational;

verus! {

/// Why a conversion returned no value.
#[derive(Clone, Copy, Debug, PartialEq, Eq, Structural)]
pub enum RfError {
    /// The input is outside the function's domain: an empty stage chain.
    InvalidInput,
    /// The formula divides by a quantity that is zero.
    DivisionByZero,
    /// The result, or a quantity on the way to it, has no representation.
    Unrepresentable,
}

/// What a result denotes: the real number of a value, or the error.
pub open spec fn outcome(res: Result<Rational, RfError>) -> Result<real, RfError> {
    match res {
        Ok(q) => Ok(q@),
        Err(e) => Err(e),
    }
}

/// The value `v` where it has a representation, the error where it has not.
pub open spec fn exact(v: real) -> Result<real, RfError> {
    if representable(v) {
        Ok(v)
    } else {
        Err(RfError::Unrepresentable)
    }
}

/// The result of a checked operation as a `Result`.
pub(crate) fn or_unrepresentable(value: Option<Rational>) -> (res: Result<Rational, RfError>)
    ensures
        res == match value {
            Some(q) => Ok::<Rational, RfError>(q),
            None => Err(RfError::Unrepresentable),
        },
{
    match value {
        Some(q) => Ok(q),
        None => Err(RfError::Unrepresentable),
    }
}

} // verus!
