//! JSON numbers, which serde_json holds.

use vstd::prelude::*;

verus! {

/// `serde_json::Number`: an unsigned, a negative or a floating point number.
#[verifier::external_type_specification]
#[verifier::external_body]
pub struct ExNumber(serde_json::Number);

/// What `serde_json::Number::as_u64` returns of a number: the number itself where it is an
/// unsigned integer that fits in 64 bits.
pub uninterp spec fn number_u64(n: serde_json::Number) -> Option<u64>;

/// The number that `serde_json::Number::from` makes of an unsigned integer.
pub uninterp spec fn number_of(n: u64) -> serde_json::Number;

/// What `serde_json::Number::is_f64` returns of a number: whether it is a floating point number,
/// and not an integer.
pub uninterp spec fn number_is_float(n: serde_json::Number) -> bool;

/// `serde_json::Number::is_f64` returns the same for the same number.
#[verifier::external_body]
pub(crate) fn is_float(n: &serde_json::Number) -> (r: bool)
    ensures
        r == number_is_float(*n),
{
    n.is_f64()
}

/// `serde_json::Number::as_u64` returns the same for the same number.
#[verifier::external_body]
pub(crate) fn as_u64(n: &serde_json::Number) -> (r: Option<u64>)
    ensures
        r == number_u64(*n),
{
    n.as_u64()
}

/// `serde_json::Number::from` makes the number of an unsigned integer: `as_u64` gives that
/// integer back, and `is_f64` says that it is no floating point number.
#[verifier::external_body]
pub(crate) fn from_u64(n: u64) -> (r: serde_json::Number)
    ensures
        r == number_of(n),
        number_u64(r) == Some(n),
        !number_is_float(r),
{
    serde_json::Number::from(n)
}

/// `serde_json::Number::clone` copies the number.
pub assume_specification[ <serde_json::Number as Clone>::clone ](
    n: &serde_json::Number,
) -> (r: serde_json::Number)
    ensures
        r == *n,
;

} // verus!
