//! Stored payloads. A payload is opaque to the store but for one question:
//! whether it is a 64-bit signed integer, and which.

use bson::Bson;
use vstd::prelude::*;

verus! {

/// `bson::Bson`, the payload type. Its variants are not read here.
#[verifier::external_type_specification]
#[verifier::external_body]
pub struct ExBson(bson::Bson);

/// What `Bson::as_i64` returns for a payload: the integer it holds, if it is
/// the 64-bit integer variant.
pub uninterp spec fn int_of(b: Bson) -> Option<i64>;

/// The payload that `Bson::Int64` builds from an integer.
pub uninterp spec fn int_value(n: i64) -> Bson;

/// Calls `Bson::as_i64`: `Some` of the integer for the 64-bit integer
/// variant, `None` for every other variant.
#[verifier::external_body]
pub(crate) fn as_int(b: &Bson) -> (r: Option<i64>)
    ensures
        r == int_of(*b),
{
    b.as_i64()
}

/// Builds the variant `Bson::Int64`. Read back through `Bson::as_i64` it
/// gives the same integer.
#[verifier::external_body]
pub(crate) fn from_int(n: i64) -> (b: Bson)
    ensures
        b == int_value(n),
        int_of(b) == Some(n),
{
    Bson::Int64(n)
}

} // verus!
