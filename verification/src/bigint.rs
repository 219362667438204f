//! Integers of any size, as far as number literals need them.
//!
//! The arithmetic is that of the `num` crate. Nothing here is proved: each
//! function states what the crate's own source shows of the call it makes.

use vstd::prelude::*;
use num::bigint::BigInt;
use num::bigint::ParseBigIntError;
use num::bigint::Sign;
use num::Num;
use crate::bytes::signed_be_bytes;
use crate::digits::{all_digits, digits_value, radix_digits};

verus! {

/// `num::bigint::BigInt`: an integer of any size. What it holds is told by
/// `bigint_value`.
#[verifier::external_type_specification]
#[verifier::external_body]
pub struct ExBigInt(BigInt);

/// `num::bigint::ParseBigIntError`: why `BigInt::from_str_radix` refused a
/// string. Nothing is told of what it holds.
#[verifier::external_type_specification]
#[verifier::external_body]
pub struct ExParseBigIntError(ParseBigIntError);

/// The integer that a `BigInt` holds.
pub uninterp spec fn bigint_value(n: BigInt) -> int;

/// `BigInt::from_str_radix` on a string of digits of `radix`, without sign
/// or underscores: the number that the digits spell. The one string it
/// refuses is the empty one.
#[verifier::external_body]
pub(crate) fn bigint_from_digits(digits: &str, radix: u32) -> (r: Result<BigInt, ParseBigIntError>)
    requires
        2 <= radix <= 36,
        all_digits(digits@, radix as nat),
    ensures
        r is Ok <==> digits@.len() > 0,
        r matches Ok(n) ==> bigint_value(n) == digits_value(digits@, radix as nat),
{
    BigInt::from_str_radix(digits, radix)
}

/// `BigInt::new` with the sign `Plus` and the single digit `d`: the number
/// `d`.
#[verifier::external_body]
pub(crate) fn bigint_from_u32(d: u32) -> (r: BigInt)
    ensures
        bigint_value(r) == d,
{
    BigInt::new(Sign::Plus, vec![d])
}

/// `Neg::neg` of a `BigInt`: the number with the other sign.
#[verifier::external_body]
pub(crate) fn bigint_negate(n: BigInt) -> (r: BigInt)
    ensures
        bigint_value(r) == -bigint_value(n),
{
    -n
}

/// `BigInt::to_signed_bytes_be`: the shortest two's-complement spelling of
/// the number, most significant byte first.
#[verifier::external_body]
pub(crate) fn bigint_signed_bytes(n: &BigInt) -> (r: Vec<u8>)
    ensures
        r@ == signed_be_bytes(bigint_value(*n)),
{
    n.to_signed_bytes_be()
}

/// `BigInt::to_str_radix` on a number that is not negative: its digits in
/// the radix, in lower case, without leading zeros.
#[verifier::external_body]
pub(crate) fn bigint_digits(n: &BigInt, radix: u32) -> (r: String)
    requires
        2 <= radix <= 36,
        bigint_value(*n) >= 0,
    ensures
        r@ == radix_digits(bigint_value(*n) as nat, radix as nat),
{
    n.to_str_radix(radix)
}

} // verus!
