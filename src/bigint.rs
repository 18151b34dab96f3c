//! Arbitrary-precision integers, taken from `num-bigint`.

use vstd::prelude::*;

verus! {

#[verifier::external_type_specification]
#[verifier::external_body]
pub struct ExBigInt(num_bigint::BigInt);

#[verifier::external_type_specification]
#[verifier::external_body]
pub struct ExParseBigIntError(num_bigint::ParseBigIntError);

/// The integer that `num-bigint` reads from a decimal text.
pub uninterp spec fn decimal_bigint(text: Seq<char>) -> num_bigint::BigInt;

/// A non-empty run of ASCII decimal digits.
pub open spec fn is_decimal_text(text: Seq<char>) -> bool {
    text.len() > 0 && forall|k: int| 0 <= k < text.len() ==> '0' <= #[trigger] text[k] <= '9'
}

/// Relies on `BigInt`'s `Clone`: the copy carries the same sign and magnitude.
pub assume_specification[ <num_bigint::BigInt as Clone>::clone ](
    b: &num_bigint::BigInt,
) -> (r: num_bigint::BigInt)
    ensures
        r == *b,
;

/// Relies on `BigInt`'s `FromStr` (radix 10): the value depends on the text
/// alone, and a non-empty run of ASCII digits is always accepted.
#[verifier::external_body]
pub(crate) fn parse_decimal(text: &String) -> (r: Result<
    num_bigint::BigInt,
    num_bigint::ParseBigIntError,
>)
    ensures
        r matches Ok(v) ==> v == decimal_bigint(text@),
        is_decimal_text(text@) ==> r is Ok,
{
    text.parse::<num_bigint::BigInt>()
}

} // verus!
