use crate::endian::Endianness;
use num_bigint::{BigInt, Sign};
use vstd::prelude::*;

verus! {

#[verifier::external_type_specification]
#[verifier::external_body]
pub struct ExBigInt(BigInt);

/// The `BigInt` that `BigInt::from_bytes_be(Sign::Plus, bytes)` returns.
pub uninterp spec fn bigint_from_unsigned_be(bytes: Seq<u8>) -> BigInt;

/// The `BigInt` that `BigInt::from_bytes_le(Sign::Plus, bytes)` returns.
pub uninterp spec fn bigint_from_unsigned_le(bytes: Seq<u8>) -> BigInt;

/// The `BigInt` that `BigInt::from_signed_bytes_be(bytes)` returns.
pub uninterp spec fn bigint_from_signed_be(bytes: Seq<u8>) -> BigInt;

/// The `BigInt` that `BigInt::from_signed_bytes_le(bytes)` returns.
pub uninterp spec fn bigint_from_signed_le(bytes: Seq<u8>) -> BigInt;

/// Calls `BigInt::from_bytes_be` with a plus sign: the non-negative number
/// whose big-endian bytes are `bytes`. Its result is named, not described:
/// a `BigInt` is opaque here.
#[verifier::external_body]
pub(crate) fn unsigned_be_to_bigint(bytes: &[u8]) -> (r: BigInt)
    ensures
        r == bigint_from_unsigned_be(bytes@),
{
    BigInt::from_bytes_be(Sign::Plus, bytes)
}

/// Calls `BigInt::from_bytes_le` with a plus sign: the non-negative number
/// whose little-endian bytes are `bytes`. Its result is named, not described.
#[verifier::external_body]
pub(crate) fn unsigned_le_to_bigint(bytes: &[u8]) -> (r: BigInt)
    ensures
        r == bigint_from_unsigned_le(bytes@),
{
    BigInt::from_bytes_le(Sign::Plus, bytes)
}

/// Calls `BigInt::from_signed_bytes_be`: the number whose two's complement
/// big-endian bytes are `bytes`. Its result is named, not described.
#[verifier::external_body]
pub(crate) fn signed_be_to_bigint(bytes: &[u8]) -> (r: BigInt)
    ensures
        r == bigint_from_signed_be(bytes@),
{
    BigInt::from_signed_bytes_be(bytes)
}

/// Calls `BigInt::from_signed_bytes_le`: the number whose two's complement
/// little-endian bytes are `bytes`. Its result is named, not described.
#[verifier::external_body]
pub(crate) fn signed_le_to_bigint(bytes: &[u8]) -> (r: BigInt)
    ensures
        r == bigint_from_signed_le(bytes@),
{
    BigInt::from_signed_bytes_le(bytes)
}

/// The `BigInt` that `bytes` give in the concrete byte order `order`, read as
/// two's complement when `signed`.
pub open spec fn bigint_of(bytes: Seq<u8>, signed: bool, order: Endianness) -> BigInt
    recommends
        order != Endianness::Native,
{
    match order {
        Endianness::Little => if signed {
            bigint_from_signed_le(bytes)
        } else {
            bigint_from_unsigned_le(bytes)
        },
        _ => if signed {
            bigint_from_signed_be(bytes)
        } else {
            bigint_from_unsigned_be(bytes)
        },
    }
}

/// The `BigInt` that `bytes` give in the byte order `order`, read as two's
/// complement when `signed`; `Native` stands for the machine's byte order.
pub fn bytes_to_bigint(bytes: &[u8], signed: bool, order: Endianness) -> (r: BigInt)
    ensures
        order != Endianness::Native ==> r == bigint_of(bytes@, signed, order),
        order == Endianness::Native ==> r == bigint_of(bytes@, signed, Endianness::Big) || r
            == bigint_of(bytes@, signed, Endianness::Little),
{
    match order.resolve() {
        Endianness::Little => if signed {
            signed_le_to_bigint(bytes)
        } else {
            unsigned_le_to_bigint(bytes)
        },
        _ => if signed {
            signed_be_to_bigint(bytes)
        } else {
            unsigned_be_to_bigint(bytes)
        },
    }
}

} // verus!
