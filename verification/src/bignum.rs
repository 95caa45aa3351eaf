//! Arithmetic on numbers of any size, done by `num_bigint`.
//!
//! The library holds its numbers as little-endian bytes. Each function here
//! hands two or three of them to `num_bigint::BigUint`, lets it compute, and
//! takes the bytes of the result. Nothing in this module is proved: each
//! contract restates what `num_bigint` documents of the operation.

use crate::bytes::le_nat;
use num_bigint::BigUint;
use vstd::arithmetic::power::pow;
use vstd::prelude::*;

verus! {

/// `BigUint`'s `+`: the result spells the sum of what `a` and `b` spell.
#[verifier::external_body]
pub(crate) fn big_add(a: &[u8], b: &[u8]) -> (r: Vec<u8>)
    ensures
        le_nat(r@) == le_nat(a@) + le_nat(b@),
{
    (BigUint::from_bytes_le(a) + BigUint::from_bytes_le(b)).to_bytes_le()
}

/// `BigUint`'s `-`, which panics where the difference would be negative: the
/// result spells the difference of what `a` and `b` spell.
#[verifier::external_body]
pub(crate) fn big_sub(a: &[u8], b: &[u8]) -> (r: Vec<u8>)
    requires
        le_nat(a@) >= le_nat(b@),
    ensures
        le_nat(r@) == le_nat(a@) - le_nat(b@),
{
    (BigUint::from_bytes_le(a) - BigUint::from_bytes_le(b)).to_bytes_le()
}

/// `BigUint`'s `*`: the result spells the product of what `a` and `b` spell.
#[verifier::external_body]
pub(crate) fn big_mul(a: &[u8], b: &[u8]) -> (r: Vec<u8>)
    ensures
        le_nat(r@) == le_nat(a@) * le_nat(b@),
{
    (BigUint::from_bytes_le(a) * BigUint::from_bytes_le(b)).to_bytes_le()
}

/// `BigUint`'s `%`, which panics on a zero divisor: the result spells the
/// remainder of what `a` spells on division by what `m` spells.
#[verifier::external_body]
pub(crate) fn big_rem(a: &[u8], m: &[u8]) -> (r: Vec<u8>)
    requires
        le_nat(m@) > 0,
    ensures
        le_nat(r@) == le_nat(a@) % le_nat(m@),
{
    (BigUint::from_bytes_le(a) % BigUint::from_bytes_le(m)).to_bytes_le()
}

/// `BigUint::modpow`, documented to return `(self ^ exponent) % modulus`: the
/// result spells the power of `base` by `exponent`, reduced modulo `m`.
#[verifier::external_body]
pub(crate) fn big_modpow(base: &[u8], exponent: &[u8], m: &[u8]) -> (r: Vec<u8>)
    requires
        le_nat(m@) > 1,
    ensures
        le_nat(r@) == pow(le_nat(base@) as int, le_nat(exponent@)) % (le_nat(m@) as int),
{
    BigUint::from_bytes_le(base).modpow(
        &BigUint::from_bytes_le(exponent),
        &BigUint::from_bytes_le(m),
    ).to_bytes_le()
}

/// `BigUint::modinv`, documented to solve `self * x = 1 (mod modulus)` for `x`
/// below the modulus and to return `None` where no such `x` exists.
#[verifier::external_body]
pub(crate) fn big_modinv(a: &[u8], m: &[u8]) -> (r: Option<Vec<u8>>)
    requires
        le_nat(m@) > 1,
    ensures
        match r {
            Some(x) => le_nat(x@) < le_nat(m@) && (le_nat(a@) * le_nat(x@)) % le_nat(m@) == 1,
            None => forall|y: nat| #[trigger] ((le_nat(a@) * y) % le_nat(m@)) != 1,
        },
{
    match BigUint::from_bytes_le(a).modinv(&BigUint::from_bytes_le(m)) {
        Some(x) => Some(x.to_bytes_le()),
        None => None,
    }
}

} // verus!
