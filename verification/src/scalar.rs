//! Scalars: the numbers that points are multiplied by.
//!
//! A scalar is 57 little-endian bytes. Those that enter a signature are
//! reduced modulo the order of the base point's subgroup.

use crate::bignum::{big_add, big_mul, big_rem};
use crate::bytes::{le_nat, less_than, low_bytes, pow256};
use crate::constants::{group_order, lemma_constants_shape, lemma_group_order_bytes, ORDER};
use vstd::arithmetic::div_mod::*;
use vstd::prelude::*;

verus! {

/// A number held as 57 little-endian bytes.
#[derive(Clone, Copy)]
pub struct Scalar {
    pub bytes: [u8; 57],
}

impl View for Scalar {
    type V = nat;

    /// The number that the bytes spell.
    open spec fn view(&self) -> nat {
        le_nat(self.bytes@)
    }
}

impl Scalar {
    /// The scalar that `bytes` spell.
    pub fn from_bytes(bytes: [u8; 57]) -> (r: Scalar)
        ensures
            r.bytes == bytes,
    {
        Scalar { bytes }
    }

    /// The bytes of the scalar.
    pub fn to_bytes(&self) -> (r: [u8; 57])
        ensures
            r == self.bytes,
    {
        self.bytes
    }

    /// The number that `v` spells, reduced modulo the group order.
    pub fn reduce(v: &[u8]) -> (r: Scalar)
        ensures
            r@ == le_nat(v@) % group_order(),
            r@ < group_order(),
    {
        proof {
            lemma_group_order_bytes();
            lemma_constants_shape();
        }
        let red = big_rem(v, &ORDER);
        let out = low_bytes(red.as_slice());
        proof {
            lemma_mod_bound(le_nat(v@) as int, group_order() as int);
            lemma_small_mod(le_nat(red@), pow256(57));
        }
        Scalar { bytes: out }
    }

    /// Whether the scalar lies below the group order, as the second half of a
    /// signature must.
    pub fn is_canonical(&self) -> (r: bool)
        ensures
            r == (self@ < group_order()),
    {
        proof {
            lemma_group_order_bytes();
        }
        less_than(&self.bytes, &ORDER)
    }

    /// `r + self * s` modulo the group order: the second half of a signature,
    /// where `self` is the challenge, `s` the secret scalar and `r` the nonce.
    pub fn mul_add(&self, s: &Scalar, r: &Scalar) -> (out: Scalar)
        ensures
            out@ == (r@ + self@ * s@) % group_order(),
            out@ < group_order(),
    {
        let product = big_mul(&self.bytes, &s.bytes);
        let sum = big_add(&r.bytes, product.as_slice());
        proof {
            lemma_constants_shape();
            lemma_mod_bound((r@ + self@ * s@) as int, group_order() as int);
        }
        Scalar::reduce(sum.as_slice())
    }
}

} // verus!
