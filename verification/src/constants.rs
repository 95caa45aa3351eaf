//! The numbers that define Edwards448, each as a mathematical constant and as
//! the 57 little-endian bytes that the executable code computes with.

use crate::bytes::{le_from, le_nat, lemma_pow256_add, pow256};
use vstd::prelude::*;

verus! {

/// The prime `2^448 - 2^224 - 1` of the field that the curve is defined over.
pub open spec fn field_prime() -> nat {
    0xfffffffffffffffffffffffffffffffffffffffffffffffffffffffeffffffffffffffffffffffffffffffffffffffffffffffffffffffffnat
}

/// The prime order of the subgroup that the base point generates.
pub open spec fn group_order() -> nat {
    0x3fffffffffffffffffffffffffffffffffffffffffffffffffffffff7cca23e9c44edb49aed63690216cc2728dc58f552378c292ab5844f3nat
}

/// The curve's coefficient `d`, which is `-39081` taken modulo the field's prime.
pub open spec fn curve_d() -> nat {
    0xfffffffffffffffffffffffffffffffffffffffffffffffffffffffeffffffffffffffffffffffffffffffffffffffffffffffffffff6756nat
}

/// The x-coordinate of the base point.
pub open spec fn base_x() -> nat {
    0x4f1970c66bed0ded221d15a622bf36da9e146570470f1767ea6de324a3d3a46412ae1af72ab66511433b80e18b00938e2626a82bc70cc05enat
}

/// The y-coordinate of the base point.
pub open spec fn base_y() -> nat {
    0x693f46716eb6bc248876203756c9c7624bea73736ca3984087789c1e05a0c2d73ad3ff1ce67c39c4fdbd132c4ed7c8ad9808795bf230fa14nat
}

/// The exponent `(p + 1) / 4` that raises a square to one of its roots.
pub open spec fn root_exponent() -> nat {
    0x3fffffffffffffffffffffffffffffffffffffffffffffffffffffffc0000000000000000000000000000000000000000000000000000000nat
}

/// The bytes of [`field_prime`].
pub const MODULUS: [u8; 57] = [
    0xff, 0xff, 0xff, 0xff, 0xff, 0xff, 0xff, 0xff, 0xff, 0xff, 0xff, 0xff,
    0xff, 0xff, 0xff, 0xff, 0xff, 0xff, 0xff, 0xff, 0xff, 0xff, 0xff, 0xff,
    0xff, 0xff, 0xff, 0xff, 0xfe, 0xff, 0xff, 0xff, 0xff, 0xff, 0xff, 0xff,
    0xff, 0xff, 0xff, 0xff, 0xff, 0xff, 0xff, 0xff, 0xff, 0xff, 0xff, 0xff,
    0xff, 0xff, 0xff, 0xff, 0xff, 0xff, 0xff, 0xff, 0x00,
];

/// The bytes of [`group_order`].
pub const ORDER: [u8; 57] = [
    0xf3, 0x44, 0x58, 0xab, 0x92, 0xc2, 0x78, 0x23, 0x55, 0x8f, 0xc5, 0x8d,
    0x72, 0xc2, 0x6c, 0x21, 0x90, 0x36, 0xd6, 0xae, 0x49, 0xdb, 0x4e, 0xc4,
    0xe9, 0x23, 0xca, 0x7c, 0xff, 0xff, 0xff, 0xff, 0xff, 0xff, 0xff, 0xff,
    0xff, 0xff, 0xff, 0xff, 0xff, 0xff, 0xff, 0xff, 0xff, 0xff, 0xff, 0xff,
    0xff, 0xff, 0xff, 0xff, 0xff, 0xff, 0xff, 0x3f, 0x00,
];

/// The bytes of [`curve_d`].
pub const CURVE_D: [u8; 57] = [
    0x56, 0x67, 0xff, 0xff, 0xff, 0xff, 0xff, 0xff, 0xff, 0xff, 0xff, 0xff,
    0xff, 0xff, 0xff, 0xff, 0xff, 0xff, 0xff, 0xff, 0xff, 0xff, 0xff, 0xff,
    0xff, 0xff, 0xff, 0xff, 0xfe, 0xff, 0xff, 0xff, 0xff, 0xff, 0xff, 0xff,
    0xff, 0xff, 0xff, 0xff, 0xff, 0xff, 0xff, 0xff, 0xff, 0xff, 0xff, 0xff,
    0xff, 0xff, 0xff, 0xff, 0xff, 0xff, 0xff, 0xff, 0x00,
];

/// The bytes of [`base_x`].
pub const BASE_X: [u8; 57] = [
    0x5e, 0xc0, 0x0c, 0xc7, 0x2b, 0xa8, 0x26, 0x26, 0x8e, 0x93, 0x00, 0x8b,
    0xe1, 0x80, 0x3b, 0x43, 0x11, 0x65, 0xb6, 0x2a, 0xf7, 0x1a, 0xae, 0x12,
    0x64, 0xa4, 0xd3, 0xa3, 0x24, 0xe3, 0x6d, 0xea, 0x67, 0x17, 0x0f, 0x47,
    0x70, 0x65, 0x14, 0x9e, 0xda, 0x36, 0xbf, 0x22, 0xa6, 0x15, 0x1d, 0x22,
    0xed, 0x0d, 0xed, 0x6b, 0xc6, 0x70, 0x19, 0x4f, 0x00,
];

/// The bytes of [`base_y`].
pub const BASE_Y: [u8; 57] = [
    0x14, 0xfa, 0x30, 0xf2, 0x5b, 0x79, 0x08, 0x98, 0xad, 0xc8, 0xd7, 0x4e,
    0x2c, 0x13, 0xbd, 0xfd, 0xc4, 0x39, 0x7c, 0xe6, 0x1c, 0xff, 0xd3, 0x3a,
    0xd7, 0xc2, 0xa0, 0x05, 0x1e, 0x9c, 0x78, 0x87, 0x40, 0x98, 0xa3, 0x6c,
    0x73, 0x73, 0xea, 0x4b, 0x62, 0xc7, 0xc9, 0x56, 0x37, 0x20, 0x76, 0x88,
    0x24, 0xbc, 0xb6, 0x6e, 0x71, 0x46, 0x3f, 0x69, 0x00,
];

/// The bytes of [`root_exponent`].
pub const ROOT_EXPONENT: [u8; 57] = [
    0x00, 0x00, 0x00, 0x00, 0x00, 0x00, 0x00, 0x00, 0x00, 0x00, 0x00, 0x00,
    0x00, 0x00, 0x00, 0x00, 0x00, 0x00, 0x00, 0x00, 0x00, 0x00, 0x00, 0x00,
    0x00, 0x00, 0x00, 0xc0, 0xff, 0xff, 0xff, 0xff, 0xff, 0xff, 0xff, 0xff,
    0xff, 0xff, 0xff, 0xff, 0xff, 0xff, 0xff, 0xff, 0xff, 0xff, 0xff, 0xff,
    0xff, 0xff, 0xff, 0xff, 0xff, 0xff, 0xff, 0x3f, 0x00,
];

/// Eight bytes at a time: what `s` spells from index `i` on.
proof fn lemma_le_from_8(s: Seq<u8>, i: int)
    requires
        0 <= i,
        i + 8 <= s.len(),
    ensures
        le_from(s, i) == s[i] + 0x100 * s[i + 1] + 0x10000 * s[i + 2] + 0x1000000 * s[i + 3]
            + 0x100000000 * s[i + 4] + 0x10000000000 * s[i + 5] + 0x1000000000000 * s[i + 6]
            + 0x100000000000000 * s[i + 7] + 0x10000000000000000 * le_from(s, i + 8),
{
    reveal_with_fuel(le_from, 9);
}

/// What 57 bytes spell, written out in seven words and a last byte.
proof fn lemma_le_nat_57(s: Seq<u8>)
    requires
        s.len() == 57,
    ensures
        le_nat(s) == le_word(s, 0) + 0x10000000000000000 * (le_word(s, 8) + 0x10000000000000000
            * (le_word(s, 16) + 0x10000000000000000 * (le_word(s, 24) + 0x10000000000000000 * (
        le_word(s, 32) + 0x10000000000000000 * (le_word(s, 40) + 0x10000000000000000 * (le_word(
            s,
            48,
        ) + 0x10000000000000000 * s[56])))))),
{
    lemma_le_from_8(s, 0);
    lemma_le_from_8(s, 8);
    lemma_le_from_8(s, 16);
    lemma_le_from_8(s, 24);
    lemma_le_from_8(s, 32);
    lemma_le_from_8(s, 40);
    lemma_le_from_8(s, 48);
    reveal_with_fuel(le_from, 2);
}

/// The eight bytes of `s` from index `i` on, as one number.
spec fn le_word(s: Seq<u8>, i: int) -> int {
    s[i] + 0x100 * s[i + 1] + 0x10000 * s[i + 2] + 0x1000000 * s[i + 3] + 0x100000000 * s[i + 4]
        + 0x10000000000 * s[i + 5] + 0x1000000000000 * s[i + 6] + 0x100000000000000 * s[i + 7]
}

pub proof fn lemma_field_prime_bytes()
    ensures
        le_nat(MODULUS@) == field_prime(),
{
    lemma_le_nat_57(MODULUS@);
}

pub proof fn lemma_group_order_bytes()
    ensures
        le_nat(ORDER@) == group_order(),
{
    lemma_le_nat_57(ORDER@);
}

pub proof fn lemma_curve_d_bytes()
    ensures
        le_nat(CURVE_D@) == curve_d(),
{
    lemma_le_nat_57(CURVE_D@);
}

pub proof fn lemma_base_x_bytes()
    ensures
        le_nat(BASE_X@) == base_x(),
{
    lemma_le_nat_57(BASE_X@);
}

pub proof fn lemma_base_y_bytes()
    ensures
        le_nat(BASE_Y@) == base_y(),
{
    lemma_le_nat_57(BASE_Y@);
}

pub proof fn lemma_root_exponent_bytes()
    ensures
        le_nat(ROOT_EXPONENT@) == root_exponent(),
{
    lemma_le_nat_57(ROOT_EXPONENT@);
}

/// Powers of 256 that the bounds below are stated with.
pub proof fn lemma_pow256_values()
    ensures
        pow256(28) == 0x100000000000000000000000000000000000000000000000000000000nat,
        pow256(55)
            == 0x100000000000000000000000000000000000000000000000000000000000000000000000000000000000000000000000000000000000000nat,
        pow256(56) == 256 * pow256(55),
        pow256(57) == 256 * pow256(56),
        pow256(56) == pow256(28) * pow256(28),
{
    assert(pow256(7) == 0x100000000000000nat) by {
        reveal_with_fuel(pow256, 8);
    }
    lemma_pow256_add(7, 7);
    assert(pow256(14) == 0x10000000000000000000000000000nat);
    lemma_pow256_add(14, 14);
    assert(pow256(28) == 0x100000000000000000000000000000000000000000000000000000000nat);
    lemma_pow256_add(28, 28);
    assert(pow256(56) == 256 * pow256(55)) by {
        reveal_with_fuel(pow256, 2);
    }
    assert(pow256(57) == 256 * pow256(56)) by {
        reveal_with_fuel(pow256, 2);
    }
}

/// The shape of the constants: the prime is `2^448 - 2^224 - 1`, the order lies
/// just below `2^446`, `d` is `-39081` in the field, and the root exponent is a
/// quarter of the prime plus one.
pub proof fn lemma_constants_shape()
    ensures
        field_prime() == pow256(56) - pow256(28) - 1,
        field_prime() % 4 == 3,
        4 * root_exponent() == field_prime() + 1,
        curve_d() + 39081 == field_prime(),
        group_order() + 13818066809895115352007386748515426880336692474882178609894547503885
            == 64 * pow256(55),
        base_x() < field_prime(),
        base_y() < field_prime(),
        1 < group_order() < field_prime() < pow256(56) < pow256(57),
        base_x() % 2 == 0,
{
    lemma_pow256_values();
}

} // verus!
