//! Congruence modulo the field's prime, for the proofs that go from the
//! reduced results of the field's operations to equations between integers.

use crate::constants::{field_prime, lemma_constants_shape};
use crate::field::{fadd, fmul, fneg, fsub};
use vstd::arithmetic::div_mod::*;
use vstd::prelude::*;

verus! {

/// `a` and `b` leave the same remainder modulo the field's prime.
pub open spec fn congruent(a: int, b: int) -> bool {
    a % (field_prime() as int) == b % (field_prime() as int)
}

pub proof fn lemma_congruent_add(a: int, b: int, c: int, d: int)
    requires
        congruent(a, b),
        congruent(c, d),
    ensures
        congruent(a + c, b + d),
{
    let m = field_prime() as int;
    lemma_add_mod_noop(a, c, m);
    lemma_add_mod_noop(b, d, m);
}

pub proof fn lemma_congruent_sub(a: int, b: int, c: int, d: int)
    requires
        congruent(a, b),
        congruent(c, d),
    ensures
        congruent(a - c, b - d),
{
    let m = field_prime() as int;
    lemma_sub_mod_noop(a, c, m);
    lemma_sub_mod_noop(b, d, m);
}

pub proof fn lemma_congruent_mul(a: int, b: int, c: int, d: int)
    requires
        congruent(a, b),
        congruent(c, d),
    ensures
        congruent(a * c, b * d),
{
    let m = field_prime() as int;
    lemma_mul_mod_noop_general(a, c, m);
    lemma_mul_mod_noop_general(b, d, m);
}

/// A number is congruent to its remainder.
pub proof fn lemma_congruent_remainder(a: int)
    ensures
        congruent(a % (field_prime() as int), a),
        0 <= a % (field_prime() as int) < field_prime(),
{
    let m = field_prime() as int;
    lemma_mod_twice(a, m);
    lemma_mod_bound(a, m);
}

/// Two residues in range that are congruent are equal.
pub proof fn lemma_congruent_residues(a: int, b: int)
    requires
        0 <= a < field_prime(),
        0 <= b < field_prime(),
        congruent(a, b),
    ensures
        a == b,
{
    lemma_small_mod(a as nat, field_prime());
    lemma_small_mod(b as nat, field_prime());
}

/// The field's sum is congruent to the sum of integers, and lies in range.
pub proof fn lemma_fadd(a: nat, b: nat)
    ensures
        congruent(fadd(a, b) as int, (a + b) as int),
        fadd(a, b) < field_prime(),
{
    lemma_congruent_remainder((a + b) as int);
}

/// The field's difference is congruent to the difference of integers, and
/// lies in range.
pub proof fn lemma_fsub(a: nat, b: nat)
    ensures
        congruent(fsub(a, b) as int, a - b),
        fsub(a, b) < field_prime(),
{
    lemma_congruent_remainder(a - b);
}

/// The field's product is congruent to the product of integers, and lies in
/// range.
pub proof fn lemma_fmul(a: nat, b: nat)
    ensures
        congruent(fmul(a, b) as int, (a * b) as int),
        fmul(a, b) < field_prime(),
{
    lemma_congruent_remainder((a * b) as int);
}

/// A residue times one is itself.
pub proof fn lemma_fmul_one(a: nat)
    requires
        a < field_prime(),
    ensures
        fmul(a, 1) == a,
        fmul(1, a) == a,
{
    assert(a * 1 == a && 1 * a == a);
    lemma_small_mod(a, field_prime());
}

/// The negative of a residue: zero for zero, and the prime less the residue
/// for another, which has the other parity since the prime is odd.
pub proof fn lemma_fneg(a: nat)
    requires
        a < field_prime(),
    ensures
        fneg(a) < field_prime(),
        a == 0 ==> fneg(a) == 0,
        a != 0 ==> fneg(a) == field_prime() - a && fneg(a) % 2 != a % 2,
        fmul(fneg(a), fneg(a)) == fmul(a, a),
{
    let m = field_prime() as int;
    lemma_constants_shape();
    lemma_fsub(0, a);
    if a == 0 {
        lemma_small_mod(0, field_prime());
    } else {
        lemma_mod_add_multiples_vanish(0 - a, m);
        lemma_small_mod((m - a) as nat, field_prime());
    }
    let n = fneg(a) as int;
    lemma_congruent_mul(n, 0 - a, n, 0 - a);
    assert((0 - a) * (0 - a) == a * a) by (nonlinear_arith);
}

} // verus!
