//! The field of integers modulo `p = 2^448 - 2^224 - 1`.
//!
//! An element is held as the 57 little-endian bytes of its representative in
//! `[0, p)`. The arithmetic on the bytes is done by [`crate::bignum`]; what is
//! proved here is that each operation returns the residue that the field's
//! definition asks for, reduced and in range.

use crate::bignum::{big_add, big_modinv, big_modpow, big_mul, big_rem, big_sub};
use crate::bytes::{
    le_from, le_nat, lemma_le_from_zeros, less_than, low_bytes, pow256, same_bytes,
};
use crate::constants::{
    base_x, base_y, curve_d, field_prime, lemma_base_x_bytes, lemma_base_y_bytes,
    lemma_constants_shape, lemma_curve_d_bytes, lemma_field_prime_bytes,
    lemma_root_exponent_bytes, root_exponent, BASE_X, BASE_Y, CURVE_D, MODULUS, ROOT_EXPONENT,
};
use vstd::arithmetic::div_mod::*;
use vstd::arithmetic::power::pow;
use vstd::prelude::*;

verus! {

/// The sum of two residues.
pub open spec fn fadd(a: nat, b: nat) -> nat {
    (a + b) % field_prime()
}

/// The difference of two residues.
pub open spec fn fsub(a: nat, b: nat) -> nat {
    ((a - b) % (field_prime() as int)) as nat
}

/// The product of two residues.
pub open spec fn fmul(a: nat, b: nat) -> nat {
    (a * b) % field_prime()
}

/// The additive inverse of a residue.
pub open spec fn fneg(a: nat) -> nat {
    fsub(0, a)
}

/// Whether `x` is the multiplicative inverse of `a` in the field.
pub open spec fn is_inverse(a: nat, x: nat) -> bool {
    x < field_prime() && (a * x) % field_prime() == 1
}

/// Whether `a` has a multiplicative inverse in the field.
pub open spec fn invertible(a: nat) -> bool {
    exists|x: nat| is_inverse(a, x)
}

/// The multiplicative inverse of `a`, and zero where `a` has none.
pub open spec fn finv(a: nat) -> nat {
    if invertible(a) {
        choose|x: nat| is_inverse(a, x)
    } else {
        0
    }
}

/// The quotient `a / b`, that is `a` times the inverse of `b`.
pub open spec fn fdiv(a: nat, b: nat) -> nat {
    fmul(a, finv(b))
}

/// The only number that can be a square root of `a` with this prime, which is
/// `3` modulo `4`: `a` to the power `(p + 1) / 4`.
pub open spec fn root_candidate(a: nat) -> nat {
    (pow(a as int, root_exponent()) % (field_prime() as int)) as nat
}

/// A square root of `a`: the candidate, where its square is `a`.
pub open spec fn fsqrt(a: nat) -> Option<nat> {
    if fmul(root_candidate(a), root_candidate(a)) == a {
        Some(root_candidate(a))
    } else {
        None
    }
}

/// A residue has at most one inverse.
pub proof fn lemma_inverse_unique(a: nat, x: nat, y: nat)
    requires
        is_inverse(a, x),
        is_inverse(a, y),
    ensures
        x == y,
{
    let m = field_prime() as int;
    let (a, x, y) = (a as int, x as int, y as int);
    lemma_mul_mod_noop_right(x, a * y, m);
    lemma_mul_mod_noop_right(y, a * x, m);
    assert(x * 1 == x && y * 1 == y);
    lemma_small_mod(x as nat, m as nat);
    lemma_small_mod(y as nat, m as nat);
    assert(x * (a * y) == y * (a * x)) by (nonlinear_arith);
}

/// Where `x` is an inverse of `a`, it is the inverse.
pub proof fn lemma_inverse_is(a: nat, x: nat)
    requires
        is_inverse(a, x),
    ensures
        invertible(a),
        finv(a) == x,
{
    let y = choose|y: nat| is_inverse(a, y);
    lemma_inverse_unique(a, x, y);
}

/// One is its own inverse.
pub proof fn lemma_inverse_of_one()
    ensures
        finv(1) == 1,
{
    assert(1nat * 1nat == 1);
    lemma_small_mod(1, field_prime());
    lemma_inverse_is(1, 1);
}

/// An element of the field.
#[derive(Clone, Copy)]
pub struct Field {
    bytes: [u8; 57],
}

impl View for Field {
    type V = nat;

    /// The representative that the bytes spell.
    closed spec fn view(&self) -> nat {
        le_nat(self.bytes@)
    }
}

impl Field {
    /// The representative lies in `[0, p)`.
    pub closed spec fn wf(&self) -> bool {
        le_nat(self.bytes@) < field_prime()
    }

    /// The 57 bytes that hold the element.
    pub closed spec fn repr(&self) -> Seq<u8> {
        self.bytes@
    }

    /// The bytes are 57, and spell the representative.
    pub proof fn lemma_repr(&self)
        ensures
            self.repr().len() == 57,
            le_nat(self.repr()) == self@,
    {
    }

    /// A well-formed element is a residue in range.
    pub proof fn lemma_range(&self)
        requires
            self.wf(),
        ensures
            self@ < field_prime(),
    {
    }

    /// The number that `v` spells, reduced modulo `p`.
    fn reduce(v: &Vec<u8>) -> (r: Field)
        ensures
            r.wf(),
            r@ == le_nat(v@) % field_prime(),
    {
        proof {
            lemma_field_prime_bytes();
            lemma_constants_shape();
        }
        let red = big_rem(v.as_slice(), &MODULUS);
        let out = low_bytes(red.as_slice());
        proof {
            lemma_mod_bound(le_nat(v@) as int, field_prime() as int);
            lemma_small_mod(le_nat(red@), pow256(57));
        }
        Field { bytes: out }
    }

    /// The element zero.
    pub fn zero() -> (r: Field)
        ensures
            r.wf(),
            r@ == 0,
    {
        let out = [0u8; 57];
        proof {
            lemma_le_from_zeros(out@, 0);
        }
        Field { bytes: out }
    }

    /// The element one.
    pub fn one() -> (r: Field)
        ensures
            r.wf(),
            r@ == 1,
    {
        let mut out = [0u8; 57];
        out[0] = 1;
        proof {
            lemma_le_from_zeros(out@, 1);
        }
        Field { bytes: out }
    }

    /// The curve's coefficient `d`.
    pub fn curve_d() -> (r: Field)
        ensures
            r.wf(),
            r@ == curve_d(),
    {
        proof {
            lemma_curve_d_bytes();
            lemma_constants_shape();
        }
        Field { bytes: CURVE_D }
    }

    /// The x-coordinate of the base point.
    pub fn base_x() -> (r: Field)
        ensures
            r.wf(),
            r@ == base_x(),
    {
        proof {
            lemma_base_x_bytes();
            lemma_constants_shape();
        }
        Field { bytes: BASE_X }
    }

    /// The y-coordinate of the base point.
    pub fn base_y() -> (r: Field)
        ensures
            r.wf(),
            r@ == base_y(),
    {
        proof {
            lemma_base_y_bytes();
            lemma_constants_shape();
        }
        Field { bytes: BASE_Y }
    }

    /// Reads an element from 57 bytes. The bytes must spell a number below `p`.
    pub fn from_bytes(bytes: &[u8; 57]) -> (r: Option<Field>)
        ensures
            r is Some <==> le_nat(bytes@) < field_prime(),
            r matches Some(f) ==> f.wf() && f@ == le_nat(bytes@) && f.repr() == bytes@,
    {
        proof {
            lemma_field_prime_bytes();
        }
        if less_than(bytes, &MODULUS) {
            Some(Field { bytes: *bytes })
        } else {
            None
        }
    }

    /// The 57 bytes of the representative.
    pub fn to_bytes(&self) -> (r: [u8; 57])
        ensures
            r@ == self.repr(),
            le_nat(r@) == self@,
    {
        self.bytes
    }

    /// The sum.
    pub fn add(&self, rhs: &Field) -> (r: Field)
        requires
            self.wf(),
            rhs.wf(),
        ensures
            r.wf(),
            r@ == fadd(self@, rhs@),
    {
        let sum = big_add(&self.bytes, &rhs.bytes);
        Field::reduce(&sum)
    }

    /// The difference.
    pub fn sub(&self, rhs: &Field) -> (r: Field)
        requires
            self.wf(),
            rhs.wf(),
        ensures
            r.wf(),
            r@ == fsub(self@, rhs@),
    {
        proof {
            lemma_field_prime_bytes();
        }
        let lifted = big_add(&self.bytes, &MODULUS);
        let diff = big_sub(lifted.as_slice(), &rhs.bytes);
        proof {
            lemma_mod_add_multiples_vanish(self@ - rhs@, field_prime() as int);
        }
        Field::reduce(&diff)
    }

    /// The product.
    pub fn mul(&self, rhs: &Field) -> (r: Field)
        requires
            self.wf(),
            rhs.wf(),
        ensures
            r.wf(),
            r@ == fmul(self@, rhs@),
    {
        let product = big_mul(&self.bytes, &rhs.bytes);
        Field::reduce(&product)
    }

    /// The square.
    pub fn square(&self) -> (r: Field)
        requires
            self.wf(),
        ensures
            r.wf(),
            r@ == fmul(self@, self@),
    {
        self.mul(self)
    }

    /// The negative.
    pub fn neg(&self) -> (r: Field)
        requires
            self.wf(),
        ensures
            r.wf(),
            r@ == fneg(self@),
    {
        proof {
            lemma_field_prime_bytes();
        }
        let diff = big_sub(&MODULUS, &self.bytes);
        proof {
            lemma_mod_add_multiples_vanish(0 - self@, field_prime() as int);
        }
        Field::reduce(&diff)
    }

    /// The multiplicative inverse, where there is one.
    pub fn invert(&self) -> (r: Option<Field>)
        requires
            self.wf(),
        ensures
            r is Some <==> invertible(self@),
            r matches Some(x) ==> x.wf() && x@ == finv(self@) && is_inverse(self@, x@),
    {
        proof {
            lemma_field_prime_bytes();
            lemma_constants_shape();
        }
        match big_modinv(&self.bytes, &MODULUS) {
            Some(x) => {
                let out = low_bytes(x.as_slice());
                proof {
                    lemma_small_mod(le_nat(x@), pow256(57));
                    lemma_inverse_is(self@, le_nat(x@));
                }
                Some(Field { bytes: out })
            },
            None => {
                proof {
                    assert forall|y: nat| !is_inverse(self@, y) by {
                        assert((self@ * y) % field_prime() != 1);
                    }
                }
                None
            },
        }
    }

    /// The quotient by `rhs`; zero where `rhs` has no inverse.
    pub fn div(&self, rhs: &Field) -> (r: Field)
        requires
            self.wf(),
            rhs.wf(),
        ensures
            r.wf(),
            r@ == fdiv(self@, rhs@),
    {
        match rhs.invert() {
            Some(x) => self.mul(&x),
            None => {
                proof {
                    assert(self@ * 0 == 0);
                    lemma_constants_shape();
                    lemma_small_mod(0, field_prime());
                }
                Field::zero()
            },
        }
    }

    /// A square root, where the element has one that the exponentiation finds.
    pub fn sqrt(&self) -> (r: Option<Field>)
        requires
            self.wf(),
        ensures
            r is Some <==> fsqrt(self@) is Some,
            r matches Some(x) ==> x.wf() && Some(x@) == fsqrt(self@) && fmul(x@, x@) == self@,
    {
        proof {
            lemma_field_prime_bytes();
            lemma_root_exponent_bytes();
            lemma_constants_shape();
        }
        let power = big_modpow(&self.bytes, &ROOT_EXPONENT, &MODULUS);
        let candidate = Field { bytes: low_bytes(power.as_slice()) };
        proof {
            lemma_mod_bound(pow(self@ as int, root_exponent()), field_prime() as int);
            lemma_small_mod(le_nat(power@), pow256(57));
        }
        let check = candidate.square();
        if check.equals(self) {
            Some(candidate)
        } else {
            None
        }
    }

    /// Whether two elements are the same residue.
    pub fn equals(&self, rhs: &Field) -> (r: bool)
        ensures
            r == (self@ == rhs@),
    {
        same_bytes(&self.bytes, &rhs.bytes)
    }

    /// Whether this is the element zero.
    pub fn is_zero(&self) -> (r: bool)
        ensures
            r == (self@ == 0),
    {
        let zero = [0u8; 57];
        proof {
            lemma_le_from_zeros(zero@, 0);
        }
        same_bytes(&self.bytes, &zero)
    }

    /// The lowest bit of the representative, which the encoding of a point
    /// stores as the sign of `x`.
    pub fn is_odd(&self) -> (r: bool)
        ensures
            r == (self@ % 2 == 1),
    {
        proof {
            reveal_with_fuel(le_from, 2);
        }
        self.bytes[0] % 2 == 1
    }

    /// `a` where `choice` holds, `b` where it does not.
    pub fn select(choice: bool, a: &Field, b: &Field) -> (r: Field)
        ensures
            r == (if choice { *a } else { *b }),
    {
        if choice {
            Field { bytes: a.bytes }
        } else {
            Field { bytes: b.bytes }
        }
    }
}

} // verus!
