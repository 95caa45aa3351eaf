//! Points of Edwards448, the curve `x^2 + y^2 = 1 + d x^2 y^2` over the field
//! of [`crate::field`], in projective coordinates `(X : Y : Z)`.
//!
//! The model of a point is its three coordinates, and the model of each
//! operation is the formula that it computes over the field. Equality is that
//! of the affine points `(X / Z, Y / Z)`, tested by cross-multiplication.

use crate::bytes::{le_bytes, le_from, le_nat, lemma_le_bytes_unique, take_57};
use crate::closure::{lemma_add_on_curve, lemma_double_on_curve};
use crate::constants::{base_x, base_y, curve_d, field_prime};
use crate::field::{fadd, fdiv, fmul, fneg, fsqrt, fsub, invertible, Field};
use crate::scalar::Scalar;
use crate::theorems::{lemma_base_on_curve, lemma_decoded_point, lemma_identity_on_curve};
use vstd::arithmetic::power2::{lemma2_to64, lemma_pow2_unfold, pow2};
use vstd::prelude::*;

verus! {

/// The coordinates of a point, each a residue of the field.
pub struct PointModel {
    pub x: nat,
    pub y: nat,
    pub z: nat,
}

/// The neutral element `(0, 1)`.
pub open spec fn identity() -> PointModel {
    PointModel { x: 0, y: 1, z: 1 }
}

/// The base point `B`.
pub open spec fn base_point() -> PointModel {
    PointModel { x: base_x(), y: base_y(), z: 1 }
}

/// The curve's equation in projective form:
/// `(X^2 + Y^2) Z^2 = Z^4 + d X^2 Y^2`.
pub open spec fn on_curve(p: PointModel) -> bool {
    let xx = fmul(p.x, p.x);
    let yy = fmul(p.y, p.y);
    let zz = fmul(p.z, p.z);
    fmul(fadd(xx, yy), zz) == fadd(fmul(zz, zz), fmul(curve_d(), fmul(xx, yy)))
}

/// The sum of two points, by the addition formulas that hold for every pair
/// of points of the curve.
pub open spec fn edwards_add(p: PointModel, q: PointModel) -> PointModel {
    let xcp = fmul(p.x, q.x);
    let ycp = fmul(p.y, q.y);
    let zcp = fmul(p.z, q.z);
    let b = fmul(zcp, zcp);
    let e = fmul(fmul(curve_d(), xcp), ycp);
    let f = fsub(b, e);
    let g = fadd(b, e);
    PointModel {
        x: fmul(fmul(zcp, f), fsub(fsub(fmul(fadd(p.x, p.y), fadd(q.x, q.y)), xcp), ycp)),
        y: fmul(fmul(zcp, g), fsub(ycp, xcp)),
        z: fmul(f, g),
    }
}

/// Twice a point, by the doubling formulas.
pub open spec fn edwards_double(p: PointModel) -> PointModel {
    let x1s = fmul(p.x, p.x);
    let y1s = fmul(p.y, p.y);
    let z1s = fmul(p.z, p.z);
    let xys = fadd(p.x, p.y);
    let f = fadd(x1s, y1s);
    let j = fsub(f, fadd(z1s, z1s));
    PointModel {
        x: fmul(fsub(fsub(fmul(xys, xys), x1s), y1s), j),
        y: fmul(f, fsub(x1s, y1s)),
        z: fmul(f, j),
    }
}

/// What is left of a multiplication by `k`: `acc` plus `k` times `run`, taking
/// the bits of `k` from the lowest up and doubling `run` at each.
pub open spec fn ladder(acc: PointModel, run: PointModel, k: nat) -> PointModel
    decreases k,
{
    if k == 0 {
        acc
    } else {
        ladder(if k % 2 == 1 { edwards_add(acc, run) } else { acc }, edwards_double(run), k / 2)
    }
}

/// The multiple `[k]P`.
pub open spec fn scalar_mul(p: PointModel, k: nat) -> PointModel {
    ladder(identity(), p, k)
}

/// Whether two triples stand for the same affine point.
pub open spec fn same_point(p: PointModel, q: PointModel) -> bool {
    fmul(p.x, q.z) == fmul(q.x, p.z) && fmul(p.y, q.z) == fmul(q.y, p.z)
}

/// The affine x-coordinate `X / Z`.
pub open spec fn affine_x(p: PointModel) -> nat {
    fdiv(p.x, p.z)
}

/// The affine y-coordinate `Y / Z`.
pub open spec fn affine_y(p: PointModel) -> nat {
    fdiv(p.y, p.z)
}

/// The 57 bytes of a point: the affine `y`, little-endian, with the lowest bit
/// of the affine `x` in the top bit of the last byte.
pub open spec fn encode_point(p: PointModel) -> Seq<u8> {
    let y_bytes = le_bytes(affine_y(p), 57);
    if affine_x(p) % 2 == 1 {
        y_bytes.update(56, y_bytes[56] | 0x80u8)
    } else {
        y_bytes
    }
}

/// The point that 57 bytes stand for, where they stand for one. The top bit
/// of the last byte is the sign of `x`; the rest spells `y`, which must lie
/// below `p`; `x` is the square root of `(y^2 - 1) / (d y^2 - 1)` with that
/// sign.
pub open spec fn decode_point(b: Seq<u8>) -> Option<PointModel> {
    if b.len() != 57 {
        None
    } else {
        let sign = b[56] >= 128;
        let y = le_nat(b.update(56, b[56] & 0x7fu8));
        let yy = fmul(y, y);
        let u = fsub(yy, 1);
        let v = fsub(fmul(curve_d(), yy), 1);
        if y >= field_prime() || !invertible(v) {
            None
        } else {
            match fsqrt(fdiv(u, v)) {
                None => None,
                Some(x) => if x == 0 && sign {
                    None
                } else {
                    Some(PointModel { x: if (x % 2 == 1) != sign { fneg(x) } else { x }, y, z: 1 })
                },
            }
        }
    }
}

/// A point of the curve.
#[derive(Clone, Copy)]
pub struct Point {
    x: Field,
    y: Field,
    z: Field,
}

impl View for Point {
    type V = PointModel;

    closed spec fn view(&self) -> PointModel {
        PointModel { x: self.x@, y: self.y@, z: self.z@ }
    }
}

impl Point {
    /// Each coordinate is a residue in range, and the point lies on the curve.
    pub closed spec fn wf(&self) -> bool {
        self.x.wf() && self.y.wf() && self.z.wf() && on_curve(self@)
    }

    /// What a well-formed point is, in terms of its model.
    pub proof fn lemma_wf(&self)
        requires
            self.wf(),
        ensures
            self@.x < field_prime(),
            self@.y < field_prime(),
            self@.z < field_prime(),
            on_curve(self@),
    {
        self.x.lemma_range();
        self.y.lemma_range();
        self.z.lemma_range();
    }

    /// The neutral element.
    pub fn identity() -> (r: Point)
        ensures
            r.wf(),
            r@ == identity(),
    {
        proof {
            lemma_identity_on_curve();
        }
        Point { x: Field::zero(), y: Field::one(), z: Field::one() }
    }

    /// The base point `B`.
    pub fn base() -> (r: Point)
        ensures
            r.wf(),
            r@ == base_point(),
    {
        proof {
            lemma_base_on_curve();
        }
        Point { x: Field::base_x(), y: Field::base_y(), z: Field::one() }
    }

    /// The sum of two points.
    pub fn add(&self, other: &Point) -> (r: Point)
        requires
            self.wf(),
            other.wf(),
        ensures
            r.wf(),
            r@ == edwards_add(self@, other@),
    {
        proof {
            lemma_add_on_curve(self@, other@);
        }
        let xcp = self.x.mul(&other.x);
        let ycp = self.y.mul(&other.y);
        let zcp = self.z.mul(&other.z);
        let b = zcp.square();
        let e = Field::curve_d().mul(&xcp).mul(&ycp);
        let f = b.sub(&e);
        let g = b.add(&e);
        let cross = self.x.add(&self.y).mul(&other.x.add(&other.y)).sub(&xcp).sub(&ycp);
        Point { x: zcp.mul(&f).mul(&cross), y: zcp.mul(&g).mul(&ycp.sub(&xcp)), z: f.mul(&g) }
    }

    /// Twice the point.
    pub fn double(&self) -> (r: Point)
        requires
            self.wf(),
        ensures
            r.wf(),
            r@ == edwards_double(self@),
    {
        proof {
            lemma_double_on_curve(self@);
        }
        let x1s = self.x.square();
        let y1s = self.y.square();
        let z1s = self.z.square();
        let xys = self.x.add(&self.y);
        let f = x1s.add(&y1s);
        let j = f.sub(&z1s.add(&z1s));
        Point { x: xys.square().sub(&x1s).sub(&y1s).mul(&j), y: f.mul(&x1s.sub(&y1s)), z: f.mul(&j) }
    }

    /// The multiple `[k]P`, in 456 steps whatever `k` is: one for each bit of
    /// its 57 bytes.
    pub fn scalar_mul(&self, k: &Scalar) -> (r: Point)
        requires
            self.wf(),
        ensures
            r.wf(),
            r@ == scalar_mul(self@, k@),
    {
        let bytes = k.to_bytes();
        let mut acc = Point::identity();
        let mut run = *self;
        let ghost mut rest: nat = k@;
        let mut i: usize = 0;
        while i < 57
            invariant
                i <= 57,
                acc.wf(),
                run.wf(),
                rest == le_from(bytes@, i as int),
                ladder(acc@, run@, rest) == scalar_mul(self@, k@),
            decreases 57 - i,
        {
            let mut cur: u8 = bytes[i];
            let ghost high = le_from(bytes@, i + 1);
            let ghost mut weight: nat = 256;
            let mut t: u8 = 0;
            proof {
                lemma2_to64();
            }
            while t < 8
                invariant
                    t <= 8,
                    acc.wf(),
                    run.wf(),
                    weight == pow2((8 - t) as nat),
                    cur < weight,
                    rest == cur + weight * high,
                    ladder(acc@, run@, rest) == scalar_mul(self@, k@),
                decreases 8 - t,
            {
                proof {
                    lemma_pow2_unfold((8 - t) as nat);
                    let half = pow2((7 - t) as nat);
                    assert(weight * high == 2 * (half * high)) by (nonlinear_arith)
                        requires
                            weight == 2 * half,
                    ;
                    assert(rest % 2 == cur % 2);
                    assert(rest / 2 == cur / 2 + half * high);
                    rest = rest / 2;
                    weight = half;
                }
                if cur % 2 == 1 {
                    acc = acc.add(&run);
                }
                run = run.double();
                cur = cur / 2;
                t = t + 1;
            }
            proof {
                assert(weight * high == high) by (nonlinear_arith)
                    requires
                        weight == 1,
                ;
            }
            i = i + 1;
        }
        acc
    }

    /// Whether two points are the same point of the curve.
    pub fn equals(&self, other: &Point) -> (r: bool)
        requires
            self.wf(),
            other.wf(),
        ensures
            r == same_point(self@, other@),
    {
        let xn1 = self.x.mul(&other.z);
        let xn2 = other.x.mul(&self.z);
        let yn1 = self.y.mul(&other.z);
        let yn2 = other.y.mul(&self.z);
        xn1.equals(&xn2) && yn1.equals(&yn2)
    }

    /// The 57 bytes of the point.
    pub fn encode(&self) -> (r: [u8; 57])
        requires
            self.wf(),
        ensures
            r@ == encode_point(self@),
    {
        let x = self.x.div(&self.z);
        let y = self.y.div(&self.z);
        let mut out = y.to_bytes();
        proof {
            lemma_le_bytes_unique(out@);
        }
        if x.is_odd() {
            out[56] = out[56] | 0x80;
        }
        out
    }

    /// The point that `bytes` stand for. `None` where they are not 57, where
    /// `y` is out of range, or where no `x` with the stored sign lies on the
    /// curve beside `y`.
    pub fn decode(bytes: &[u8]) -> (r: Option<Point>)
        ensures
            r is Some <==> decode_point(bytes@) is Some,
            r matches Some(p) ==> p.wf() && Some(p@) == decode_point(bytes@),
    {
        if bytes.len() != 57 {
            return None;
        }
        let mut y_bytes = take_57(bytes, 0);
        assert(y_bytes@ =~= bytes@);
        let sign = y_bytes[56] >= 128;
        y_bytes[56] = y_bytes[56] & 0x7f;
        let y = match Field::from_bytes(&y_bytes) {
            Some(y) => y,
            None => {
                return None;
            },
        };
        let one = Field::one();
        let yy = y.square();
        let u = yy.sub(&one);
        let v = Field::curve_d().mul(&yy).sub(&one);
        let v_inv = match v.invert() {
            Some(v_inv) => v_inv,
            None => {
                return None;
            },
        };
        let x = match u.mul(&v_inv).sqrt() {
            Some(x) => x,
            None => {
                return None;
            },
        };
        if x.is_zero() && sign {
            return None;
        }
        let x = if x.is_odd() != sign {
            x.neg()
        } else {
            x
        };
        proof {
            lemma_decoded_point(bytes@);
        }
        Some(Point { x, y, z: one })
    }
}

} // verus!
