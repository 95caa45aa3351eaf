//! What the formulas for points have of a group law: the order of two points
//! does not matter to their sum, the neutral element changes nothing, and the
//! double of a point is its sum with itself.
//!
//! Equality of points is that of [`same_point`], the equality of the affine
//! points that two triples stand for.

use crate::closure::{
    add_poly, curve_lhs, curve_rhs, double_poly, lemma_add_congruent, lemma_double_congruent,
    lemma_fmul_congruent, lemma_on_curve_congruence, lemma_regroup, lemma_three,
};
use crate::constants::curve_d;
use crate::field::{fadd, fmul};
use crate::modular::{
    congruent, lemma_congruent_mul, lemma_congruent_residues, lemma_congruent_sub, lemma_fmul,
};
use crate::point::{edwards_add, edwards_double, identity, on_curve, same_point, PointModel};
use vstd::prelude::*;

verus! {

/// Two triples stand for the same point where their cross products are
/// congruent.
proof fn lemma_same_point(p: PointModel, q: PointModel, px: int, py: int, pz: int, qx: int, qy: int, qz: int)
    requires
        congruent(p.x as int, px),
        congruent(p.y as int, py),
        congruent(p.z as int, pz),
        congruent(q.x as int, qx),
        congruent(q.y as int, qy),
        congruent(q.z as int, qz),
        congruent(px * qz, qx * pz),
        congruent(py * qz, qy * pz),
    ensures
        same_point(p, q),
{
    lemma_fmul_congruent(p.x, q.z, px, qz);
    lemma_fmul_congruent(q.x, p.z, qx, pz);
    lemma_fmul_congruent(p.y, q.z, py, qz);
    lemma_fmul_congruent(q.y, p.z, qy, pz);
    lemma_fmul(p.x, q.z);
    lemma_fmul(q.x, p.z);
    lemma_fmul(p.y, q.z);
    lemma_fmul(q.y, p.z);
    lemma_congruent_residues(fmul(p.x, q.z) as int, fmul(q.x, p.z) as int);
    lemma_congruent_residues(fmul(p.y, q.z) as int, fmul(q.y, p.z) as int);
}

/// The sum of two points does not depend on their order.
pub proof fn lemma_add_commutative(p: PointModel, q: PointModel)
    ensures
        edwards_add(p, q) == edwards_add(q, p),
{
    assert(p.x * q.x == q.x * p.x) by (nonlinear_arith);
    assert(p.y * q.y == q.y * p.y) by (nonlinear_arith);
    assert(p.z * q.z == q.z * p.z) by (nonlinear_arith);
    let sp = fadd(p.x, p.y);
    let sq = fadd(q.x, q.y);
    assert(sp * sq == sq * sp) by (nonlinear_arith);
}

/// The neutral element changes nothing: `P + O` is `P`.
pub proof fn lemma_add_identity(p: PointModel)
    ensures
        same_point(edwards_add(p, identity()), p),
{
    let r = edwards_add(p, identity());
    let x = p.x as int;
    let y = p.y as int;
    let z = p.z as int;
    let c = z * z;
    let poly = add_poly(x, y, z, 0, 1, 1);
    lemma_add_congruent(p, identity());
    assert(x * 0 == 0 && y * 1 == y && z * 1 == z);
    assert((curve_d() * 0) * y == 0) by (nonlinear_arith);
    assert((x + y) * (0 + 1) == x + y);
    assert(poly.0 == (z * c) * x);
    assert(poly.1 == (z * c) * y);
    assert(poly.2 == c * c);
    // x z^4 on both sides, and y z^4
    lemma_three(z, c, z);
    assert((z * c) * z == c * c) by {
        assert((z * c) * z == (z * z) * c);
    }
    lemma_three(z * c, x, z);
    assert(((z * c) * x) * z == x * (c * c)) by {
        assert(((z * c) * x) * z == ((z * c) * z) * x);
        assert((c * c) * x == x * (c * c)) by (nonlinear_arith);
    }
    lemma_three(z * c, y, z);
    assert(((z * c) * y) * z == y * (c * c)) by {
        assert(((z * c) * y) * z == ((z * c) * z) * y);
        assert((c * c) * y == y * (c * c)) by (nonlinear_arith);
    }
    lemma_same_point(r, p, poly.0, poly.1, poly.2, x, y, z);
}

/// The double of a point of the curve is its sum with itself.
pub proof fn lemma_double_is_add(p: PointModel)
    requires
        on_curve(p),
    ensures
        same_point(edwards_double(p), edwards_add(p, p)),
{
    let d = curve_d() as int;
    let x = p.x as int;
    let y = p.y as int;
    let z = p.z as int;
    let a = x * x;
    let b = y * y;
    let c = z * z;
    let s = x + y;
    let fd = a + b;
    let j = fd - (c + c);
    let t = ((s * s) - a) - b;
    let n = a - b;
    let bb = c * c;
    let e = (d * a) * b;
    let f = bb - e;
    let g = bb + e;
    let dbl = double_poly(x, y, z);
    let sum = add_poly(x, y, z, x, y, z);
    lemma_double_congruent(p);
    lemma_add_congruent(p, p);
    lemma_on_curve_congruence(p);
    assert(dbl.0 == t * j && dbl.1 == fd * n && dbl.2 == fd * j);
    assert(sum.0 == (c * f) * t && sum.1 == (c * g) * (b - a) && sum.2 == f * g);
    // the curve's equation: c fd = c^2 + d a b = g
    lemma_three(d, a, b);
    assert(curve_lhs(x, y, z) == fd * c);
    assert(curve_rhs(x, y, z) == g);
    assert(fd * c == c * fd) by (nonlinear_arith);
    assert(congruent(c * fd, g));
    // the x-coordinates: t j f g = t j f (c fd)
    lemma_congruent_mul((t * j) * f, (t * j) * f, g, c * fd);
    lemma_three(t * j, f, g);
    assert((t * j) * (f * g) == ((t * j) * f) * g);
    assert(((t * j) * f) * (c * fd) == ((c * f) * t) * (fd * j)) by {
        lemma_regroup(t * j, f, c, fd);
        assert(((t * j) * f) * (c * fd) == ((t * j) * fd) * (f * c));
        lemma_three(t, j, fd);
        assert((t * j) * fd == t * (j * fd));
        assert(j * fd == fd * j) by (nonlinear_arith);
        assert(f * c == c * f) by (nonlinear_arith);
        assert((t * (fd * j)) * (c * f) == (c * f) * (t * (fd * j))) by (nonlinear_arith);
        lemma_three(c * f, t, fd * j);
    }
    // the y-coordinates: -c j = 2 c^2 - c fd = c^2 - d a b = f
    let cj = c * j;
    assert(cj == c * fd - (bb + bb)) by (nonlinear_arith)
        requires
            cj == c * j,
            j == fd - (c + c),
            bb == c * c,
    ;
    lemma_congruent_sub(bb + bb, bb + bb, c * fd, g);
    assert(congruent(0 - cj, f));
    lemma_congruent_mul((fd * n) * g, (fd * n) * g, f, 0 - cj);
    lemma_regroup(fd * n, 1, f, g);
    lemma_three(fd * n, f, g);
    assert((fd * n) * (f * g) == ((fd * n) * g) * f);
    assert(((fd * n) * g) * (0 - cj) == ((c * g) * (b - a)) * (fd * j)) by {
        let m = b - a;
        assert(n == 0 - m);
        assert(((fd * n) * g) * (0 - cj) == ((fd * m) * g) * cj) by (nonlinear_arith)
            requires
                n == 0 - m,
        ;
        lemma_three(fd, m, g);
        assert((fd * m) * g == (g * m) * fd) by {
            assert((fd * m) * g == fd * (m * g));
            assert(m * g == g * m) by (nonlinear_arith);
            assert(fd * (g * m) == (g * m) * fd) by (nonlinear_arith);
        }
        lemma_regroup(g * m, fd, c, j);
        assert(((g * m) * fd) * (c * j) == ((g * m) * c) * (fd * j));
        lemma_three(g, m, c);
        assert((g * m) * c == (c * g) * m) by {
            assert((g * m) * c == (g * c) * m);
            assert(g * c == c * g) by (nonlinear_arith);
        }
    }
    lemma_same_point(edwards_double(p), edwards_add(p, p), dbl.0, dbl.1, dbl.2, sum.0, sum.1, sum.2);
}

} // verus!
