//! The sum and the double of points of the curve lie on the curve.
//!
//! The proofs go through the integers: each formula of [`crate::point`] is
//! congruent to a polynomial in the coordinates, and the curve's equation for
//! the result follows from that of the arguments by an identity between
//! polynomials.

use crate::constants::curve_d;
use crate::field::{fadd, fmul, fsub};
use crate::modular::{
    congruent, lemma_congruent_add, lemma_congruent_mul, lemma_congruent_residues,
    lemma_congruent_sub, lemma_fadd, lemma_fmul, lemma_fsub,
};
use crate::point::{edwards_add, edwards_double, ladder, on_curve, PointModel};
use vstd::prelude::*;

verus! {

/// The left side of the curve's equation, `(x^2 + y^2) z^2`, over the integers.
pub open spec fn curve_lhs(x: int, y: int, z: int) -> int {
    (x * x + y * y) * (z * z)
}

/// The right side of the curve's equation, `z^4 + d x^2 y^2`, over the integers.
pub open spec fn curve_rhs(x: int, y: int, z: int) -> int {
    (z * z) * (z * z) + curve_d() * ((x * x) * (y * y))
}

/// The doubling formulas as polynomials.
pub open spec fn double_poly(x: int, y: int, z: int) -> (int, int, int) {
    let a = x * x;
    let b = y * y;
    let c = z * z;
    let s = x + y;
    let f = a + b;
    let j = f - (c + c);
    ((((s * s) - a) - b) * j, f * (a - b), f * j)
}

/// The addition formulas as polynomials.
pub open spec fn add_poly(x1: int, y1: int, z1: int, x2: int, y2: int, z2: int) -> (
    int,
    int,
    int,
) {
    let c = x1 * x2;
    let d = y1 * y2;
    let a = z1 * z2;
    let b = a * a;
    let e = (curve_d() * c) * d;
    let f = b - e;
    let g = b + e;
    ((a * f) * ((((x1 + y1) * (x2 + y2)) - c) - d), (a * g) * (d - c), f * g)
}

pub proof fn lemma_fmul_congruent(a: nat, b: nat, pa: int, pb: int)
    requires
        congruent(a as int, pa),
        congruent(b as int, pb),
    ensures
        congruent(fmul(a, b) as int, pa * pb),
{
    lemma_fmul(a, b);
    lemma_congruent_mul(a as int, pa, b as int, pb);
}

proof fn lemma_fadd_congruent(a: nat, b: nat, pa: int, pb: int)
    requires
        congruent(a as int, pa),
        congruent(b as int, pb),
    ensures
        congruent(fadd(a, b) as int, pa + pb),
{
    lemma_fadd(a, b);
    lemma_congruent_add(a as int, pa, b as int, pb);
}

proof fn lemma_fsub_congruent(a: nat, b: nat, pa: int, pb: int)
    requires
        congruent(a as int, pa),
        congruent(b as int, pb),
    ensures
        congruent(fsub(a, b) as int, pa - pb),
{
    lemma_fsub(a, b);
    lemma_congruent_sub(a as int, pa, b as int, pb);
}

/// The two sides of the curve's equation respect congruence.
proof fn lemma_curve_sides_congruent(x: int, y: int, z: int, px: int, py: int, pz: int)
    requires
        congruent(x, px),
        congruent(y, py),
        congruent(z, pz),
    ensures
        congruent(curve_lhs(x, y, z), curve_lhs(px, py, pz)),
        congruent(curve_rhs(x, y, z), curve_rhs(px, py, pz)),
{
    let d = curve_d() as int;
    lemma_congruent_mul(x, px, x, px);
    lemma_congruent_mul(y, py, y, py);
    lemma_congruent_mul(z, pz, z, pz);
    lemma_congruent_add(x * x, px * px, y * y, py * py);
    lemma_congruent_mul(x * x + y * y, px * px + py * py, z * z, pz * pz);
    lemma_congruent_mul(z * z, pz * pz, z * z, pz * pz);
    lemma_congruent_mul(x * x, px * px, y * y, py * py);
    lemma_congruent_mul(d, d, (x * x) * (y * y), (px * px) * (py * py));
    lemma_congruent_add(
        (z * z) * (z * z),
        (pz * pz) * (pz * pz),
        d * ((x * x) * (y * y)),
        d * ((px * px) * (py * py)),
    );
}

/// A point lies on the curve where the two sides of the equation, taken over
/// the integers, are congruent.
pub proof fn lemma_on_curve_congruence(p: PointModel)
    ensures
        on_curve(p) <==> congruent(
            curve_lhs(p.x as int, p.y as int, p.z as int),
            curve_rhs(p.x as int, p.y as int, p.z as int),
        ),
{
    let x = p.x as int;
    let y = p.y as int;
    let z = p.z as int;
    let d = curve_d();
    let xx = fmul(p.x, p.x);
    let yy = fmul(p.y, p.y);
    let zz = fmul(p.z, p.z);
    lemma_fmul_congruent(p.x, p.x, x, x);
    lemma_fmul_congruent(p.y, p.y, y, y);
    lemma_fmul_congruent(p.z, p.z, z, z);
    lemma_fadd_congruent(xx, yy, x * x, y * y);
    lemma_fmul_congruent(fadd(xx, yy), zz, x * x + y * y, z * z);
    lemma_fmul_congruent(zz, zz, z * z, z * z);
    lemma_fmul_congruent(xx, yy, x * x, y * y);
    lemma_fmul_congruent(d, fmul(xx, yy), d as int, (x * x) * (y * y));
    lemma_fadd_congruent(
        fmul(zz, zz),
        fmul(d, fmul(xx, yy)),
        (z * z) * (z * z),
        d * ((x * x) * (y * y)),
    );
    let lhs = fmul(fadd(xx, yy), zz);
    let rhs = fadd(fmul(zz, zz), fmul(d, fmul(xx, yy)));
    lemma_fmul(fadd(xx, yy), zz);
    lemma_fadd(fmul(zz, zz), fmul(d, fmul(xx, yy)));
    if congruent(lhs as int, rhs as int) {
        lemma_congruent_residues(lhs as int, rhs as int);
    }
}

/// The coordinates of a double are congruent to the doubling polynomials.
pub proof fn lemma_double_congruent(p: PointModel)
    ensures
        congruent(edwards_double(p).x as int, double_poly(p.x as int, p.y as int, p.z as int).0),
        congruent(edwards_double(p).y as int, double_poly(p.x as int, p.y as int, p.z as int).1),
        congruent(edwards_double(p).z as int, double_poly(p.x as int, p.y as int, p.z as int).2),
{
    let x = p.x as int;
    let y = p.y as int;
    let z = p.z as int;
    let a = x * x;
    let b = y * y;
    let c = z * z;
    let x1s = fmul(p.x, p.x);
    let y1s = fmul(p.y, p.y);
    let z1s = fmul(p.z, p.z);
    let xys = fadd(p.x, p.y);
    let f = fadd(x1s, y1s);
    let j = fsub(f, fadd(z1s, z1s));
    lemma_fmul_congruent(p.x, p.x, x, x);
    lemma_fmul_congruent(p.y, p.y, y, y);
    lemma_fmul_congruent(p.z, p.z, z, z);
    lemma_fadd_congruent(p.x, p.y, x, y);
    lemma_fadd_congruent(x1s, y1s, a, b);
    lemma_fadd_congruent(z1s, z1s, c, c);
    lemma_fsub_congruent(f, fadd(z1s, z1s), a + b, c + c);
    lemma_fmul_congruent(xys, xys, x + y, x + y);
    lemma_fsub_congruent(fmul(xys, xys), x1s, (x + y) * (x + y), a);
    lemma_fsub_congruent(fsub(fmul(xys, xys), x1s), y1s, (x + y) * (x + y) - a, b);
    lemma_fmul_congruent(
        fsub(fsub(fmul(xys, xys), x1s), y1s),
        j,
        ((x + y) * (x + y) - a) - b,
        (a + b) - (c + c),
    );
    lemma_fsub_congruent(x1s, y1s, a, b);
    lemma_fmul_congruent(f, fsub(x1s, y1s), a + b, a - b);
    lemma_fmul_congruent(f, j, a + b, (a + b) - (c + c));
}

/// `(x + y)^2 - x^2 - y^2` squared is `4 x^2 y^2`.
proof fn lemma_cross_term(x: int, y: int)
    ensures
        ((((x + y) * (x + y)) - x * x) - y * y) * ((((x + y) * (x + y)) - x * x) - y * y) == 4 * ((x
            * x) * (y * y)),
{
    let t = (((x + y) * (x + y)) - x * x) - y * y;
    assert(t == 2 * (x * y)) by (nonlinear_arith)
        requires
            t == (((x + y) * (x + y)) - x * x) - y * y,
    ;
    assert((2 * (x * y)) * (2 * (x * y)) == 4 * ((x * x) * (y * y))) by (nonlinear_arith);
}

/// The square of a product is the product of the squares.
pub proof fn lemma_square_of_product(a: int, b: int)
    ensures
        (a * b) * (a * b) == (a * a) * (b * b),
{
    assert((a * b) * (a * b) == (a * a) * (b * b)) by (nonlinear_arith);
}

/// Four factors, two of them exchanged.
proof fn lemma_exchange(p: int, q: int, r: int, s: int)
    ensures
        (p * q) * (r * s) == (r * q) * (p * s),
{
    assert((p * q) * (r * s) == (r * q) * (p * s)) by (nonlinear_arith);
}

/// The identity behind the doubling formulas, in the squares `ff` of
/// `f = a + b`, `nn` of `a - b` and `jj` of `j = f - 2 c`.
proof fn lemma_double_combine(ff: int, nn: int, jj: int, ab4: int, k: int)
    requires
        ff == nn + ab4,
        jj == ff - 4 * k,
    ensures
        ab4 * jj + ff * nn == ff * jj + 4 * nn * k,
{
    assert((ff - nn) * jj + ff * nn == ff * jj + 4 * nn * k) by (nonlinear_arith)
        requires
            jj == ff - 4 * k,
    ;
}

/// The identity behind the doubling formulas, in `a = x^2`, `b = y^2` and
/// `c = z^2`.
proof fn lemma_double_identity(a: int, b: int, c: int, tt: int)
    requires
        tt == 4 * (a * b),
    ensures
        ({
            let f = a + b;
            let j = f - (c + c);
            let q = (a - b) * (a - b);
            tt * (j * j) + (f * (a - b)) * (f * (a - b)) == (f * j) * (f * j) + 4 * q * (f * c - c
                * c)
        }),
{
    let f = a + b;
    let j = f - (c + c);
    let n = a - b;
    assert(f * f == n * n + 4 * (a * b)) by (nonlinear_arith)
        requires
            f == a + b,
            n == a - b,
    ;
    assert(j * j == f * f - 4 * (f * c - c * c)) by (nonlinear_arith)
        requires
            j == f - (c + c),
    ;
    lemma_double_combine(f * f, n * n, j * j, tt, f * c - c * c);
    lemma_square_of_product(f, n);
    lemma_square_of_product(f, j);
}

/// The two sides of the equation for a double, each as the square of the new
/// `z^2` plus a rest.
proof fn lemma_double_sides(t: int, j: int, f: int, n: int, d: int, ab: int, k: int)
    requires
        (t * j) * (t * j) + (f * n) * (f * n) == (f * j) * (f * j) + k,
        t * t == 4 * ab,
    ensures
        ((t * j) * (t * j) + (f * n) * (f * n)) * ((f * j) * (f * j)) == ((f * j) * (f * j)) * ((f
            * j) * (f * j)) + ((f * j) * (f * j)) * k,
        ((f * j) * (f * j)) * ((f * j) * (f * j)) + d * (((t * j) * (t * j)) * ((f * n) * (f * n)))
            == ((f * j) * (f * j)) * ((f * j) * (f * j)) + ((f * j) * (f * j)) * (4 * (n * n) * (d
            * ab)),
{
    let zz = (f * j) * (f * j);
    assert((zz + k) * zz == zz * zz + zz * k) by (nonlinear_arith);
    lemma_square_of_product(t, j);
    lemma_square_of_product(f, n);
    lemma_square_of_product(f, j);
    lemma_exchange(t * t, j * j, f * f, n * n);
    let w = (4 * ab) * (n * n);
    assert(((t * j) * (t * j)) * ((f * n) * (f * n)) == zz * w);
    let nn = n * n;
    assert(d * (zz * ((4 * ab) * nn)) == zz * (4 * nn * (d * ab))) by (nonlinear_arith);
}

/// Over the integers: where the equation holds of `(x, y, z)` up to
/// congruence, it holds of the doubling polynomials.
proof fn lemma_double_algebra(x: int, y: int, z: int)
    requires
        congruent(curve_lhs(x, y, z), curve_rhs(x, y, z)),
    ensures
        congruent(
            curve_lhs(double_poly(x, y, z).0, double_poly(x, y, z).1, double_poly(x, y, z).2),
            curve_rhs(double_poly(x, y, z).0, double_poly(x, y, z).1, double_poly(x, y, z).2),
        ),
{
    let d = curve_d() as int;
    let a = x * x;
    let b = y * y;
    let c = z * z;
    let s = x + y;
    let f = a + b;
    let j = f - (c + c);
    let t = ((s * s) - a) - b;
    let n = a - b;
    let q = n * n;
    let zz = (f * j) * (f * j);
    let k1 = 4 * q * (f * c - c * c);
    let k2 = 4 * q * (d * (a * b));
    lemma_cross_term(x, y);
    lemma_double_identity(a, b, c, t * t);
    assert((t * j) * (t * j) == (t * t) * (j * j)) by (nonlinear_arith);
    lemma_double_sides(t, j, f, n, d, a * b, k1);
    // f c = c^2 + d a b, up to congruence
    lemma_congruent_sub(f * c, c * c + d * (a * b), c * c, c * c);
    lemma_congruent_mul(4 * q, 4 * q, f * c - c * c, d * (a * b));
    lemma_congruent_mul(zz, zz, k1, k2);
    lemma_congruent_add(zz * zz, zz * zz, zz * k1, zz * k2);
}

/// Twice a point of the curve lies on the curve.
pub proof fn lemma_double_on_curve(p: PointModel)
    requires
        on_curve(p),
    ensures
        on_curve(edwards_double(p)),
{
    let r = edwards_double(p);
    let poly = double_poly(p.x as int, p.y as int, p.z as int);
    lemma_on_curve_congruence(p);
    lemma_double_algebra(p.x as int, p.y as int, p.z as int);
    lemma_double_congruent(p);
    lemma_curve_sides_congruent(r.x as int, r.y as int, r.z as int, poly.0, poly.1, poly.2);
    lemma_on_curve_congruence(r);
}

/// Four factors, grouped in pairs in each of the ways.
pub proof fn lemma_regroup(p: int, q: int, r: int, s: int)
    ensures
        (p * q) * (r * s) == (p * r) * (q * s),
        (p * q) * (r * s) == (p * s) * (q * r),
        (p * q) * (r * s) == (r * q) * (p * s),
{
    assert((p * q) * (r * s) == (p * r) * (q * s)) by (nonlinear_arith);
    assert((p * q) * (r * s) == (p * s) * (q * r)) by (nonlinear_arith);
    assert((p * q) * (r * s) == (r * q) * (p * s)) by (nonlinear_arith);
}

/// Three factors, grouped in each of the ways.
pub proof fn lemma_three(p: int, q: int, r: int)
    ensures
        (p * q) * r == p * (q * r),
        (p * q) * r == (p * r) * q,
        (p * q) * r == q * (p * r),
{
    assert((p * q) * r == p * (q * r)) by (nonlinear_arith);
    assert((p * q) * r == (p * r) * q) by (nonlinear_arith);
    assert((p * q) * r == q * (p * r)) by (nonlinear_arith);
}

/// The product of two sums of two squares is a sum of two squares, and what
/// goes with it: the identities between the coordinates of two points that
/// the addition formulas rest on.
proof fn lemma_norms(x1: int, y1: int, x2: int, y2: int)
    ensures
        ({
            let c = x1 * x2;
            let d = y1 * y2;
            let h = (((x1 + y1) * (x2 + y2)) - c) - d;
            let m = d - c;
            let s1 = x1 * x1 + y1 * y1;
            let s2 = x2 * x2 + y2 * y2;
            let t1 = (x1 * x1) * (y1 * y1);
            let t2 = (x2 * x2) * (y2 * y2);
            &&& h * h + m * m == s1 * s2
            &&& 2 * (c * d) * (m * m - h * h) - (h * h) * (m * m) == -((s1 * s1) * t2 + (s2 * s2)
                * t1)
            &&& (c * d) * (c * d) == t1 * t2
        }),
{
    let c = x1 * x2;
    let d = y1 * y2;
    let h = (((x1 + y1) * (x2 + y2)) - c) - d;
    let m = d - c;
    let a1 = x1 * x1;
    let b1 = y1 * y1;
    let a2 = x2 * x2;
    let b2 = y2 * y2;
    let s1 = a1 + b1;
    let s2 = a2 + b2;
    let t1 = a1 * b1;
    let t2 = a2 * b2;
    let u = x1 * y2;
    let v = y1 * x2;
    let cd = c * d;
    assert(h == u + v) by (nonlinear_arith)
        requires
            h == (((x1 + y1) * (x2 + y2)) - x1 * x2) - y1 * y2,
            u == x1 * y2,
            v == y1 * x2,
    ;
    // the squares and the mixed products
    lemma_square_of_product(x1, y2);
    lemma_square_of_product(y1, x2);
    lemma_square_of_product(x1, x2);
    lemma_square_of_product(y1, y2);
    lemma_regroup(x1, y2, y1, x2);
    assert(u * v == cd);
    let uu = a1 * b2;
    let vv = b1 * a2;
    let cc = a1 * a2;
    let dd = b1 * b2;
    assert(u * u == uu && v * v == vv && c * c == cc && d * d == dd);
    assert((u + v) * (u + v) == u * u + v * v + 2 * (u * v)) by (nonlinear_arith);
    assert((d - c) * (d - c) == d * d + c * c - 2 * (c * d)) by (nonlinear_arith);
    let n = uu + vv;
    let q = cc + dd;
    assert(h * h == n + 2 * cd);
    assert(m * m == q - 2 * cd);
    assert(s1 * s2 == cc + uu + vv + dd) by (nonlinear_arith)
        requires
            s1 == a1 + b1,
            s2 == a2 + b2,
            cc == a1 * a2,
            uu == a1 * b2,
            vv == b1 * a2,
            dd == b1 * b2,
    ;
    // the second identity
    lemma_square_of_product(c, d);
    lemma_regroup(a1, a2, b1, b2);
    assert(cd * cd == cc * dd);
    assert(cc * dd == t1 * t2);
    assert(2 * cd * ((q - 2 * cd) - (n + 2 * cd)) - (n + 2 * cd) * (q - 2 * cd) == -(n * q + 4 * (cd
        * cd))) by (nonlinear_arith);
    lemma_norms_product(a1, b1, a2, b2);
    assert(n * q + 4 * (cc * dd) == (s1 * s1) * t2 + (s2 * s2) * t1);
}

/// `(ps + qr)(pr + qs) + 4 prqs = (p + q)^2 rs + (r + s)^2 pq`.
proof fn lemma_norms_product(p: int, q: int, r: int, s: int)
    ensures
        (p * s + q * r) * (p * r + q * s) + 4 * ((p * r) * (q * s)) == ((p + q) * (p + q)) * (r * s)
            + ((r + s) * (r + s)) * (p * q),
{
    let ps = p * s;
    let qr = q * r;
    let pr = p * r;
    let qs = q * s;
    let pq = p * q;
    let rs = r * s;
    assert((ps + qr) * (pr + qs) == ps * pr + ps * qs + qr * pr + qr * qs) by (nonlinear_arith);
    assert((p + q) * (p + q) == p * p + 2 * pq + q * q) by (nonlinear_arith)
        requires
            pq == p * q,
    ;
    assert((r + s) * (r + s) == r * r + 2 * rs + s * s) by (nonlinear_arith)
        requires
            rs == r * s,
    ;
    assert((p * p + 2 * pq + q * q) * rs == (p * p) * rs + 2 * (pq * rs) + (q * q) * rs)
        by (nonlinear_arith);
    assert((r * r + 2 * rs + s * s) * pq == (r * r) * pq + 2 * (rs * pq) + (s * s) * pq)
        by (nonlinear_arith);
    // each monomial
    lemma_regroup(p, s, p, r);
    assert(ps * pr == (p * p) * rs) by {
        assert((p * s) * (p * r) == (p * p) * (s * r));
        assert(s * r == r * s) by (nonlinear_arith);
    }
    lemma_regroup(p, s, q, s);
    assert(ps * qs == (s * s) * pq) by {
        assert((p * s) * (q * s) == (p * q) * (s * s));
        assert((p * q) * (s * s) == (s * s) * (p * q)) by (nonlinear_arith);
    }
    lemma_regroup(q, r, p, r);
    assert(qr * pr == (r * r) * pq) by {
        assert((q * r) * (p * r) == (q * p) * (r * r));
        assert(q * p == p * q) by (nonlinear_arith);
        assert((p * q) * (r * r) == (r * r) * (p * q)) by (nonlinear_arith);
    }
    lemma_regroup(q, r, q, s);
    assert(qr * qs == (q * q) * rs);
    lemma_regroup(p, r, q, s);
    assert(pr * qs == pq * rs);
    assert(rs * pq == pq * rs) by (nonlinear_arith);
}

/// The identity of the addition formulas, in the terms that the formulas are
/// made of.
proof fn lemma_add_combine(
    u: int,
    d: int,
    cd: int,
    h: int,
    m: int,
    s1: int,
    s2: int,
    t1: int,
    t2: int,
)
    requires
        h + m == s1 * s2,
        2 * cd * (m - h) - h * m == -((s1 * s1) * t2 + (s2 * s2) * t1),
        cd * cd == t1 * t2,
    ensures
        ((u - d * cd) * (u - d * cd)) * h + ((u + d * cd) * (u + d * cd)) * m - ((d * u) * h) * m
            == (s1 * u - d * (s2 * t1)) * (s2 * u - d * (s1 * t2)),
        (d * cd) * (d * cd) == (d * d) * (t1 * t2),
{
    let e = d * cd;
    let x1 = u * u;
    let x2 = u * e;
    let x3 = e * e;
    let ss = s1 * s2;
    let pp = t1 * t2;
    let du = d * u;
    let r = (s1 * s1) * t2 + (s2 * s2) * t1;
    // the left side
    assert((u - e) * (u - e) == x1 - 2 * x2 + x3) by (nonlinear_arith)
        requires
            x1 == u * u,
            x2 == u * e,
            x3 == e * e,
    ;
    assert((u + e) * (u + e) == x1 + 2 * x2 + x3) by (nonlinear_arith)
        requires
            x1 == u * u,
            x2 == u * e,
            x3 == e * e,
    ;
    assert((x1 - 2 * x2 + x3) * h + (x1 + 2 * x2 + x3) * m == x1 * (h + m) + 2 * (x2 * (m - h))
        + x3 * (h + m)) by (nonlinear_arith);
    lemma_three(d, u, cd);
    assert(x2 == du * cd) by {
        assert(u * (d * cd) == (d * u) * cd) by (nonlinear_arith);
    }
    lemma_three(du, cd, m - h);
    assert(x2 * (m - h) == du * (cd * (m - h)));
    lemma_three(du, h, m);
    assert((du * h) * m == du * (h * m));
    assert(2 * (du * (cd * (m - h))) - du * (h * m) == du * (2 * (cd * (m - h)) - h * m))
        by (nonlinear_arith);
    assert(2 * (cd * (m - h)) == 2 * cd * (m - h)) by (nonlinear_arith);
    lemma_square_of_product(d, cd);
    assert(x3 == (d * d) * pp);
    let left = ((u - e) * (u - e)) * h + ((u + e) * (u + e)) * m - (du * h) * m;
    assert(left == x1 * ss + du * (0 - r) + ((d * d) * pp) * ss);
    // the right side
    let a1 = s1 * u;
    let b1 = d * (s2 * t1);
    let a2 = s2 * u;
    let b2 = d * (s1 * t2);
    assert((a1 - b1) * (a2 - b2) == a1 * a2 - a1 * b2 - b1 * a2 + b1 * b2) by (nonlinear_arith);
    lemma_regroup(s1, u, s2, u);
    assert(a1 * a2 == ss * x1);
    lemma_regroup(s1, u, d, s1 * t2);
    lemma_three(s1, s1, t2);
    assert(a1 * b2 == du * ((s1 * s1) * t2)) by {
        assert((s1 * u) * (d * (s1 * t2)) == (d * u) * (s1 * (s1 * t2)));
    }
    lemma_regroup(d, s2 * t1, s2, u);
    lemma_three(s2, t1, s2);
    assert(b1 * a2 == du * ((s2 * s2) * t1)) by {
        assert((d * (s2 * t1)) * (s2 * u) == (d * u) * ((s2 * t1) * s2));
        assert((s2 * t1) * s2 == (s2 * s2) * t1);
    }
    lemma_regroup(d, s2 * t1, d, s1 * t2);
    lemma_regroup(s2, t1, s1, t2);
    assert(b1 * b2 == (d * d) * (ss * pp)) by {
        assert((d * (s2 * t1)) * (d * (s1 * t2)) == (d * d) * ((s2 * t1) * (s1 * t2)));
        assert((s2 * t1) * (s1 * t2) == (s1 * t1) * (s2 * t2));
        lemma_regroup(s1, t1, s2, t2);
    }
    assert(du * ((s1 * s1) * t2) + du * ((s2 * s2) * t1) == du * r) by (nonlinear_arith)
        requires
            r == (s1 * s1) * t2 + (s2 * s2) * t1,
    ;
    assert(du * (0 - r) == 0 - du * r) by (nonlinear_arith);
    lemma_three(d * d, pp, ss);
    assert(((d * d) * pp) * ss == (d * d) * (ss * pp)) by {
        assert(pp * ss == ss * pp) by (nonlinear_arith);
    }
    assert(ss * x1 == x1 * ss) by (nonlinear_arith);
}

/// The two factors that the equation for a sum splits into, each traced back
/// to the equations of the two points.
proof fn lemma_add_factor(s1: int, w1: int, t1: int, s2: int, w2: int, t2: int, d: int)
    ensures
        w2 * (s1 * (w1 * w2) - d * (s2 * t1)) == (s1 * w1) * (w2 * w2) - (d * t1) * (s2 * w2),
        (w1 * w1 + d * t1) * (w2 * w2) - (d * t1) * (w2 * w2 + d * t2) == (w1 * w2) * (w1 * w2) - (d
            * d) * (t1 * t2),
{
    let u = w1 * w2;
    assert(w2 * (s1 * u - d * (s2 * t1)) == w2 * (s1 * u) - w2 * (d * (s2 * t1)))
        by (nonlinear_arith);
    lemma_regroup(s1, w1, w2, w2);
    lemma_three(s1, w1, w2);
    assert(w2 * (s1 * u) == (s1 * w1) * (w2 * w2)) by {
        assert(s1 * (w1 * w2) == (s1 * w1) * w2);
        lemma_three(s1 * w1, w2, w2);
        assert(w2 * ((s1 * w1) * w2) == ((s1 * w1) * w2) * w2) by (nonlinear_arith);
    }
    lemma_regroup(d, t1, s2, w2);
    assert(w2 * (d * (s2 * t1)) == (d * t1) * (s2 * w2)) by {
        lemma_regroup(d, s2 * t1, w2, 1);
        lemma_three(d, s2, t1);
        lemma_three(w2, d, s2 * t1);
        assert(w2 * (d * (s2 * t1)) == (w2 * d) * (s2 * t1));
        lemma_regroup(w2, d, s2, t1);
        assert((w2 * d) * (s2 * t1) == (s2 * w2) * (t1 * d)) by {
            assert((w2 * d) * (s2 * t1) == (w2 * s2) * (d * t1));
            assert(w2 * s2 == s2 * w2) by (nonlinear_arith);
            assert(d * t1 == t1 * d) by (nonlinear_arith);
        }
        assert((s2 * w2) * (t1 * d) == (d * t1) * (s2 * w2)) by (nonlinear_arith);
    }
    let v1 = w1 * w1;
    let v2 = w2 * w2;
    let q1 = d * t1;
    let q2 = d * t2;
    assert((v1 + q1) * v2 - q1 * (v2 + q2) == v1 * v2 - q1 * q2) by (nonlinear_arith);
    lemma_square_of_product(w1, w2);
    lemma_regroup(d, t1, d, t2);
}

/// The two sides of the equation for a sum, each as a multiple of the square
/// of the new `z^2` plus the same rest.
proof fn lemma_add_sides(a: int, f: int, g: int, h: int, m: int, d: int, ff: int)
    requires
        ((f * f) * (h * h) + (g * g) * (m * m)) - ((d * (a * a)) * (h * h)) * (m * m) == ff,
    ensures
        ({
            let zz = (f * g) * (f * g);
            let u = a * a;
            let w = ((d * u) * (h * h)) * (m * m);
            &&& curve_side((a * f) * h, (a * g) * m, f * g) == zz * (u * ff) + zz * (u * w)
            &&& zz * zz + d * ((((a * f) * h) * ((a * f) * h)) * (((a * g) * m) * ((a * g) * m)))
                == zz * zz + zz * (u * w)
        }),
{
    let zz = (f * g) * (f * g);
    let u = a * a;
    let hh = h * h;
    let mm = m * m;
    let fq = f * f;
    let gq = g * g;
    let w = ((d * u) * hh) * mm;
    let x = (a * f) * h;
    let y = (a * g) * m;
    lemma_square_of_product(a * f, h);
    lemma_square_of_product(a, f);
    lemma_square_of_product(a * g, m);
    lemma_square_of_product(a, g);
    lemma_square_of_product(f, g);
    assert(x * x == (u * fq) * hh);
    assert(y * y == (u * gq) * mm);
    assert(zz == fq * gq);
    assert((u * fq) * hh + (u * gq) * mm == u * (fq * hh + gq * mm)) by (nonlinear_arith);
    assert(fq * hh + gq * mm == ff + w);
    assert((u * (ff + w)) * zz == zz * (u * ff) + zz * (u * w)) by (nonlinear_arith);
    // the right side
    lemma_regroup(u * fq, hh, u * gq, mm);
    lemma_regroup(u, fq, u, gq);
    let hm = hh * mm;
    let uu = u * u;
    assert((x * x) * (y * y) == (uu * zz) * hm);
    lemma_three(d * u, hh, mm);
    assert(w == (d * u) * hm);
    assert(u * ((d * u) * hm) == (d * uu) * hm) by {
        lemma_three(u, d * u, hm);
        assert(u * ((d * u) * hm) == (u * (d * u)) * hm);
        assert(u * (d * u) == d * (u * u)) by (nonlinear_arith);
    }
    assert(d * ((uu * zz) * hm) == zz * ((d * uu) * hm)) by {
        lemma_three(uu, zz, hm);
        lemma_regroup(d, uu, zz, hm);
        assert((uu * zz) * hm == zz * (uu * hm));
        lemma_three(d, zz, uu * hm);
        assert(d * (zz * (uu * hm)) == zz * (d * (uu * hm)));
        lemma_three(d, uu, hm);
    }
}

/// `(x^2 + y^2) z^2`, the left side of the curve's equation.
spec fn curve_side(x: int, y: int, z: int) -> int {
    (x * x + y * y) * (z * z)
}

/// Over the integers: where the equation holds of two triples up to
/// congruence, it holds of the addition polynomials.
proof fn lemma_add_algebra(x1: int, y1: int, z1: int, x2: int, y2: int, z2: int)
    requires
        congruent(curve_lhs(x1, y1, z1), curve_rhs(x1, y1, z1)),
        congruent(curve_lhs(x2, y2, z2), curve_rhs(x2, y2, z2)),
    ensures
        congruent(
            curve_lhs(
                add_poly(x1, y1, z1, x2, y2, z2).0,
                add_poly(x1, y1, z1, x2, y2, z2).1,
                add_poly(x1, y1, z1, x2, y2, z2).2,
            ),
            curve_rhs(
                add_poly(x1, y1, z1, x2, y2, z2).0,
                add_poly(x1, y1, z1, x2, y2, z2).1,
                add_poly(x1, y1, z1, x2, y2, z2).2,
            ),
        ),
{
    let dc = curve_d() as int;
    let c = x1 * x2;
    let d = y1 * y2;
    let a = z1 * z2;
    let u = a * a;
    let e = (dc * c) * d;
    let f = u - e;
    let g = u + e;
    let h = (((x1 + y1) * (x2 + y2)) - c) - d;
    let m = d - c;
    let w1 = z1 * z1;
    let w2 = z2 * z2;
    let s1 = x1 * x1 + y1 * y1;
    let s2 = x2 * x2 + y2 * y2;
    let t1 = (x1 * x1) * (y1 * y1);
    let t2 = (x2 * x2) * (y2 * y2);
    let cd = c * d;
    let f1 = s1 * u - dc * (s2 * t1);
    let f2 = s2 * u - dc * (s1 * t2);
    let z = f * g;
    let zz = z * z;
    let rest = zz * (u * (((dc * u) * (h * h)) * (m * m)));
    lemma_norms(x1, y1, x2, y2);
    lemma_three(dc, c, d);
    assert(e == dc * cd);
    lemma_add_combine(u, dc, cd, h * h, m * m, s1, s2, t1, t2);
    lemma_add_sides(a, f, g, h, m, dc, f1 * f2);
    lemma_square_of_product(z1, z2);
    assert(u == w1 * w2);
    lemma_add_factor(s1, w1, t1, s2, w2, t2, dc);
    lemma_add_factor(s2, w2, t2, s1, w1, t1, dc);
    assert(z == u * u - e * e) by (nonlinear_arith)
        requires
            z == (u - e) * (u + e),
    ;
    assert(w2 * w1 == w1 * w2) by (nonlinear_arith);
    assert(t2 * t1 == t1 * t2) by (nonlinear_arith);
    // w2 f1 = z and w1 f2 = z, up to congruence
    lemma_congruent_mul(s1 * w1, w1 * w1 + dc * t1, w2 * w2, w2 * w2);
    lemma_congruent_mul(dc * t1, dc * t1, s2 * w2, w2 * w2 + dc * t2);
    lemma_congruent_sub(
        (s1 * w1) * (w2 * w2),
        (w1 * w1 + dc * t1) * (w2 * w2),
        (dc * t1) * (s2 * w2),
        (dc * t1) * (w2 * w2 + dc * t2),
    );
    assert(congruent(w2 * f1, z));
    lemma_congruent_mul(s2 * w2, w2 * w2 + dc * t2, w1 * w1, w1 * w1);
    lemma_congruent_mul(dc * t2, dc * t2, s1 * w1, w1 * w1 + dc * t1);
    lemma_congruent_sub(
        (s2 * w2) * (w1 * w1),
        (w2 * w2 + dc * t2) * (w1 * w1),
        (dc * t2) * (s1 * w1),
        (dc * t2) * (w1 * w1 + dc * t1),
    );
    assert(congruent(w1 * f2, z));
    lemma_congruent_mul(w2 * f1, z, w1 * f2, z);
    lemma_regroup(w2, f1, w1, f2);
    assert((w2 * f1) * (w1 * f2) == u * (f1 * f2));
    lemma_congruent_mul(zz, zz, u * (f1 * f2), zz);
    lemma_congruent_add(zz * (u * (f1 * f2)), zz * zz, rest, rest);
}

/// The coordinates of a sum are congruent to the addition polynomials.
pub proof fn lemma_add_congruent(p: PointModel, q: PointModel)
    ensures
        congruent(
            edwards_add(p, q).x as int,
            add_poly(p.x as int, p.y as int, p.z as int, q.x as int, q.y as int, q.z as int).0,
        ),
        congruent(
            edwards_add(p, q).y as int,
            add_poly(p.x as int, p.y as int, p.z as int, q.x as int, q.y as int, q.z as int).1,
        ),
        congruent(
            edwards_add(p, q).z as int,
            add_poly(p.x as int, p.y as int, p.z as int, q.x as int, q.y as int, q.z as int).2,
        ),
{
    let x1 = p.x as int;
    let y1 = p.y as int;
    let z1 = p.z as int;
    let x2 = q.x as int;
    let y2 = q.y as int;
    let z2 = q.z as int;
    let dc = curve_d();
    let c = x1 * x2;
    let d = y1 * y2;
    let a = z1 * z2;
    let b = a * a;
    let e = (dc * c) * d;
    let xcp = fmul(p.x, q.x);
    let ycp = fmul(p.y, q.y);
    let zcp = fmul(p.z, q.z);
    let bb = fmul(zcp, zcp);
    let ee = fmul(fmul(dc, xcp), ycp);
    let f = fsub(bb, ee);
    let g = fadd(bb, ee);
    lemma_fmul_congruent(p.x, q.x, x1, x2);
    lemma_fmul_congruent(p.y, q.y, y1, y2);
    lemma_fmul_congruent(p.z, q.z, z1, z2);
    lemma_fmul_congruent(zcp, zcp, a, a);
    lemma_fmul_congruent(dc, xcp, dc as int, c);
    lemma_fmul_congruent(fmul(dc, xcp), ycp, dc * c, d);
    lemma_fsub_congruent(bb, ee, b, e);
    lemma_fadd_congruent(bb, ee, b, e);
    lemma_fadd_congruent(p.x, p.y, x1, y1);
    lemma_fadd_congruent(q.x, q.y, x2, y2);
    let cross = fmul(fadd(p.x, p.y), fadd(q.x, q.y));
    lemma_fmul_congruent(fadd(p.x, p.y), fadd(q.x, q.y), x1 + y1, x2 + y2);
    lemma_fsub_congruent(cross, xcp, (x1 + y1) * (x2 + y2), c);
    lemma_fsub_congruent(fsub(cross, xcp), ycp, ((x1 + y1) * (x2 + y2)) - c, d);
    lemma_fmul_congruent(zcp, f, a, b - e);
    lemma_fmul_congruent(
        fmul(zcp, f),
        fsub(fsub(cross, xcp), ycp),
        a * (b - e),
        (((x1 + y1) * (x2 + y2)) - c) - d,
    );
    lemma_fmul_congruent(zcp, g, a, b + e);
    lemma_fsub_congruent(ycp, xcp, d, c);
    lemma_fmul_congruent(fmul(zcp, g), fsub(ycp, xcp), a * (b + e), d - c);
    lemma_fmul_congruent(f, g, b - e, b + e);
}

/// The sum of two points of the curve lies on the curve.
pub proof fn lemma_add_on_curve(p: PointModel, q: PointModel)
    requires
        on_curve(p),
        on_curve(q),
    ensures
        on_curve(edwards_add(p, q)),
{
    let r = edwards_add(p, q);
    let poly = add_poly(p.x as int, p.y as int, p.z as int, q.x as int, q.y as int, q.z as int);
    lemma_on_curve_congruence(p);
    lemma_on_curve_congruence(q);
    lemma_add_algebra(p.x as int, p.y as int, p.z as int, q.x as int, q.y as int, q.z as int);
    lemma_add_congruent(p, q);
    lemma_curve_sides_congruent(r.x as int, r.y as int, r.z as int, poly.0, poly.1, poly.2);
    lemma_on_curve_congruence(r);
}

/// What a multiplication leaves on the way lies on the curve, and so does
/// its result.
pub proof fn lemma_ladder_on_curve(acc: PointModel, run: PointModel, k: nat)
    requires
        on_curve(acc),
        on_curve(run),
    ensures
        on_curve(ladder(acc, run, k)),
    decreases k,
{
    if k != 0 {
        lemma_double_on_curve(run);
        if k % 2 == 1 {
            lemma_add_on_curve(acc, run);
        }
        lemma_ladder_on_curve(
            if k % 2 == 1 {
                edwards_add(acc, run)
            } else {
                acc
            },
            edwards_double(run),
            k / 2,
        );
    }
}

} // verus!
