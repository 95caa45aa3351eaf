//! What holds of points, of their encoding and of signatures, proved from the
//! definitions.

use crate::bytes::{
    le_bytes, le_nat, lemma_le_bytes_len, lemma_le_bytes_unique, lemma_le_bytes_value,
};
use crate::closure::{
    curve_lhs, curve_rhs, lemma_add_on_curve, lemma_double_on_curve, lemma_ladder_on_curve,
    lemma_on_curve_congruence, lemma_regroup,
};
use crate::constants::{base_x, base_y, curve_d, field_prime, group_order, lemma_constants_shape};
use crate::field::{
    fadd, fdiv, finv, fmul, fneg, fsqrt, fsub, invertible, is_inverse, lemma_inverse_of_one,
    root_candidate,
};
use crate::modular::{
    congruent, lemma_congruent_add, lemma_congruent_mul, lemma_congruent_remainder,
    lemma_congruent_residues, lemma_congruent_sub, lemma_fadd, lemma_fmul, lemma_fmul_one,
    lemma_fneg, lemma_fsub,
};
use crate::point::{
    affine_x, affine_y, base_point, decode_point, edwards_add, edwards_double, encode_point,
    identity, on_curve, same_point, scalar_mul, PointModel,
};
use crate::private_key::{
    challenge, nonce, outcome, public_key_bytes, secret_scalar, signature, signing,
};
use crate::public_key::verification;
use crate::Ed448Error;
use vstd::prelude::*;

verus! {

/// Each coordinate is a residue in range.
pub open spec fn in_range(p: PointModel) -> bool {
    p.x < field_prime() && p.y < field_prime() && p.z < field_prime()
}

/// From `x^2 = u / v` with `u = y^2 - 1` and `v = d y^2 - 1` to the curve's
/// equation `x^2 + y^2 = 1 + d x^2 y^2`, all modulo the prime.
proof fn lemma_solved_equation(xx: int, yy: int, u: int, v: int, w: int, d: int)
    requires
        congruent(u, yy - 1),
        congruent(v, d * yy - 1),
        congruent(v * w, 1),
        congruent(xx, u * w),
    ensures
        congruent(xx + yy, 1 + d * (xx * yy)),
{
    // xx * v = u * w * v = u
    lemma_congruent_mul(xx, u * w, v, v);
    assert((u * w) * v == u * (v * w)) by (nonlinear_arith);
    lemma_congruent_mul(u, u, v * w, 1);
    assert(u * 1 == u);
    assert(congruent(xx * v, yy - 1));
    // xx * v = xx * (d yy - 1)
    lemma_congruent_mul(xx, xx, v, d * yy - 1);
    assert(xx * (d * yy - 1) == d * (xx * yy) - xx) by (nonlinear_arith);
    assert(congruent(d * (xx * yy) - xx, yy - 1));
    lemma_congruent_add(d * (xx * yy) - xx, yy - 1, xx + 1, xx + 1);
}

/// The curve's equation for a point with `z = 1`.
proof fn lemma_on_curve_affine(x: nat, y: nat)
    requires
        x < field_prime(),
        y < field_prime(),
        congruent(
            (fmul(x, x) + fmul(y, y)) as int,
            (1 + curve_d() * (fmul(x, x) * fmul(y, y))) as int,
        ),
    ensures
        on_curve(PointModel { x, y, z: 1 }),
{
    let xx = fmul(x, x);
    let yy = fmul(y, y);
    let d = curve_d();
    lemma_constants_shape();
    lemma_fmul(x, x);
    lemma_fmul(y, y);
    lemma_fmul_one(1);
    lemma_fadd(xx, yy);
    lemma_fmul_one(fadd(xx, yy));
    // the right-hand side
    lemma_fmul(xx, yy);
    lemma_fmul(d, fmul(xx, yy));
    lemma_congruent_mul(d as int, d as int, fmul(xx, yy) as int, (xx * yy) as int);
    let t = fmul(d, fmul(xx, yy));
    lemma_fadd(1, t);
    lemma_congruent_add(1, 1, t as int, (d * (xx * yy)) as int);
    lemma_congruent_residues(fadd(xx, yy) as int, fadd(1, t) as int);
}

/// The neutral element lies on the curve.
pub proof fn lemma_identity_on_curve()
    ensures
        on_curve(identity()),
        in_range(identity()),
{
    lemma_constants_shape();
    lemma_fmul_one(1);
    lemma_fmul_one(0);
    assert(fmul(0, 0) == 0) by {
        assert(0nat * 0nat == 0);
        vstd::arithmetic::div_mod::lemma_small_mod(0, field_prime());
    }
    assert(curve_d() * (0 * 1) == 0) by (nonlinear_arith);
    lemma_on_curve_affine(0, 1);
}

/// The base point lies on the curve.
pub proof fn lemma_base_on_curve()
    ensures
        on_curve(base_point()),
        in_range(base_point()),
{
    lemma_constants_shape();
    let p = field_prime() as int;
    let d = curve_d() as int;
    let x = base_x() as int;
    let y = base_y() as int;
    // the squares of the coordinates, their product, and that times d
    let xx: int =
        0x1870b621af0b9b1f9fbfaadc002b13aacd4c7b2d9957340f3961bc8d3310320bd66890cbaef9b692452716a84c240fe4760451fd2fdb02c24ce611a4a1af0d7239186ed247603174561905af86304167af56aa12f863e51318635b9fb61c126ccbf8550ee5a1b9ea3970d348bd5d2284int;
    let yy: int =
        0x2b44f76ccc089f156e03af91c5d22a7942605469ffecddf764cfe6fad723e4266af0e201df7bb9764dc0fbd19f906d7baa778c4dd066709746889cc32be806450a544ef4e6eddc770bdd255c401da153ffc37f22510f26afde3c249fcaabda3f42e1569f196a9707c19954648bcb1190int;
    let xy: int =
        0x42184272c1b6c162535f1e2d99abee03a4e8fe79fab65d29e1a427a630622d5dd09da1649bef1d673c477f6bc58683e9ec87e80c8b99a169bd940d7a5538c3b0edcda59aa3bbeb6bcdef11757efd9fd969081946f5c23f0c845b2dbec9aee01e0f3bbe9bb9aab1d90ff2a6531811c6e73464a21d3ae824f52e58749743bf01e0a94e4b25149b0e65a808f6f9864e2fbeb6e472a1053834834612cb06000fc98da22ce0208efc8ecc2199e910201f7c4e6e9c23984da41f792cc11fe93e6081a1324b2119996be078cc47221e3f07f803313927b606f8898839733a5be5a2e40int;
    let dxy: int =
        0x42184272c1b6c162535f1e2d99abee03a4e8fe79fab65d29e1a427a5ee49eaeb0ee6e002488fff39a29b9168209d856ff1d18ae2a9f5525941a19ce35e6c55807ac96aad45f633aa2e9723aece0afc038ee176c6cc0c5d680ea180a855a2682af05d3856e215229bcced7b41c32db4d87250cd3a6aa9f6865fc5ca90e5f0eb683c843ddf19532b5601944507c97c40bb7446a53a13ad12ea6b7abf7eb1ce82cbe3ae08425d0c3b2e1036b6ee7520eb581d6cb268a19cb0bc42156b7fdcafb639bab668dbdb8d062b9463ebc8f9eb03a3328ea637700f7946a4328e35cad7bb64b3fdc7bf2d01c01f9825f6bfcd19ff3f95d5c88b0d7efabc18d1ede81115367e1c81627d697368a760778cfbcd4bc96d6ed4aea0ca74980int;
    // how often the prime goes into the difference of the two sides
    let k: int =
        0x42184272c1b6c162535f1e2d99abee03a4e8fe79fab65d29e1a427a630622d5dd09da1649bef1d673c477f6bc58683e9ec87e80c8b9979ffb41c0cb3f0c0b8476a17a6421be9a1199906a612b5494139fc1f186cb08a9779cfffda545ba92bd4488e58dc40a24c986ebea4884ae64744d6f771682b6a892225869ca74a68e55e162d308a3d5b11184899a4b950fe499d6fb108b094dcdb65fe71fdb9089dffee8fc7bde2f08c2727fcd1990c5ef8d9d9fb9a83998aa3b1926613a27f159164cb10c1fc3c861b85b14d76a17aa30b62198d232de4237945b241cdcc33c80ea93int;
    assert(x * x == xx) by (nonlinear_arith)
        requires
            x == 0x4f1970c66bed0ded221d15a622bf36da9e146570470f1767ea6de324a3d3a46412ae1af72ab66511433b80e18b00938e2626a82bc70cc05eint,
            xx == 0x1870b621af0b9b1f9fbfaadc002b13aacd4c7b2d9957340f3961bc8d3310320bd66890cbaef9b692452716a84c240fe4760451fd2fdb02c24ce611a4a1af0d7239186ed247603174561905af86304167af56aa12f863e51318635b9fb61c126ccbf8550ee5a1b9ea3970d348bd5d2284int,
    ;
    assert(y * y == yy) by (nonlinear_arith)
        requires
            y == 0x693f46716eb6bc248876203756c9c7624bea73736ca3984087789c1e05a0c2d73ad3ff1ce67c39c4fdbd132c4ed7c8ad9808795bf230fa14int,
            yy == 0x2b44f76ccc089f156e03af91c5d22a7942605469ffecddf764cfe6fad723e4266af0e201df7bb9764dc0fbd19f906d7baa778c4dd066709746889cc32be806450a544ef4e6eddc770bdd255c401da153ffc37f22510f26afde3c249fcaabda3f42e1569f196a9707c19954648bcb1190int,
    ;
    assert(xx * yy == xy) by (nonlinear_arith)
        requires
            xx == 0x1870b621af0b9b1f9fbfaadc002b13aacd4c7b2d9957340f3961bc8d3310320bd66890cbaef9b692452716a84c240fe4760451fd2fdb02c24ce611a4a1af0d7239186ed247603174561905af86304167af56aa12f863e51318635b9fb61c126ccbf8550ee5a1b9ea3970d348bd5d2284int,
            yy == 0x2b44f76ccc089f156e03af91c5d22a7942605469ffecddf764cfe6fad723e4266af0e201df7bb9764dc0fbd19f906d7baa778c4dd066709746889cc32be806450a544ef4e6eddc770bdd255c401da153ffc37f22510f26afde3c249fcaabda3f42e1569f196a9707c19954648bcb1190int,
            xy == 0x42184272c1b6c162535f1e2d99abee03a4e8fe79fab65d29e1a427a630622d5dd09da1649bef1d673c477f6bc58683e9ec87e80c8b99a169bd940d7a5538c3b0edcda59aa3bbeb6bcdef11757efd9fd969081946f5c23f0c845b2dbec9aee01e0f3bbe9bb9aab1d90ff2a6531811c6e73464a21d3ae824f52e58749743bf01e0a94e4b25149b0e65a808f6f9864e2fbeb6e472a1053834834612cb06000fc98da22ce0208efc8ecc2199e910201f7c4e6e9c23984da41f792cc11fe93e6081a1324b2119996be078cc47221e3f07f803313927b606f8898839733a5be5a2e40int,
    ;
    assert(d * xy == dxy) by (nonlinear_arith)
        requires
            d == 0xfffffffffffffffffffffffffffffffffffffffffffffffffffffffeffffffffffffffffffffffffffffffffffffffffffffffffffff6756int,
            xy == 0x42184272c1b6c162535f1e2d99abee03a4e8fe79fab65d29e1a427a630622d5dd09da1649bef1d673c477f6bc58683e9ec87e80c8b99a169bd940d7a5538c3b0edcda59aa3bbeb6bcdef11757efd9fd969081946f5c23f0c845b2dbec9aee01e0f3bbe9bb9aab1d90ff2a6531811c6e73464a21d3ae824f52e58749743bf01e0a94e4b25149b0e65a808f6f9864e2fbeb6e472a1053834834612cb06000fc98da22ce0208efc8ecc2199e910201f7c4e6e9c23984da41f792cc11fe93e6081a1324b2119996be078cc47221e3f07f803313927b606f8898839733a5be5a2e40int,
            dxy == 0x42184272c1b6c162535f1e2d99abee03a4e8fe79fab65d29e1a427a5ee49eaeb0ee6e002488fff39a29b9168209d856ff1d18ae2a9f5525941a19ce35e6c55807ac96aad45f633aa2e9723aece0afc038ee176c6cc0c5d680ea180a855a2682af05d3856e215229bcced7b41c32db4d87250cd3a6aa9f6865fc5ca90e5f0eb683c843ddf19532b5601944507c97c40bb7446a53a13ad12ea6b7abf7eb1ce82cbe3ae08425d0c3b2e1036b6ee7520eb581d6cb268a19cb0bc42156b7fdcafb639bab668dbdb8d062b9463ebc8f9eb03a3328ea637700f7946a4328e35cad7bb64b3fdc7bf2d01c01f9825f6bfcd19ff3f95d5c88b0d7efabc18d1ede81115367e1c81627d697368a760778cfbcd4bc96d6ed4aea0ca74980int,
    ;
    assert(p * k == dxy + 1 - (xx + yy)) by (nonlinear_arith)
        requires
            p == 0xfffffffffffffffffffffffffffffffffffffffffffffffffffffffeffffffffffffffffffffffffffffffffffffffffffffffffffffffffint,
            k == 0x42184272c1b6c162535f1e2d99abee03a4e8fe79fab65d29e1a427a630622d5dd09da1649bef1d673c477f6bc58683e9ec87e80c8b9979ffb41c0cb3f0c0b8476a17a6421be9a1199906a612b5494139fc1f186cb08a9779cfffda545ba92bd4488e58dc40a24c986ebea4884ae64744d6f771682b6a892225869ca74a68e55e162d308a3d5b11184899a4b950fe499d6fb108b094dcdb65fe71fdb9089dffee8fc7bde2f08c2727fcd1990c5ef8d9d9fb9a83998aa3b1926613a27f159164cb10c1fc3c861b85b14d76a17aa30b62198d232de4237945b241cdcc33c80ea93int,
            dxy == 0x42184272c1b6c162535f1e2d99abee03a4e8fe79fab65d29e1a427a5ee49eaeb0ee6e002488fff39a29b9168209d856ff1d18ae2a9f5525941a19ce35e6c55807ac96aad45f633aa2e9723aece0afc038ee176c6cc0c5d680ea180a855a2682af05d3856e215229bcced7b41c32db4d87250cd3a6aa9f6865fc5ca90e5f0eb683c843ddf19532b5601944507c97c40bb7446a53a13ad12ea6b7abf7eb1ce82cbe3ae08425d0c3b2e1036b6ee7520eb581d6cb268a19cb0bc42156b7fdcafb639bab668dbdb8d062b9463ebc8f9eb03a3328ea637700f7946a4328e35cad7bb64b3fdc7bf2d01c01f9825f6bfcd19ff3f95d5c88b0d7efabc18d1ede81115367e1c81627d697368a760778cfbcd4bc96d6ed4aea0ca74980int,
            xx == 0x1870b621af0b9b1f9fbfaadc002b13aacd4c7b2d9957340f3961bc8d3310320bd66890cbaef9b692452716a84c240fe4760451fd2fdb02c24ce611a4a1af0d7239186ed247603174561905af86304167af56aa12f863e51318635b9fb61c126ccbf8550ee5a1b9ea3970d348bd5d2284int,
            yy == 0x2b44f76ccc089f156e03af91c5d22a7942605469ffecddf764cfe6fad723e4266af0e201df7bb9764dc0fbd19f906d7baa778c4dd066709746889cc32be806450a544ef4e6eddc770bdd255c401da153ffc37f22510f26afde3c249fcaabda3f42e1569f196a9707c19954648bcb1190int,
    ;
    assert(curve_lhs(x, y, 1) == xx + yy);
    assert(curve_rhs(x, y, 1) == 1 + dxy);
    vstd::arithmetic::div_mod::lemma_mod_multiples_vanish(k, xx + yy, p);
    lemma_on_curve_congruence(base_point());
}

/// A multiple of a point of the curve lies on the curve.
pub proof fn lemma_scalar_mul_on_curve(p: PointModel, k: nat)
    requires
        on_curve(p),
    ensures
        on_curve(scalar_mul(p, k)),
{
    lemma_identity_on_curve();
    lemma_ladder_on_curve(identity(), p, k);
}

/// An encoding that stands for a point stands for one on the curve, in affine
/// form, and is the encoding of that point: no two encodings give one point.
pub proof fn lemma_decoded_point(b: Seq<u8>)
    requires
        decode_point(b) is Some,
    ensures
        on_curve(decode_point(b)->Some_0),
        in_range(decode_point(b)->Some_0),
        decode_point(b)->Some_0.z == 1,
        encode_point(decode_point(b)->Some_0) == b,
{
    let p = decode_point(b)->Some_0;
    let sign = b[56] >= 128;
    let cleared = b.update(56, b[56] & 0x7fu8);
    let y = le_nat(cleared);
    let yy = fmul(y, y);
    let u = fsub(yy, 1);
    let d = curve_d();
    let v = fsub(fmul(d, yy), 1);
    let w = finv(v);
    let q = fdiv(u, v);
    let c = root_candidate(q);
    assert(fsqrt(q) == Some(c));
    lemma_constants_shape();
    lemma_congruent_remainder(vstd::arithmetic::power::pow(q as int, crate::constants::root_exponent()));
    lemma_fneg(c);
    assert(p.x == c || p.x == fneg(c));
    assert(p.x < field_prime());
    let xx = fmul(p.x, p.x);
    assert(xx == q);
    // the curve's equation
    assert(is_inverse(v, w));
    lemma_fmul(y, y);
    lemma_fsub(yy, 1);
    lemma_fmul(d, yy);
    lemma_fsub(fmul(d, yy), 1);
    lemma_congruent_sub(fmul(d, yy) as int, (d * yy) as int, 1, 1);
    lemma_fmul(u, w);
    vstd::arithmetic::div_mod::lemma_small_mod(1, field_prime());
    lemma_solved_equation(xx as int, yy as int, u as int, v as int, w as int, d as int);
    lemma_on_curve_affine(p.x, y);
    // the encoding
    lemma_inverse_of_one();
    lemma_fmul_one(p.x);
    lemma_fmul_one(y);
    assert(affine_x(p) == p.x);
    assert(affine_y(p) == y);
    lemma_le_bytes_unique(cleared);
    assert(le_bytes(y, 57) == cleared);
    assert((p.x % 2 == 1) == sign);
    let top = b[56];
    if sign {
        assert((top & 0x7fu8) | 0x80u8 == top) by (bit_vector)
            requires
                top >= 128,
        ;
        assert(cleared.update(56, cleared[56] | 0x80u8) =~= b);
    } else {
        assert(top & 0x7fu8 == top) by (bit_vector)
            requires
                top < 128,
        ;
        assert(cleared =~= b);
    }
}

/// An encoding is 57 bytes.
pub proof fn lemma_encoding_length(p: PointModel)
    ensures
        encode_point(p).len() == 57,
{
    lemma_le_bytes_len(affine_y(p), 57);
}

/// A signature is 114 bytes, and its second half spells a number below the
/// group order; a public key is 57 bytes.
pub proof fn lemma_signature_shape(seed: Seq<u8>, msg: Seq<u8>, ctx: Seq<u8>, pre_hash: bool)
    ensures
        signature(seed, msg, ctx, pre_hash).len() == 114,
        le_nat(signature(seed, msg, ctx, pre_hash).subrange(57, 114)) < group_order(),
        public_key_bytes(seed).len() == 57,
{
    let r = nonce(seed, msg, ctx, pre_hash);
    let big_r = encode_point(scalar_mul(base_point(), r));
    let h = challenge(big_r, public_key_bytes(seed), msg, ctx, pre_hash);
    let s = (r + h * secret_scalar(seed)) % group_order();
    lemma_encoding_length(scalar_mul(base_point(), r));
    lemma_encoding_length(scalar_mul(base_point(), secret_scalar(seed)));
    lemma_constants_shape();
    vstd::arithmetic::div_mod::lemma_mod_bound(
        (r + h * secret_scalar(seed)) as int,
        group_order() as int,
    );
    lemma_le_bytes_len(s, 57);
    lemma_le_bytes_value(s, 57);
    assert(signature(seed, msg, ctx, pre_hash).subrange(57, 114) =~= le_bytes(s, 57));
}

/// Verification is lenient by the cofactor: a signature of the right length
/// whose halves are well formed is accepted as soon as the two sides of its
/// equation agree after they were doubled twice, whether or not they agree
/// before.
pub proof fn lemma_verification_by_cofactor(
    key: Seq<u8>,
    msg: Seq<u8>,
    sig: Seq<u8>,
    ctx: Seq<u8>,
    pre_hash: bool,
)
    requires
        sig.len() == 114,
        ctx.len() <= 255,
        decode_point(sig.subrange(0, 57)) is Some,
        decode_point(key) is Some,
        le_nat(sig.subrange(57, 114)) < group_order(),
    ensures
        ({
            let r = decode_point(sig.subrange(0, 57))->Some_0;
            let a = decode_point(key)->Some_0;
            let h = challenge(sig.subrange(0, 57), key, msg, ctx, pre_hash);
            let lhs = scalar_mul(base_point(), le_nat(sig.subrange(57, 114)));
            let rhs = edwards_add(r, scalar_mul(a, h));
            verification(key, msg, sig, ctx, pre_hash) == (if same_point(
                edwards_double(edwards_double(lhs)),
                edwards_double(edwards_double(rhs)),
            ) {
                Ok::<(), Ed448Error>(())
            } else {
                Err::<(), Ed448Error>(Ed448Error::InvalidSignature)
            })
        }),
{
}

/// Each side of the equation of a signature is a point of the curve.
pub proof fn lemma_equation_on_curve(r: PointModel, a: PointModel, s: nat, h: nat)
    requires
        on_curve(r),
        on_curve(a),
    ensures
        on_curve(edwards_double(edwards_double(scalar_mul(base_point(), s)))),
        on_curve(edwards_double(edwards_double(edwards_add(r, scalar_mul(a, h))))),
{
    lemma_base_on_curve();
    lemma_scalar_mul_on_curve(base_point(), s);
    lemma_scalar_mul_on_curve(a, h);
    lemma_add_on_curve(r, scalar_mul(a, h));
    lemma_double_on_curve(scalar_mul(base_point(), s));
    lemma_double_on_curve(edwards_double(scalar_mul(base_point(), s)));
    lemma_double_on_curve(edwards_add(r, scalar_mul(a, h)));
    lemma_double_on_curve(edwards_double(edwards_add(r, scalar_mul(a, h))));
}

/// No two encodings stand for the same point.
pub proof fn lemma_decode_injective(a: Seq<u8>, b: Seq<u8>)
    requires
        decode_point(a) is Some,
        decode_point(b) is Some,
        same_point(decode_point(a)->Some_0, decode_point(b)->Some_0),
    ensures
        a == b,
{
    let p = decode_point(a)->Some_0;
    let q = decode_point(b)->Some_0;
    lemma_decoded_point(a);
    lemma_decoded_point(b);
    lemma_fmul_one(p.x);
    lemma_fmul_one(p.y);
    lemma_fmul_one(q.x);
    lemma_fmul_one(q.y);
    assert(p == q);
}

/// One side of a quotient: `a / z` is `b / w` where `a w` is `b z`.
proof fn lemma_equal_quotients(a: nat, z: nat, b: nat, w: nat)
    requires
        invertible(z),
        invertible(w),
        fmul(a, w) == fmul(b, z),
    ensures
        fdiv(a, z) == fdiv(b, w),
{
    let zi = finv(z);
    let wi = finv(w);
    let (a, z, b, w, zi, wi) = (a as int, z as int, b as int, w as int, zi as int, wi as int);
    vstd::arithmetic::div_mod::lemma_small_mod(1, field_prime());
    lemma_constants_shape();
    assert(congruent(z * zi, 1));
    assert(congruent(w * wi, 1));
    lemma_fmul(a as nat, w as nat);
    lemma_fmul(b as nat, z as nat);
    assert(congruent(a * w, b * z));
    // a zi = a zi (w wi) = (a w) (zi wi) = (b z) (zi wi) = b wi (z zi) = b wi
    lemma_congruent_mul(a * zi, a * zi, w * wi, 1);
    assert((a * zi) * 1 == a * zi);
    lemma_regroup(a, zi, w, wi);
    assert((a * zi) * (w * wi) == (a * w) * (zi * wi));
    lemma_congruent_mul(a * w, b * z, zi * wi, zi * wi);
    lemma_regroup(b, z, zi, wi);
    assert((b * z) * (zi * wi) == (b * wi) * (z * zi));
    lemma_congruent_mul(b * wi, b * wi, z * zi, 1);
    assert((b * wi) * 1 == b * wi);
    lemma_fmul(a as nat, zi as nat);
    lemma_fmul(b as nat, wi as nat);
    lemma_congruent_residues(fmul(a as nat, zi as nat) as int, fmul(b as nat, wi as nat) as int);
}

/// Equal points have equal encodings: what is encoded is the affine point,
/// whichever triple stands for it.
pub proof fn lemma_same_point_same_encoding(p: PointModel, q: PointModel)
    requires
        invertible(p.z),
        invertible(q.z),
        same_point(p, q),
    ensures
        encode_point(p) == encode_point(q),
{
    lemma_equal_quotients(p.x, p.z, q.x, q.z);
    lemma_equal_quotients(p.y, p.z, q.y, q.z);
}

/// Signing is deterministic: two calls on the same seed, message, context
/// and variant come out the same, byte for byte.
pub proof fn lemma_signing_is_deterministic(
    seed: Seq<u8>,
    msg: Seq<u8>,
    ctx: Seq<u8>,
    pre_hash: bool,
    first: Result<[u8; 114], Ed448Error>,
    second: Result<[u8; 114], Ed448Error>,
)
    requires
        outcome(first) == signing(seed, msg, ctx, pre_hash),
        outcome(second) == signing(seed, msg, ctx, pre_hash),
    ensures
        first == second,
{
    if first is Ok {
        assert(first->Ok_0 =~= second->Ok_0);
    }
}

/// A signature whose second half is not below the group order is no
/// signature, whatever else is given: the key, the message, the context.
pub proof fn lemma_second_half_in_range(
    key: Seq<u8>,
    msg: Seq<u8>,
    sig: Seq<u8>,
    ctx: Seq<u8>,
    pre_hash: bool,
)
    requires
        sig.len() == 114,
        le_nat(sig.subrange(57, 114)) >= group_order(),
    ensures
        verification(key, msg, sig, ctx, pre_hash) == Err::<(), Ed448Error>(
            Ed448Error::InvalidSignature,
        ),
{
}

} // verus!
