//! The public key, and verification.

use crate::bytes::{array_57, le_nat, lemma_array_57, take_57};
use crate::constants::group_order;
use crate::hash::{context_bytes, digest, halves, lemma_joined_three, shake256};
use crate::point::{
    base_point, decode_point, edwards_add, edwards_double, encode_point, same_point, scalar_mul,
    Point, PointModel,
};
use crate::private_key::{challenge, public_key_bytes, PrivateKey};
use crate::scalar::Scalar;
use crate::{Ed448Error, PreHash};
use vstd::prelude::*;
use vstd::std_specs::convert::{FromSpecImpl, TryFromSpecImpl};

verus! {

/// The bytes of a public key.
pub type PublicKeyRaw = [u8; 57];

/// Whether `[S]B` and `R + [h]A` are the same point once each is multiplied
/// by the cofactor 4, that is, doubled twice.
pub open spec fn equation_holds(r: PointModel, a: PointModel, s: nat, h: nat) -> bool {
    let lhs = scalar_mul(base_point(), s);
    let rhs = edwards_add(r, scalar_mul(a, h));
    same_point(edwards_double(edwards_double(lhs)), edwards_double(edwards_double(rhs)))
}

/// Whether the 114 bytes of `sig` are a signature of `msg` under the key and
/// the context: both halves are well formed, `S` lies below the group order,
/// and the equation holds.
pub open spec fn accepts(key: Seq<u8>, msg: Seq<u8>, sig: Seq<u8>, ctx: Seq<u8>, pre_hash: bool) -> bool {
    let big_r = sig.subrange(0, 57);
    let s = le_nat(sig.subrange(57, 114));
    let h = challenge(big_r, key, msg, ctx, pre_hash);
    match (decode_point(big_r), decode_point(key)) {
        (Some(r), Some(a)) => s < group_order() && equation_holds(r, a, s, h),
        _ => false,
    }
}

/// Whether a key and the 114 bytes of a signature are well formed: both
/// halves of the signature and the key are read without fault, that is, `R`
/// and the key stand for points and `S` lies below the group order.
pub open spec fn well_formed(key: Seq<u8>, sig: Seq<u8>) -> bool {
    &&& decode_point(sig.subrange(0, 57)) is Some
    &&& decode_point(key) is Some
    &&& le_nat(sig.subrange(57, 114)) < group_order()
}

/// What a verification returns. The length of the signature is looked at
/// first, then its two halves and the key, then the context, and the
/// equation last.
pub open spec fn verification(
    key: Seq<u8>,
    msg: Seq<u8>,
    sig: Seq<u8>,
    ctx: Seq<u8>,
    pre_hash: bool,
) -> Result<(), Ed448Error> {
    if sig.len() != 114 {
        Err(Ed448Error::WrongSignatureLength)
    } else if !well_formed(key, sig) {
        Err(Ed448Error::InvalidSignature)
    } else if ctx.len() > 255 {
        Err(Ed448Error::ContextTooLong)
    } else if accepts(key, msg, sig, ctx, pre_hash) {
        Ok(())
    } else {
        Err(Ed448Error::InvalidSignature)
    }
}

/// Whether the equation of a signature holds, cofactor included.
pub fn check_equation(r: &Point, a: &Point, s: &Scalar, h: &Scalar) -> (ok: bool)
    requires
        r.wf(),
        a.wf(),
    ensures
        ok == equation_holds(r@, a@, s@, h@),
{
    let rhs = r.add(&a.scalar_mul(h)).double().double();
    let lhs = Point::base().scalar_mul(s).double().double();
    lhs.equals(&rhs)
}

/// A public key: the 57 bytes of a point. This is the key to hand out.
pub struct PublicKey(pub PublicKeyRaw);

impl View for PublicKey {
    type V = Seq<u8>;

    open spec fn view(&self) -> Seq<u8> {
        self.0@
    }
}

impl PublicKey {
    /// The bytes of the key.
    pub fn as_byte(&self) -> (r: &PublicKeyRaw)
        ensures
            r@ == self@,
    {
        &self.0
    }

    /// The key that `bytes` are. Whether they stand for a point is found out
    /// when a signature is verified.
    pub fn new(bytes: PublicKeyRaw) -> (r: PublicKey)
        ensures
            r@ == bytes@,
    {
        PublicKey(bytes)
    }

    /// The key that `value` holds the bytes of. They must be 57.
    pub fn from_slice(value: &[u8]) -> (r: Result<PublicKey, Ed448Error>)
        ensures
            value@.len() == 57 <==> r is Ok,
            value@.len() != 57 <==> r == Err::<PublicKey, Ed448Error>(
                Ed448Error::WrongPublicKeyLength,
            ),
            r matches Ok(key) ==> key@ == value@,
    {
        if value.len() != 57 {
            return Err(Ed448Error::WrongPublicKeyLength);
        }
        let bytes = take_57(value, 0);
        assert(bytes@ =~= value@);
        Ok(PublicKey(bytes))
    }

    /// The key of the secret scalar `s`: the encoding of `[s]B`.
    pub fn from_scalar(s: &Scalar) -> (r: PublicKey)
        ensures
            r@ == encode_point(scalar_mul(base_point(), s@)),
    {
        PublicKey(Point::base().scalar_mul(s).encode())
    }

    /// The key that belongs to a secret key.
    pub fn from_private(private_key: &PrivateKey) -> (r: PublicKey)
        ensures
            r@ == public_key_bytes(private_key@),
    {
        let (s, _) = private_key.expand();
        PublicKey::from_scalar(&s)
    }

    /// Whether `sign` is a signature of `msg` under this key and the context
    /// `ctx`: `Ok` where it is, and the reason where it is not.
    pub fn verify(&self, msg: &[u8], sign: &[u8], ctx: Option<&[u8]>) -> (r: Result<
        (),
        Ed448Error,
    >)
        ensures
            r == verification(self@, msg@, sign@, context_bytes(ctx), false),
    {
        self.verify_real(msg, sign, ctx, PreHash::False)
    }

    /// As [`PublicKey::verify`], for a signature on the SHAKE256 hash of `msg`.
    pub fn verify_ph(&self, msg: &[u8], sign: &[u8], ctx: Option<&[u8]>) -> (r: Result<
        (),
        Ed448Error,
    >)
        ensures
            r == verification(self@, msg@, sign@, context_bytes(ctx), true),
    {
        self.verify_real(msg, sign, ctx, PreHash::True)
    }

    fn verify_real(&self, msg: &[u8], sign: &[u8], ctx: Option<&[u8]>, pre_hash: PreHash) -> (r:
        Result<(), Ed448Error>)
        ensures
            r == verification(self@, msg@, sign@, context_bytes(ctx), pre_hash.flag()),
    {
        // The lengths first.
        if sign.len() != 114 {
            return Err(Ed448Error::WrongSignatureLength);
        }
        let empty: Vec<u8> = Vec::new();
        let ctx: &[u8] = match ctx {
            Some(c) => c,
            None => empty.as_slice(),
        };
        let digest = digest(msg, pre_hash);
        let msg: &[u8] = digest.as_slice();
        // The two halves: the point R and the scalar S.
        let (r_raw, s_raw) = halves(sign);
        let r = match Point::decode(&r_raw) {
            Some(r) => r,
            None => {
                return Err(Ed448Error::InvalidSignature);
            },
        };
        let s = Scalar::from_bytes(s_raw);
        // The point A of the key.
        let a = match Point::decode(&self.0) {
            Some(a) => a,
            None => {
                return Err(Ed448Error::InvalidSignature);
            },
        };
        if !s.is_canonical() {
            return Err(Ed448Error::InvalidSignature);
        }
        // The challenge h, which no context of more than 255 bytes has.
        let r_bytes: &[u8] = r_raw.as_slice();
        let key: &[u8] = self.0.as_slice();
        proof {
            lemma_joined_three(r_bytes, key, msg);
        }
        let h_hash = match shake256(vec![r_bytes, key, msg], ctx, pre_hash) {
            Ok(h) => h,
            Err(e) => {
                return Err(e);
            },
        };
        let h = Scalar::reduce(h_hash.as_slice());
        // The equation, times the cofactor.
        if check_equation(&r, &a, &s, &h) {
            Ok(())
        } else {
            Err(Ed448Error::InvalidSignature)
        }
    }
}

impl<'a> From<&'a PrivateKey> for PublicKey {
    fn from(private_key: &'a PrivateKey) -> (r: PublicKey)
        ensures
            r@ == public_key_bytes(private_key@),
    {
        let r = PublicKey::from_private(private_key);
        proof {
            lemma_array_57(r@);
        }
        r
    }
}

impl<'a> FromSpecImpl<&'a PrivateKey> for PublicKey {
    open spec fn obeys_from_spec() -> bool {
        true
    }

    open spec fn from_spec(private_key: &'a PrivateKey) -> PublicKey {
        PublicKey(array_57(public_key_bytes(private_key@)))
    }
}

impl From<Scalar> for PublicKey {
    fn from(s: Scalar) -> (r: PublicKey)
        ensures
            r@ == encode_point(scalar_mul(base_point(), s@)),
    {
        let r = PublicKey::from_scalar(&s);
        proof {
            lemma_array_57(r@);
        }
        r
    }
}

impl FromSpecImpl<Scalar> for PublicKey {
    open spec fn obeys_from_spec() -> bool {
        true
    }

    open spec fn from_spec(s: Scalar) -> PublicKey {
        PublicKey(array_57(encode_point(scalar_mul(base_point(), s@))))
    }
}

impl From<[u8; 57]> for PublicKey {
    fn from(array: [u8; 57]) -> (r: PublicKey)
        ensures
            r@ == array@,
    {
        PublicKey(array)
    }
}

impl FromSpecImpl<[u8; 57]> for PublicKey {
    open spec fn obeys_from_spec() -> bool {
        true
    }

    open spec fn from_spec(array: [u8; 57]) -> PublicKey {
        PublicKey(array)
    }
}

impl<'a> TryFrom<&'a [u8]> for PublicKey {
    type Error = Ed448Error;

    fn try_from(value: &'a [u8]) -> (r: Result<PublicKey, Ed448Error>)
        ensures
            value@.len() == 57 <==> r is Ok,
            value@.len() != 57 <==> r == Err::<PublicKey, Ed448Error>(
                Ed448Error::WrongPublicKeyLength,
            ),
            r matches Ok(key) ==> key@ == value@,
    {
        let r = PublicKey::from_slice(value);
        proof {
            if r is Ok {
                lemma_array_57(value@);
            }
        }
        r
    }
}

impl<'a> TryFromSpecImpl<&'a [u8]> for PublicKey {
    open spec fn obeys_try_from_spec() -> bool {
        true
    }

    open spec fn try_from_spec(value: &'a [u8]) -> Result<PublicKey, Ed448Error> {
        if value@.len() == 57 {
            Ok(PublicKey(array_57(value@)))
        } else {
            Err(Ed448Error::WrongPublicKeyLength)
        }
    }
}

} // verus!
