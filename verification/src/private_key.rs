//! The secret key, and signing.

use crate::bytes::{
    array_57, le_bytes, le_from, le_nat, lemma_array_57, lemma_le_bytes_unique,
    lemma_le_nat_split, pow256, take_57,
};
use crate::constants::group_order;
use crate::hash::{
    context_bytes, digest, dom4_hash, halves, lemma_joined_three, lemma_joined_two,
    message_digest, shake256, shake256_xof, xof,
};
use crate::point::{base_point, encode_point, scalar_mul, Point};
use crate::scalar::Scalar;
use crate::{Ed448Error, PreHash};
use vstd::prelude::*;
use vstd::std_specs::convert::{FromSpecImpl, TryFromSpecImpl};

verus! {

/// The 114 bytes that a seed is expanded to.
pub open spec fn expanded(seed: Seq<u8>) -> Seq<u8> {
    shake256_xof(seed, 114)
}

/// The bytes of a secret scalar, made from 57 bytes of hash: the two lowest
/// bits are cleared, the last byte is cleared, and the top bit of the byte
/// before it is set.
pub open spec fn clamped(b: Seq<u8>) -> Seq<u8> {
    b.update(0, b[0] & 0xfcu8).update(55, b[55] | 0x80u8).update(56, 0u8)
}

/// The secret scalar of a seed.
pub open spec fn secret_scalar(seed: Seq<u8>) -> nat {
    le_nat(clamped(expanded(seed).subrange(0, 57)))
}

/// The second half of the expanded seed, which goes into each nonce.
pub open spec fn nonce_prefix(seed: Seq<u8>) -> Seq<u8> {
    expanded(seed).subrange(57, 114)
}

/// The public key of a seed: the encoding of `[s]B`.
pub open spec fn public_key_bytes(seed: Seq<u8>) -> Seq<u8> {
    encode_point(scalar_mul(base_point(), secret_scalar(seed)))
}

/// The nonce `r` of a signature.
pub open spec fn nonce(seed: Seq<u8>, msg: Seq<u8>, ctx: Seq<u8>, pre_hash: bool) -> nat {
    le_nat(dom4_hash(pre_hash, ctx, nonce_prefix(seed) + message_digest(pre_hash, msg)))
        % group_order()
}

/// The challenge `h` of a signature with first half `big_r` under the key `key`.
pub open spec fn challenge(
    big_r: Seq<u8>,
    key: Seq<u8>,
    msg: Seq<u8>,
    ctx: Seq<u8>,
    pre_hash: bool,
) -> nat {
    le_nat(dom4_hash(pre_hash, ctx, big_r + key + message_digest(pre_hash, msg))) % group_order()
}

/// The signature of `msg` under the seed and the context: `R`, the encoding
/// of `[r]B`, and then `S = r + h s` modulo the group order, in 57 bytes.
pub open spec fn signature(seed: Seq<u8>, msg: Seq<u8>, ctx: Seq<u8>, pre_hash: bool) -> Seq<u8> {
    let r = nonce(seed, msg, ctx, pre_hash);
    let big_r = encode_point(scalar_mul(base_point(), r));
    let h = challenge(big_r, public_key_bytes(seed), msg, ctx, pre_hash);
    big_r + le_bytes((r + h * secret_scalar(seed)) % group_order(), 57)
}

/// What signing returns: the signature, or the fault that the context is too
/// long. It is a function of the seed, the message, the context and the
/// variant, and of nothing else.
pub open spec fn signing(seed: Seq<u8>, msg: Seq<u8>, ctx: Seq<u8>, pre_hash: bool) -> Result<
    Seq<u8>,
    Ed448Error,
> {
    if ctx.len() > 255 {
        Err(Ed448Error::ContextTooLong)
    } else {
        Ok(signature(seed, msg, ctx, pre_hash))
    }
}

/// What came out of a call to sign, with the bytes of the signature in place
/// of the array that holds them.
pub open spec fn outcome(r: Result<[u8; 114], Ed448Error>) -> Result<Seq<u8>, Ed448Error> {
    match r {
        Ok(sig) => Ok(sig@),
        Err(e) => Err(e),
    }
}

/// The secret scalar that 57 bytes of hash give.
pub fn clamp(bytes: [u8; 57]) -> (r: Scalar)
    ensures
        r.bytes@ == clamped(bytes@),
        r@ % 4 == 0,
        128 * pow256(55) <= r@ < pow256(56),
{
    let mut out = bytes;
    out[0] = out[0] & 0xfc;
    out[55] = out[55] | 0x80;
    out[56] = 0;
    proof {
        let low: u8 = out@[0];
        let high: u8 = out@[55];
        let low_in: u8 = bytes@[0];
        let high_in: u8 = bytes@[55];
        assert(low % 4 == 0) by (bit_vector)
            requires
                low == low_in & 0xfc,
        ;
        assert(high >= 128) by (bit_vector)
            requires
                high == high_in | 0x80,
        ;
        assert(le_nat(out@) % 4 == 0) by {
            reveal_with_fuel(le_from, 2);
        }
        lemma_le_nat_split(out@, 55);
        lemma_le_nat_split(out@, 56);
        assert(le_from(out@, 55) == out@[55]) by {
            reveal_with_fuel(le_from, 3);
        }
        assert(le_from(out@, 56) == 0) by {
            reveal_with_fuel(le_from, 2);
        }
        let p55 = pow256(55);
        let hi = le_from(out@, 55);
        assert(128 * p55 <= p55 * hi) by (nonlinear_arith)
            requires
                hi >= 128,
                p55 >= 0,
        ;
        assert(pow256(56) * 0 == 0);
    }
    Scalar { bytes: out }
}

/// The two halves of a signature, put together.
pub fn assemble(big_r: &[u8; 57], s: &[u8; 57]) -> (r: [u8; 114])
    ensures
        r@ == big_r@ + s@,
{
    let mut out = [0u8; 114];
    let mut i: usize = 0;
    while i < 57
        invariant
            i <= 57,
            forall|j: int| 0 <= j < i ==> out@[j] == big_r@[j],
            forall|j: int| 0 <= j < i ==> out@[57 + j] == s@[j],
        decreases 57 - i,
    {
        out[i] = big_r[i];
        out[57 + i] = s[i];
        i = i + 1;
    }
    assert(out@ =~= big_r@ + s@);
    out
}

/// A secret key: 57 bytes of seed, to be kept secret.
pub struct PrivateKey {
    seed: [u8; 57],
}

impl View for PrivateKey {
    type V = Seq<u8>;

    closed spec fn view(&self) -> Seq<u8> {
        self.seed@
    }
}

impl PrivateKey {
    /// The key with the seed `seed`.
    pub closed spec fn of_seed(seed: [u8; 57]) -> PrivateKey {
        PrivateKey { seed }
    }

    /// A key is 57 bytes.
    pub proof fn lemma_length(&self)
        ensures
            self@.len() == 57,
    {
    }

    /// The key of a seed holds that seed, and is the only key that does.
    pub proof fn lemma_of_seed(seed: [u8; 57])
        ensures
            PrivateKey::of_seed(seed)@ == seed@,
            forall|k: PrivateKey| k@ == seed@ ==> k == PrivateKey::of_seed(seed),
    {
        assert forall|k: PrivateKey| k@ == seed@ implies k == PrivateKey::of_seed(seed) by {
            assert(k.seed =~= seed);
        }
    }

    /// The key that `bytes` are the seed of.
    pub fn new(bytes: [u8; 57]) -> (r: PrivateKey)
        ensures
            r@ == bytes@,
    {
        PrivateKey { seed: bytes }
    }

    /// The key that the bytes of `value` are the seed of. They must be 57.
    pub fn from_slice(value: &[u8]) -> (r: Result<PrivateKey, Ed448Error>)
        ensures
            value@.len() == 57 <==> r is Ok,
            value@.len() != 57 <==> r == Err::<PrivateKey, Ed448Error>(
                Ed448Error::WrongSecretKeyLength,
            ),
            r matches Ok(key) ==> key@ == value@,
    {
        if value.len() != 57 {
            return Err(Ed448Error::WrongSecretKeyLength);
        }
        let seed = take_57(value, 0);
        assert(seed@ =~= value@);
        Ok(PrivateKey { seed })
    }

    /// The seed.
    pub fn as_bytes(&self) -> (r: &[u8; 57])
        ensures
            r@ == self@,
    {
        &self.seed
    }

    /// The secret scalar and the prefix of the nonces that the seed expands to.
    pub fn expand(&self) -> (r: (Scalar, [u8; 57]))
        ensures
            expanded(self@).len() == 114,
            r.0.bytes@ == clamped(expanded(self@).subrange(0, 57)),
            r.0@ == secret_scalar(self@),
            r.0@ % 4 == 0,
            128 * pow256(55) <= r.0@ < pow256(56),
            r.1@ == nonce_prefix(self@),
    {
        let hash = xof(&self.seed, 114);
        let (low, high) = halves(hash.as_slice());
        (clamp(low), high)
    }

    /// Signs `msg` under the context `ctx`, which may have 255 bytes at most.
    pub fn sign(&self, msg: &[u8], ctx: Option<&[u8]>) -> (r: Result<[u8; 114], Ed448Error>)
        ensures
            context_bytes(ctx).len() > 255 <==> r == Err::<[u8; 114], Ed448Error>(
                Ed448Error::ContextTooLong,
            ),
            context_bytes(ctx).len() <= 255 <==> r is Ok,
            outcome(r) == signing(self@, msg@, context_bytes(ctx), false),
            r matches Ok(sig) ==> sig@ == signature(self@, msg@, context_bytes(ctx), false)
                && le_nat(sig@.subrange(57, 114)) < group_order(),
    {
        self.sign_real(msg, ctx, PreHash::False)
    }

    /// Signs the SHAKE256 hash of `msg` under the context `ctx`, which may
    /// have 255 bytes at most.
    pub fn sign_ph(&self, msg: &[u8], ctx: Option<&[u8]>) -> (r: Result<[u8; 114], Ed448Error>)
        ensures
            context_bytes(ctx).len() > 255 <==> r == Err::<[u8; 114], Ed448Error>(
                Ed448Error::ContextTooLong,
            ),
            context_bytes(ctx).len() <= 255 <==> r is Ok,
            outcome(r) == signing(self@, msg@, context_bytes(ctx), true),
            r matches Ok(sig) ==> sig@ == signature(self@, msg@, context_bytes(ctx), true)
                && le_nat(sig@.subrange(57, 114)) < group_order(),
    {
        self.sign_real(msg, ctx, PreHash::True)
    }

    fn sign_real(&self, msg: &[u8], ctx: Option<&[u8]>, pre_hash: PreHash) -> (r: Result<
        [u8; 114],
        Ed448Error,
    >)
        ensures
            context_bytes(ctx).len() > 255 <==> r == Err::<[u8; 114], Ed448Error>(
                Ed448Error::ContextTooLong,
            ),
            context_bytes(ctx).len() <= 255 <==> r is Ok,
            outcome(r) == signing(self@, msg@, context_bytes(ctx), pre_hash.flag()),
            r matches Ok(sig) ==> sig@ == signature(
                self@,
                msg@,
                context_bytes(ctx),
                pre_hash.flag(),
            ) && le_nat(sig@.subrange(57, 114)) < group_order(),
    {
        let empty: Vec<u8> = Vec::new();
        let ctx: &[u8] = match ctx {
            Some(c) => c,
            None => empty.as_slice(),
        };
        if ctx.len() > 255 {
            return Err(Ed448Error::ContextTooLong);
        }
        let digest = digest(msg, pre_hash);
        let msg: &[u8] = digest.as_slice();
        let (s, prefix_bytes) = self.expand();
        let prefix: &[u8] = prefix_bytes.as_slice();
        let key_bytes = Point::base().scalar_mul(&s).encode();
        let key: &[u8] = key_bytes.as_slice();
        // The nonce.
        proof {
            lemma_joined_two(prefix, msg);
        }
        let r_hash = match shake256(vec![prefix, msg], ctx, pre_hash) {
            Ok(h) => h,
            Err(e) => {
                return Err(e);
            },
        };
        let r = Scalar::reduce(r_hash.as_slice());
        let big_r = Point::base().scalar_mul(&r).encode();
        let big_r_bytes: &[u8] = big_r.as_slice();
        // The challenge.
        proof {
            lemma_joined_three(big_r_bytes, key, msg);
        }
        let h_hash = match shake256(vec![big_r_bytes, key, msg], ctx, pre_hash) {
            Ok(h) => h,
            Err(e) => {
                return Err(e);
            },
        };
        let h = Scalar::reduce(h_hash.as_slice());
        let big_s = h.mul_add(&s, &r).to_bytes();
        proof {
            lemma_le_bytes_unique(big_s@);
        }
        let sig = assemble(&big_r, &big_s);
        assert(sig@.subrange(57, 114) =~= big_s@);
        Ok(sig)
    }
}

impl From<[u8; 57]> for PrivateKey {
    fn from(array: [u8; 57]) -> (r: PrivateKey)
        ensures
            r@ == array@,
    {
        PrivateKey { seed: array }
    }
}

impl FromSpecImpl<[u8; 57]> for PrivateKey {
    open spec fn obeys_from_spec() -> bool {
        true
    }

    open spec fn from_spec(array: [u8; 57]) -> PrivateKey {
        PrivateKey::of_seed(array)
    }
}

impl<'a> TryFrom<&'a [u8]> for PrivateKey {
    type Error = Ed448Error;

    fn try_from(value: &'a [u8]) -> (r: Result<PrivateKey, Ed448Error>)
        ensures
            value@.len() == 57 <==> r is Ok,
            value@.len() != 57 <==> r == Err::<PrivateKey, Ed448Error>(
                Ed448Error::WrongSecretKeyLength,
            ),
            r matches Ok(key) ==> key@ == value@,
    {
        let r = PrivateKey::from_slice(value);
        proof {
            if r is Ok {
                lemma_array_57(value@);
            }
        }
        r
    }
}

impl<'a> TryFromSpecImpl<&'a [u8]> for PrivateKey {
    open spec fn obeys_try_from_spec() -> bool {
        true
    }

    open spec fn try_from_spec(value: &'a [u8]) -> Result<PrivateKey, Ed448Error> {
        if value@.len() == 57 {
            Ok(PrivateKey::of_seed(array_57(value@)))
        } else {
            Err(Ed448Error::WrongSecretKeyLength)
        }
    }
}

} // verus!
