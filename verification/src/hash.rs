//! SHAKE256, and the hash of Ed448 that is built on it.
//!
//! The hash function itself is `sha3`'s. Its output is a name to the
//! contracts, [`shake256_xof`]: nothing is known of it but its length and that
//! equal inputs give equal outputs.

use crate::bytes::take_57;
use crate::{Ed448Error, PreHash};
use sha3::digest::{ExtendableOutput, Update};
use sha3::Shake256;
use vstd::prelude::*;
use vstd::slice::slice_to_vec;

verus! {

/// The first `out_len` bytes of SHAKE256's output on `input`.
pub uninterp spec fn shake256_xof(input: Seq<u8>, out_len: nat) -> Seq<u8>;

/// `sha3::Shake256`, fed `input` in one piece and read with
/// `ExtendableOutput::finalize_boxed`, which returns as many bytes as it is
/// asked for: the result is SHAKE256's output on `input`, `out_len` bytes long.
#[verifier::external_body]
pub(crate) fn xof(input: &[u8], out_len: usize) -> (r: Vec<u8>)
    ensures
        r@ == shake256_xof(input@, out_len as nat),
        r@.len() == out_len,
{
    Shake256::default().chain(input).finalize_boxed(out_len).to_vec()
}

/// The eight bytes of `SigEd448`.
pub const DOMAIN: [u8; 8] = [0x53, 0x69, 0x67, 0x45, 0x64, 0x34, 0x34, 0x38];

/// The prefix that separates the hashes of Ed448 from every other use of
/// SHAKE256: `SigEd448`, a byte that tells the pre-hashed variant from the pure
/// one, the length of the context in one byte, and the context.
pub open spec fn dom4(pre_hash: bool, ctx: Seq<u8>) -> Seq<u8> {
    DOMAIN@ + seq![if pre_hash { 1u8 } else { 0u8 }, ctx.len() as u8] + ctx
}

/// The buffers of `items`, one after the other.
pub open spec fn joined(items: Seq<&[u8]>) -> Seq<u8>
    decreases items.len(),
{
    if items.len() == 0 {
        Seq::empty()
    } else {
        joined(items.drop_last()) + items.last()@
    }
}

/// The 114 bytes that Ed448 hashes `data` to under a context.
pub open spec fn dom4_hash(pre_hash: bool, ctx: Seq<u8>, data: Seq<u8>) -> Seq<u8> {
    shake256_xof(dom4(pre_hash, ctx) + data, 114)
}

/// What is signed in place of the message: the message itself, or its first
/// 64 bytes of SHAKE256 in the pre-hashed variant.
pub open spec fn message_digest(pre_hash: bool, msg: Seq<u8>) -> Seq<u8> {
    if pre_hash {
        shake256_xof(msg, 64)
    } else {
        msg
    }
}

/// The context that an absent context stands for: the empty one.
pub open spec fn context_bytes(ctx: Option<&[u8]>) -> Seq<u8> {
    match ctx {
        Some(c) => c@,
        None => Seq::empty(),
    }
}

pub proof fn lemma_joined_two(a: &[u8], b: &[u8])
    ensures
        joined(seq![a, b]) == a@ + b@,
{
    let items = seq![a, b];
    assert(items.drop_last() =~= seq![a]);
    assert(seq![a].drop_last() =~= Seq::<&[u8]>::empty());
    assert(joined(Seq::<&[u8]>::empty()) =~= Seq::<u8>::empty());
    assert(seq![a].last() == a);
    assert(joined(seq![a]) =~= a@);
    assert(items.last() == b);
}

pub proof fn lemma_joined_three(a: &[u8], b: &[u8], c: &[u8])
    ensures
        joined(seq![a, b, c]) == a@ + b@ + c@,
{
    let items = seq![a, b, c];
    assert(items.drop_last() =~= seq![a, b]);
    assert(items.last() == c);
    lemma_joined_two(a, b);
}

impl PreHash {
    /// Whether this is the pre-hashed variant.
    pub open spec fn flag(&self) -> bool {
        *self is True
    }

    /// The byte that stands for the variant in the prefix of each hash.
    pub fn byte(&self) -> (r: u8)
        ensures
            r == (if self.flag() { 1u8 } else { 0u8 }),
    {
        match self {
            PreHash::False => 0,
            PreHash::True => 1,
        }
    }
}

/// What is signed in place of `msg`.
pub fn digest(msg: &[u8], pre_hash: PreHash) -> (r: Vec<u8>)
    ensures
        r@ == message_digest(pre_hash.flag(), msg@),
        pre_hash.flag() ==> r@.len() == 64,
        !pre_hash.flag() ==> r@ == msg@,
{
    match pre_hash {
        PreHash::False => slice_to_vec(msg),
        PreHash::True => xof(msg, 64),
    }
}

/// Hashes the buffers of `items`, one after the other, to 114 bytes under the
/// context `ctx`, which may have 255 bytes at most.
pub fn shake256(items: Vec<&[u8]>, ctx: &[u8], pre_hash: PreHash) -> (r: Result<
    Vec<u8>,
    Ed448Error,
>)
    ensures
        ctx@.len() > 255 <==> r == Err::<Vec<u8>, Ed448Error>(Ed448Error::ContextTooLong),
        ctx@.len() <= 255 <==> r is Ok,
        r matches Ok(h) ==> h@ == dom4_hash(pre_hash.flag(), ctx@, joined(items@)) && h@.len()
            == 114,
{
    if ctx.len() > 255 {
        return Err(Ed448Error::ContextTooLong);
    }
    let mut input: Vec<u8> = Vec::new();
    input.extend_from_slice(&DOMAIN);
    input.push(pre_hash.byte());
    input.push(ctx.len() as u8);
    input.extend_from_slice(ctx);
    assert(input@ =~= dom4(pre_hash.flag(), ctx@));
    let mut i: usize = 0;
    while i < items.len()
        invariant
            i <= items@.len(),
            input@ == dom4(pre_hash.flag(), ctx@) + joined(items@.subrange(0, i as int)),
        decreases items@.len() - i,
    {
        let item: &[u8] = items[i];
        input.extend_from_slice(item);
        proof {
            let next = items@.subrange(0, i + 1);
            assert(next.drop_last() =~= items@.subrange(0, i as int));
            assert(next.last() == items@[i as int]);
            assert(input@ =~= dom4(pre_hash.flag(), ctx@) + joined(next));
        }
        i = i + 1;
    }
    assert(items@.subrange(0, i as int) =~= items@);
    Ok(xof(input.as_slice(), 114))
}

/// The two halves of 114 bytes.
pub(crate) fn halves(bytes: &[u8]) -> (r: ([u8; 57], [u8; 57]))
    requires
        bytes@.len() == 114,
    ensures
        r.0@ == bytes@.subrange(0, 57),
        r.1@ == bytes@.subrange(57, 114),
{
    (take_57(bytes, 0), take_57(bytes, 57))
}

} // verus!
