//! Ed448 signatures: EdDSA over the Edwards448 curve, in its pure and its
//! pre-hashed variant, with an optional context.
//!
//! Every function of the library carries a contract that Verus checks. The
//! arithmetic on big numbers is done by `num_bigint` and the hashing by
//! `sha3`, each behind a small function whose contract is taken on trust; the
//! modules [`bignum`] and [`hash`] hold them.

pub mod bignum;
pub mod bytes;
pub mod closure;
pub mod constants;
pub mod field;
pub mod group;
pub mod hash;
pub mod modular;
pub mod point;
pub mod private_key;
pub mod public_key;
pub mod scalar;
pub mod theorems;

pub use crate::hash::shake256;
pub use crate::point::Point;
pub use crate::private_key::PrivateKey;
pub use crate::public_key::{PublicKey, PublicKeyRaw};
pub use crate::scalar::Scalar;

use vstd::prelude::*;

verus! {

/// Length of a seed, of a public key and of each half of a signature.
pub const KEY_LENGTH: usize = 57;

/// Length of a signature.
pub const SIG_LENGTH: usize = 114;

/// What can go wrong.
#[derive(Clone, Copy, Debug, PartialEq, Eq)]
pub enum Ed448Error {
    /// The bytes given for a public key are not 57.
    WrongPublicKeyLength,
    /// The bytes given for a secret key are not 57.
    WrongSecretKeyLength,
    /// The bytes given for a signature are not 114.
    WrongSignatureLength,
    /// The context is longer than 255 bytes.
    ContextTooLong,
    /// The signature does not belong to the message and the key.
    InvalidSignature,
}

/// Whether the message is hashed before it is signed.
#[derive(Clone, Copy, Debug, PartialEq, Eq)]
pub enum PreHash {
    False,
    True,
}

} // verus!
