//! A partially homomorphic public-key cryptosystem (Paillier, simplified
//! variant with `g = n + 1`).
//!
//! The crate is organised around a trusted arbitrary-precision layer
//! (`bignum`, `randomness`) whose operations carry exact contracts over
//! mathematical integers, and verified cryptographic logic on top of it:
//! probable-prime generation (`prime`), key derivation (`keygen`),
//! encryption and decryption (`cipher`), the homomorphic ciphertext algebra
//! (`arithmetic`), a decrypt-based comparison demonstration (`comparator`),
//! and a canonical decimal codec for plaintexts and ciphertexts (`codec`).

use vstd::prelude::*;

pub mod arithmetic;
pub mod bignum;
pub mod cipher;
pub mod codec;
pub mod comparator;
pub mod keygen;
pub mod numtheory;
pub mod prime;
pub mod randomness;

verus! {

/// Failures surfaced by the cryptosystem.
#[derive(Clone, Copy, Debug, PartialEq, Eq, Structural)]
pub enum CryptoError {
    /// The modular inverse required during key derivation does not exist;
    /// the prime inputs were corrupted or malformed.
    InvalidKeyMaterial,
    /// `encrypt` was called with a plaintext outside `[0, n)`.
    OutOfRange,
    /// An externally supplied decimal representation is empty or holds a
    /// character that is not a digit.
    ParseError,
    /// A probabilistic search (prime generation or blinding-factor sampling)
    /// exceeded its sanity iteration bound.
    UnboundedSearch,
}

} // verus!
