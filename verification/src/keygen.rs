//! Key derivation for the Paillier cryptosystem (simplified variant):
//! `n = p*q`, `lambda = (p-1)(q-1)`, `g = n + 1`, `mu = lambda^-1 mod n`.

use vstd::prelude::*;
use crate::bignum::{spec_gcd, Natural};
use crate::numtheory::modinv;
use crate::prime::generate_prime;
use crate::randomness::EntropySource;
use crate::CryptoError;
use vstd::arithmetic::power2::pow2;
use vstd::arithmetic::div_mod::lemma_mul_mod_noop_general;

verus! {

/// The public half of a key pair: the modulus `n = p*q` and `g = n + 1`.
/// Immutable once constructed.
pub struct PublicKey {
    pub n: Natural,
    pub g: Natural,
}

impl PublicKey {
    /// The shape of every key produced by key generation.
    pub open spec fn wf(&self) -> bool {
        self.n@ > 2 && self.g@ == self.n@ + 1
    }
}

/// The private half of a key pair: `lambda = (p-1)(q-1)` and
/// `mu = lambda^-1 mod n`. Immutable once constructed; never stores `p` or
/// `q`.
pub struct PrivateKey {
    pub lambda: Natural,
    pub mu: Natural,
}

/// The relation between a key pair and the two `bits`-bit odd probable
/// primes it was derived from.
pub open spec fn derived_from(pk: PublicKey, sk: PrivateKey, bits: nat, p: nat, q: nat) -> bool {
    &&& pow2((bits - 1) as nat) <= p < pow2(bits)
    &&& pow2((bits - 1) as nat) <= q < pow2(bits)
    &&& p % 2 == 1
    &&& q % 2 == 1
    &&& p >= 3
    &&& q >= 3
    &&& pk.n@ == p * q
    &&& sk.lambda@ == (p - 1) * (q - 1)
}

/// Derives the key pair from two given odd probable primes.
///
/// Fails with `InvalidKeyMaterial` exactly when `lambda = (p-1)(q-1)` has no
/// inverse modulo `n = p*q`, which cannot happen for genuine distinct primes
/// and signals corrupted prime generation.
pub fn derive_keypair(p: &Natural, q: &Natural) -> (r: Result<
    (PublicKey, PrivateKey),
    CryptoError,
>)
    requires
        p@ >= 3,
        q@ >= 3,
        p@ % 2 == 1,
        q@ % 2 == 1,
    ensures
        r is Ok <==> spec_gcd(((p@ - 1) * (q@ - 1)) as nat, (p@ * q@) as nat) == 1,
        r matches Ok(pair) ==> {
            &&& pair.0.n@ == p@ * q@
            &&& pair.0.g@ == p@ * q@ + 1
            &&& pair.0.wf()
            &&& pair.0.n@ % 2 == 1
            &&& pair.1.lambda@ == (p@ - 1) * (q@ - 1)
            &&& pair.1.mu@ < pair.0.n@
            &&& (pair.1.lambda@ * pair.1.mu@) % pair.0.n@ == 1
        },
        r matches Err(e) ==> e == CryptoError::InvalidKeyMaterial,
{
    let one = Natural::from_u64(1);
    let n = p.mul(q);
    let phi = p.sub(&one).mul(&q.sub(&one));
    let g = n.add(&one);
    proof {
        assert(n@ > 2) by (nonlinear_arith)
            requires
                n@ == p@ * q@,
                p@ >= 3,
                q@ >= 3,
        ;
        // p and q odd makes n odd.
        lemma_mul_mod_noop_general(p@ as int, q@ as int, 2);
    }
    match modinv(&phi, &n) {
        None => Err(CryptoError::InvalidKeyMaterial),
        Some(mu) => Ok((PublicKey { n, g }, PrivateKey { lambda: phi, mu })),
    }
}

/// Generates a fresh key pair from two independently drawn probable primes
/// of `bits` bits each.
///
/// For every pair returned, `n` is odd and `mu * lambda == 1 (mod n)`.
/// `UnboundedSearch` reports an exhausted prime search; `InvalidKeyMaterial`
/// reports a `lambda` with no inverse modulo `n`.
pub fn generate_keypair(bits: u64, rng: &mut EntropySource) -> (r: Result<
    (PublicKey, PrivateKey),
    CryptoError,
>)
    requires
        2 <= bits,
    ensures
        r matches Ok(pair) ==> {
            &&& pair.0.wf()
            &&& pair.0.n@ % 2 == 1
            &&& pair.0.g@ == pair.0.n@ + 1
            &&& pair.1.mu@ < pair.0.n@
            &&& (pair.1.lambda@ * pair.1.mu@) % pair.0.n@ == 1
            &&& exists|p: nat, q: nat| derived_from(pair.0, pair.1, bits as nat, p, q)
        },
        r matches Err(e) ==> (e == CryptoError::UnboundedSearch || e
            == CryptoError::InvalidKeyMaterial),
{
    let p = match generate_prime(bits, rng) {
        Ok(v) => v,
        Err(e) => {
            return Err(e);
        },
    };
    let q = match generate_prime(bits, rng) {
        Ok(v) => v,
        Err(e) => {
            return Err(e);
        },
    };
    match derive_keypair(&p, &q) {
        Ok(pair) => {
            proof {
                assert(derived_from(pair.0, pair.1, bits as nat, p@, q@));
            }
            Ok(pair)
        },
        Err(e) => Err(e),
    }
}

} // verus!
