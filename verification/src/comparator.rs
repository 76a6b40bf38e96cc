//! A decrypt-based greater-or-equal predicate built from the homomorphic
//! algebra.
//!
//! This is a single-party convenience for demonstrations only: the caller
//! holds the private key and decrypts the difference, so it is not a secure
//! comparison protocol between mutually distrusting parties.

use vstd::prelude::*;
use crate::bignum::Natural;
use crate::cipher::{dec_val, decrypt, enc_val, encrypt, valid_blinding};
use crate::arithmetic::{paillier_subtract, sub_val};
use crate::keygen::{PrivateKey, PublicKey};
use crate::randomness::EntropySource;
use crate::CryptoError;

verus! {

/// Encrypts both operands, forms the encrypted difference, decrypts it, and
/// reads the residue with the `n/2` threshold: the answer is `m1 >= m2`
/// whenever `|m1 - m2| < n/2`. Fails only when blinding-factor sampling is
/// exhausted.
pub fn compare_ge(
    pubkey: &PublicKey,
    privkey: &PrivateKey,
    m1: &Natural,
    m2: &Natural,
    rng: &mut EntropySource,
) -> (r: Result<bool, CryptoError>)
    requires
        pubkey.wf(),
        m1@ < pubkey.n@,
        m2@ < pubkey.n@,
    ensures
        r matches Ok(b) ==> exists|r1: nat, r2: nat|
            {
                &&& valid_blinding(pubkey.n@, r1)
                &&& valid_blinding(pubkey.n@, r2)
                &&& b == (dec_val(
                    pubkey.n@,
                    privkey.lambda@,
                    privkey.mu@,
                    sub_val(
                        pubkey.n@,
                        enc_val(pubkey.n@, pubkey.g@, m1@, r1),
                        enc_val(pubkey.n@, pubkey.g@, m2@, r2),
                    ),
                ) <= pubkey.n@ / 2)
            },
        r matches Err(e) ==> e == CryptoError::UnboundedSearch,
{
    let c1 = match encrypt(pubkey, m1, rng) {
        Ok(c) => c,
        Err(e) => {
            return Err(e);
        },
    };
    let c2 = match encrypt(pubkey, m2, rng) {
        Ok(c) => c,
        Err(e) => {
            return Err(e);
        },
    };
    let c_diff = paillier_subtract(&c1, &c2, pubkey);
    let diff = decrypt(privkey, pubkey, &c_diff);
    let two = Natural::from_u64(2);
    let half_n = pubkey.n.div(&two);
    let b = !half_n.lt_value(&diff);
    proof {
        let r1 = choose|rr: nat|
            valid_blinding(pubkey.n@, rr) && c1@ == enc_val(pubkey.n@, pubkey.g@, m1@, rr);
        let r2 = choose|rr: nat|
            valid_blinding(pubkey.n@, rr) && c2@ == enc_val(pubkey.n@, pubkey.g@, m2@, rr);
        assert(valid_blinding(pubkey.n@, r1) && valid_blinding(pubkey.n@, r2) && b == (dec_val(
            pubkey.n@,
            privkey.lambda@,
            privkey.mu@,
            sub_val(
                pubkey.n@,
                enc_val(pubkey.n@, pubkey.g@, m1@, r1),
                enc_val(pubkey.n@, pubkey.g@, m2@, r2),
            ),
        ) <= pubkey.n@ / 2));
    }
    Ok(b)
}

} // verus!
