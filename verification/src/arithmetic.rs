//! The homomorphic ciphertext algebra: addition, scalar multiplication,
//! subtraction, and the signed-difference convenience.

use vstd::prelude::*;
use crate::bignum::{Integer, Natural};
use crate::cipher::{dec_val, decrypt, enc_val, n_squared};
use crate::keygen::{PrivateKey, PublicKey};
use vstd::arithmetic::power::{
    lemma_pow_adds, lemma_pow_distributes, lemma_pow_mod_noop, lemma_pow_multiplies,
    lemma_pow_positive, pow,
};
use vstd::arithmetic::div_mod::{
    lemma_mul_mod_noop_general, lemma_mul_mod_noop_right,
};

verus! {

/// The ciphertext of the homomorphic sum: `c1 * c2 mod n^2`.
pub open spec fn add_val(n: nat, c1: nat, c2: nat) -> nat {
    (c1 * c2) % n_squared(n)
}

/// The ciphertext of the homomorphic scalar product: `c^k mod n^2`.
pub open spec fn smul_val(n: nat, c: nat, k: nat) -> nat {
    (pow(c as int, k) % (n_squared(n) as int)) as nat
}

/// The ciphertext of the homomorphic difference:
/// `c1 * c2^(n-1) mod n^2` — raising to `n - 1` inverts the ciphertext,
/// which negates the plaintext modulo `n`.
pub open spec fn sub_val(n: nat, c1: nat, c2: nat) -> nat {
    ((c1 * pow(c2 as int, (n - 1) as nat)) % (n_squared(n) as int)) as nat
}

/// The signed reading of a decrypted residue `d` in `[0, n)`: values above
/// `n/2` represent negatives.
pub open spec fn signed_val(n: nat, d: nat) -> int {
    if d > n / 2 {
        d - n
    } else {
        d as int
    }
}

/// The additive homomorphism at the ciphertext level: multiplying the
/// encryptions of `m1` and `m2` modulo `n^2` yields exactly the encryption
/// of `m1 + m2` under the combined blinding factor `r1 * r2`. Decryption
/// therefore recovers `(m1 + m2) % n` whenever it inverts encryption, which
/// rests on the actual primality of the generated factors of `n`.
pub proof fn lemma_add_homomorphic(n: nat, g: nat, m1: nat, m2: nat, r1: nat, r2: nat)
    requires
        n > 0,
    ensures
        add_val(n, enc_val(n, g, m1, r1), enc_val(n, g, m2, r2)) == enc_val(
            n,
            g,
            m1 + m2,
            r1 * r2,
        ),
{
    let msq = n_squared(n) as int;
    assert(msq > 0) by (nonlinear_arith)
        requires
            msq == n * n,
            n > 0,
    ;
    let a1 = pow(g as int, m1) * pow(r1 as int, n);
    let a2 = pow(g as int, m2) * pow(r2 as int, n);
    lemma_mul_mod_noop_general(a1, a2, msq);
    lemma_pow_adds(g as int, m1, m2);
    lemma_pow_distributes(r1 as int, r2 as int, n);
    assert(a1 * a2 == pow(g as int, m1 + m2) * pow((r1 * r2) as int, n)) by (nonlinear_arith)
        requires
            a1 == pow(g as int, m1) * pow(r1 as int, n),
            a2 == pow(g as int, m2) * pow(r2 as int, n),
            pow(g as int, m1 + m2) == pow(g as int, m1) * pow(g as int, m2),
            pow((r1 * r2) as int, n) == pow(r1 as int, n) * pow(r2 as int, n),
    ;
}

/// The scalar homomorphism at the ciphertext level: raising the encryption
/// of `m` to `k` modulo `n^2` yields exactly the encryption of `k * m`
/// under the blinding factor `r^k`.
pub proof fn lemma_scalar_mul_homomorphic(n: nat, g: nat, m: nat, r: nat, k: nat)
    requires
        n > 0,
        r > 0,
    ensures
        smul_val(n, enc_val(n, g, m, r), k) == enc_val(n, g, k * m, pow(r as int, k) as nat),
{
    let msq = n_squared(n) as int;
    assert(msq > 0) by (nonlinear_arith)
        requires
            msq == n * n,
            n > 0,
    ;
    let a = pow(g as int, m) * pow(r as int, n);
    lemma_pow_mod_noop(a, k, msq);
    lemma_pow_distributes(pow(g as int, m), pow(r as int, n), k);
    lemma_pow_multiplies(g as int, m, k);
    lemma_pow_multiplies(r as int, n, k);
    lemma_pow_multiplies(r as int, k, n);
    lemma_pow_positive(r as int, k);
    assert(pow(a, k) == pow(g as int, k * m) * pow((pow(r as int, k) as nat) as int, n))
        by (nonlinear_arith)
        requires
            a == pow(g as int, m) * pow(r as int, n),
            pow(a, k) == pow(pow(g as int, m), k) * pow(pow(r as int, n), k),
            pow(pow(g as int, m), k) == pow(g as int, m * k),
            pow(pow(r as int, n), k) == pow(r as int, n * k),
            pow(pow(r as int, k), n) == pow(r as int, k * n),
            pow(r as int, k) > 0,
            pow(g as int, m * k) == pow(g as int, k * m),
            (pow(r as int, k) as nat) as int == pow(r as int, k),
    ;
}

/// The subtractive homomorphism at the ciphertext level: multiplying the
/// encryption of `m1` by the `(n-1)`-th power of the encryption of `m2`
/// modulo `n^2` yields exactly the encryption of `m1 + (n-1) * m2` — the
/// homomorphic negation of `m2` added to `m1` — under the blinding factor
/// `r1 * r2^(n-1)`.
pub proof fn lemma_subtract_homomorphic(n: nat, g: nat, m1: nat, m2: nat, r1: nat, r2: nat)
    requires
        n > 0,
        r2 > 0,
    ensures
        sub_val(n, enc_val(n, g, m1, r1), enc_val(n, g, m2, r2)) == enc_val(
            n,
            g,
            m1 + ((n - 1) as nat) * m2,
            r1 * (pow(r2 as int, (n - 1) as nat) as nat),
        ),
{
    let msq = n_squared(n) as int;
    assert(msq > 0) by (nonlinear_arith)
        requires
            msq == n * n,
            n > 0,
    ;
    let e = (n - 1) as nat;
    let a1 = pow(g as int, m1) * pow(r1 as int, n);
    let a2 = pow(g as int, m2) * pow(r2 as int, n);
    let c1 = (a1 % msq) as nat;
    let c2 = (a2 % msq) as nat;
    lemma_pow_positive(r2 as int, e);
    // Reduce the inner power modulo n^2.
    lemma_mul_mod_noop_right(c1 as int, pow(c2 as int, e), msq);
    lemma_pow_mod_noop(a2, e, msq);
    lemma_mul_mod_noop_right(c1 as int, pow(a2, e), msq);
    assert((c1 * pow(c2 as int, e)) % msq == (c1 * pow(a2, e)) % msq);
    lemma_mul_mod_noop_general(a1, pow(a2, e), msq);
    assert((c1 * pow(a2, e)) % msq == (a1 * pow(a2, e)) % msq);
    // Rearrange the fully expanded product.
    lemma_pow_distributes(pow(g as int, m2), pow(r2 as int, n), e);
    lemma_pow_multiplies(g as int, m2, e);
    lemma_pow_multiplies(r2 as int, n, e);
    lemma_pow_multiplies(r2 as int, e, n);
    lemma_pow_adds(g as int, m1, m2 * e);
    lemma_pow_distributes(r1 as int, pow(r2 as int, e), n);
    assert(a1 * pow(a2, e) == pow(g as int, m1 + e * m2) * pow(
        (r1 * (pow(r2 as int, e) as nat)) as int,
        n,
    )) by (nonlinear_arith)
        requires
            a1 == pow(g as int, m1) * pow(r1 as int, n),
            pow(a2, e) == pow(pow(g as int, m2), e) * pow(pow(r2 as int, n), e),
            pow(pow(g as int, m2), e) == pow(g as int, m2 * e),
            pow(pow(r2 as int, n), e) == pow(r2 as int, n * e),
            pow(pow(r2 as int, e), n) == pow(r2 as int, e * n),
            pow(g as int, m1 + m2 * e) == pow(g as int, m1) * pow(g as int, m2 * e),
            pow((r1 * (pow(r2 as int, e) as nat)) as int, n) == pow(r1 as int, n) * pow(
                pow(r2 as int, e),
                n,
            ),
            pow(r2 as int, e) > 0,
            m1 + e * m2 == m1 + m2 * e,
    ;
}

/// Homomorphic addition of two ciphertexts: the result decrypts to the sum
/// of the underlying plaintexts modulo `n`.
pub fn paillier_add(c1: &Natural, c2: &Natural, pubkey: &PublicKey) -> (r: Natural)
    requires
        pubkey.wf(),
    ensures
        r@ == add_val(pubkey.n@, c1@, c2@),
        r@ < n_squared(pubkey.n@),
{
    let n_sq = pubkey.n.mul(&pubkey.n);
    proof {
        assert(n_sq@ > 0) by (nonlinear_arith)
            requires
                n_sq@ == pubkey.n@ * pubkey.n@,
                pubkey.n@ > 2,
        ;
    }
    c1.mul(c2).rem(&n_sq)
}

/// Homomorphic scalar multiplication: raising a ciphertext to `k` yields a
/// ciphertext of `k * m mod n`.
pub fn paillier_scalar_mul(c: &Natural, k: &Natural, pubkey: &PublicKey) -> (r: Natural)
    requires
        pubkey.wf(),
    ensures
        r@ == smul_val(pubkey.n@, c@, k@),
        r@ < n_squared(pubkey.n@),
{
    let n_sq = pubkey.n.mul(&pubkey.n);
    proof {
        assert(n_sq@ > 0) by (nonlinear_arith)
            requires
                n_sq@ == pubkey.n@ * pubkey.n@,
                pubkey.n@ > 2,
        ;
    }
    c.modpow(k, &n_sq)
}

/// Homomorphic subtraction: `c1 * c2^(n-1) mod n^2`, a ciphertext of
/// `m1 - m2 mod n`.
pub fn paillier_subtract(c1: &Natural, c2: &Natural, pubkey: &PublicKey) -> (r: Natural)
    requires
        pubkey.wf(),
    ensures
        r@ == sub_val(pubkey.n@, c1@, c2@),
        r@ < n_squared(pubkey.n@),
{
    let one = Natural::from_u64(1);
    let n_sq = pubkey.n.mul(&pubkey.n);
    proof {
        assert(n_sq@ > 0) by (nonlinear_arith)
            requires
                n_sq@ == pubkey.n@ * pubkey.n@,
                pubkey.n@ > 2,
        ;
    }
    let neg_one = pubkey.n.sub(&one);
    let c2_inv = c2.modpow(&neg_one, &n_sq);
    let r = c1.mul(&c2_inv).rem(&n_sq);
    proof {
        lemma_mul_mod_noop_right(c1@ as int, pow(c2@ as int, (pubkey.n@ - 1) as nat), n_sq@ as int);
    }
    r
}

/// The signed difference of the plaintexts under `c1` and `c2`: the
/// homomorphic difference is decrypted and residues above `n/2` are read as
/// negatives. Correct only while `|m1 - m2| < n/2`; a larger difference
/// silently wraps around.
pub fn paillier_difference(
    c1: &Natural,
    c2: &Natural,
    pubkey: &PublicKey,
    privkey: &PrivateKey,
) -> (r: Integer)
    requires
        pubkey.wf(),
    ensures
        r@ == signed_val(
            pubkey.n@,
            dec_val(pubkey.n@, privkey.lambda@, privkey.mu@, sub_val(pubkey.n@, c1@, c2@)),
        ),
{
    let diff_cipher = paillier_subtract(c1, c2, pubkey);
    let diff = decrypt(privkey, pubkey, &diff_cipher);
    let two = Natural::from_u64(2);
    let half_n = pubkey.n.div(&two);
    if half_n.lt_value(&diff) {
        diff.to_integer().sub(&pubkey.n.to_integer())
    } else {
        diff.to_integer()
    }
}

} // verus!
