//! Encryption and decryption.

use vstd::prelude::*;
use crate::bignum::{spec_gcd, Natural};
use crate::keygen::{PrivateKey, PublicKey};
use crate::randomness::EntropySource;
use crate::CryptoError;
use vstd::arithmetic::power::{lemma_pow0, lemma_pow1, lemma_pow_adds, pow};
use vstd::arithmetic::div_mod::{
    lemma_add_mod_noop, lemma_div_multiples_vanish, lemma_mod_multiples_vanish,
    lemma_mod_self_0, lemma_mul_mod_noop_general, lemma_mul_mod_noop_left, lemma_small_mod,
};

verus! {

/// Sanity bound on blinding-factor rejection sampling; a draw is rejected
/// only with probability about `1/p + 1/q`, so reaching the bound is
/// astronomically unlikely.
pub const BLINDING_SEARCH_LIMIT: u64 = 4096;

/// The ciphertext-space modulus `n^2`.
pub open spec fn n_squared(n: nat) -> nat {
    n * n
}

/// A valid blinding factor: in `(1, n)` and coprime to `n`.
pub open spec fn valid_blinding(n: nat, r: nat) -> bool {
    1 < r < n && spec_gcd(r, n) == 1
}

/// The Paillier encryption of `m` under modulus `n` and `g = n + 1` with
/// blinding factor `r`: `g^m * r^n mod n^2`.
pub open spec fn enc_val(n: nat, g: nat, m: nat, r: nat) -> nat {
    ((pow(g as int, m) * pow(r as int, n)) % (n_squared(n) as int)) as nat
}

/// `L(u) = (u - 1) / n`, with the degenerate value 0 for `u == 0`, which no
/// ciphertext that is invertible modulo `n^2` ever produces.
pub open spec fn l_val(u: nat, n: nat) -> nat {
    if u == 0 {
        0
    } else {
        ((u - 1) as nat) / n
    }
}

/// The Paillier decryption of `c` under modulus `n` and private key
/// `(lambda, mu)`: `L(c^lambda mod n^2) * mu mod n`.
pub open spec fn dec_val(n: nat, lambda: nat, mu: nat, c: nat) -> nat {
    (l_val((pow(c as int, lambda) % (n_squared(n) as int)) as nat, n) * mu) % n
}

/// The structural heart of decryption in the simplified variant: the
/// generator `g = n + 1` satisfies `(n+1)^m == 1 + (m % n)·n (mod n^2)`,
/// so `L` recovers `m % n` from the unblinded power `g^m mod n^2`. The full
/// round trip additionally needs the blinding contribution `r^(n·lambda)`
/// to vanish modulo `n^2`, which rests on the actual primality of the two
/// factors of `n`.
pub proof fn lemma_g_power_carries_plaintext(n: nat, m: nat)
    requires
        n >= 2,
    ensures
        pow((n + 1) as int, m) % (n_squared(n) as int) == 1 + (m % n) * n,
        l_val((pow((n + 1) as int, m) % (n_squared(n) as int)) as nat, n) == m % n,
    decreases m,
{
    let g = (n + 1) as int;
    let nsq = n_squared(n) as int;
    assert(nsq >= n + 2 && nsq > 1 + (m % n) * n) by (nonlinear_arith)
        requires
            nsq == n * n,
            n >= 2,
            m % n < n,
    ;
    if m == 0 {
        lemma_pow0(g);
        lemma_small_mod(1, n * n);
    } else {
        let prev = (m - 1) as nat;
        lemma_g_power_carries_plaintext(n, prev);
        lemma_pow_adds(g, prev, 1);
        lemma_pow1(g);
        lemma_mul_mod_noop_left(pow(g, prev), g, nsq);
        let t = 1 + (prev % n) * n;
        assert(t * g == nsq * (prev % n) + (1 + ((prev % n) + 1) * n)) by (nonlinear_arith)
            requires
                t == 1 + (prev % n) * n,
                g == n + 1,
                nsq == n * n,
        ;
        lemma_mod_multiples_vanish((prev % n) as int, (1 + ((prev % n) + 1) * n) as int, nsq);
        assert(pow(g, m) == pow(g, prev) * g);
        assert(pow(g, m) % nsq == (t * g) % nsq);
        assert((t * g) % nsq == ((1 + ((prev % n) + 1) * n) as int) % nsq);
        // (m % n) relates to (prev % n) by stepping once, wrapping at n.
        lemma_add_mod_noop(prev as int, 1, n as int);
        lemma_small_mod(1, n);
        if (prev % n) + 1 == n {
            lemma_mod_self_0(n as int);
            lemma_mod_multiples_vanish(1, 1, nsq);
            lemma_small_mod(1, n * n);
            assert(m % n == 0);
            assert(pow(g, m) % nsq == 1);
        } else {
            lemma_small_mod(((prev % n) + 1) as nat, n);
            assert(m % n == (prev % n) + 1);
            assert(1 + ((prev % n) + 1) * n < nsq) by (nonlinear_arith)
                requires
                    (prev % n) + 1 < n,
                    nsq == n * n,
            ;
            lemma_small_mod((1 + ((prev % n) + 1) * n) as nat, n * n);
            assert(pow(g, m) % nsq == 1 + (m % n) * n);
        }
    }
    // L strips the leading 1 and divides the linear term down to m % n.
    lemma_div_multiples_vanish((m % n) as int, n as int);
    vstd::arithmetic::mul::lemma_mul_is_commutative((m % n) as int, n as int);
}

/// Encrypts `m` under `pubkey`: rejects `m >= n`, samples a blinding factor
/// uniformly below `n` by rejection until it lies in `(1, n)` and is coprime
/// to `n`, and returns `g^m * r^n mod n^2`. Randomized: two calls with the
/// same `m` all but surely return different ciphertexts.
pub fn encrypt(pubkey: &PublicKey, m: &Natural, rng: &mut EntropySource) -> (r: Result<
    Natural,
    CryptoError,
>)
    requires
        pubkey.wf(),
    ensures
        (r matches Err(e) && e == CryptoError::OutOfRange) <==> m@ >= pubkey.n@,
        r matches Ok(c) ==> exists|rr: nat|
            valid_blinding(pubkey.n@, rr) && c@ == enc_val(pubkey.n@, pubkey.g@, m@, rr),
        r matches Ok(c) ==> c@ < n_squared(pubkey.n@),
        r matches Err(e) ==> (e == CryptoError::OutOfRange || e == CryptoError::UnboundedSearch),
{
    if !m.lt_value(&pubkey.n) {
        return Err(CryptoError::OutOfRange);
    }
    let one = Natural::from_u64(1);
    let n_sq = pubkey.n.mul(&pubkey.n);
    proof {
        assert(n_sq@ > 0) by (nonlinear_arith)
            requires
                n_sq@ == pubkey.n@ * pubkey.n@,
                pubkey.n@ > 2,
        ;
    }
    let mut attempts: u64 = 0;
    while attempts < BLINDING_SEARCH_LIMIT
        invariant
            pubkey.wf(),
            m@ < pubkey.n@,
            one@ == 1,
            n_sq@ == n_squared(pubkey.n@),
            n_sq@ > 0,
        decreases BLINDING_SEARCH_LIMIT - attempts,
    {
        let candidate = rng.below(&pubkey.n);
        if one.lt_value(&candidate) && candidate.gcd(&pubkey.n).eq_value(&one) {
            let gm = pubkey.g.modpow(m, &n_sq);
            let rn = candidate.modpow(&pubkey.n, &n_sq);
            let c = gm.mul(&rn).rem(&n_sq);
            proof {
                lemma_mul_mod_noop_general(
                    pow(pubkey.g@ as int, m@),
                    pow(candidate@ as int, pubkey.n@),
                    n_sq@ as int,
                );
                assert(valid_blinding(pubkey.n@, candidate@) && c@ == enc_val(
                    pubkey.n@,
                    pubkey.g@,
                    m@,
                    candidate@,
                ));
            }
            return Ok(c);
        }
        attempts = attempts + 1;
    }
    Err(CryptoError::UnboundedSearch)
}

/// Decrypts `c` under the key pair: `L(c^lambda mod n^2) * mu mod n`.
///
/// A malformed ciphertext whose power vanishes modulo `n^2` decrypts to the
/// degenerate residue 0 instead of aborting; `encrypt` never produces one.
pub fn decrypt(privkey: &PrivateKey, pubkey: &PublicKey, c: &Natural) -> (r: Natural)
    requires
        pubkey.wf(),
    ensures
        r@ == dec_val(pubkey.n@, privkey.lambda@, privkey.mu@, c@),
        r@ < pubkey.n@,
{
    let one = Natural::from_u64(1);
    let zero = Natural::from_u64(0);
    let n_sq = pubkey.n.mul(&pubkey.n);
    proof {
        assert(n_sq@ > 0) by (nonlinear_arith)
            requires
                n_sq@ == pubkey.n@ * pubkey.n@,
                pubkey.n@ > 2,
        ;
    }
    let u = c.modpow(&privkey.lambda, &n_sq);
    let l = if u.eq_value(&zero) {
        zero
    } else {
        u.sub(&one).div(&pubkey.n)
    };
    l.mul(&privkey.mu).rem(&pubkey.n)
}

} // verus!
