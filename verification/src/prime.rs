//! Probabilistic prime generation: the Miller–Rabin test and a random
//! search for probable primes of an exact bit length.

use vstd::prelude::*;
use crate::bignum::{pow2_natural, Natural};
use crate::randomness::EntropySource;
use crate::CryptoError;
use vstd::arithmetic::power::{lemma_pow0, lemma_pow_mod_noop, lemma_pow_multiplies, pow};
use vstd::arithmetic::power2::{lemma_pow2, lemma_pow2_unfold, pow2};
use vstd::arithmetic::div_mod::lemma_fundamental_div_mod;

verus! {

/// Witness rounds used by `generate_prime`; the probability that a
/// composite survives is at most `4^-20`.
pub const DEFAULT_ROUNDS: u32 = 20;

/// Sanity bound on the random prime search; prime density makes reaching it
/// astronomically unlikely for any practical bit length.
pub const PRIME_SEARCH_LIMIT: u64 = 65536;

/// The odd factor of `m`: what remains after all factors of two are
/// divided out.
pub open spec fn odd_part(m: nat) -> nat
    decreases m,
{
    if m > 0 && m % 2 == 0 {
        odd_part(m / 2)
    } else {
        m
    }
}

/// The number of factors of two in `m`, so that
/// `m == pow2(two_adic(m)) * odd_part(m)`.
pub open spec fn two_adic(m: nat) -> nat
    decreases m,
{
    if m > 0 && m % 2 == 0 {
        1 + two_adic(m / 2)
    } else {
        0
    }
}

/// The Miller–Rabin condition: witness `a` is consistent with `n` being
/// prime. With `n - 1 == 2^s * d` and `d` odd, either `a^d == 1 (mod n)` or
/// `a^(2^j * d) == n - 1 (mod n)` for some `j < s`. Every prime satisfies
/// this for every witness; a composite fails it for at least three quarters
/// of the witnesses in `[2, n-2]`.
pub open spec fn survives_witness(n: nat, a: nat) -> bool {
    let d = odd_part((n - 1) as nat);
    let s = two_adic((n - 1) as nat);
    ||| pow(a as int, d) % (n as int) == 1
    ||| exists|j: nat|
        j < s && pow(a as int, (pow2(j) * d) as nat) % (n as int) == n - 1
}

/// One Miller–Rabin round: evaluates the witness condition exactly, given
/// the decomposition `n - 1 == 2^s * d` with `d` odd.
fn witness_passes(n: &Natural, n_minus_one: &Natural, d: &Natural, s: &Natural, a: &Natural) -> (r:
    bool)
    requires
        n@ >= 5,
        n@ % 2 == 1,
        n_minus_one@ == n@ - 1,
        d@ == odd_part((n@ - 1) as nat),
        s@ == two_adic((n@ - 1) as nat),
    ensures
        r == survives_witness(n@, a@),
{
    let one = Natural::from_u64(1);
    let two = Natural::from_u64(2);
    proof {
        // n - 1 is even, so the decomposition has at least one factor of 2.
        assert(two_adic((n@ - 1) as nat) == 1 + two_adic((((n@ - 1) as nat) / 2) as nat));
        lemma_pow2(0);
        lemma_pow0(2);
    }
    let mut x = a.modpow(d, n);
    if x.eq_value(&one) {
        return true;
    }
    if x.eq_value(&n_minus_one) {
        proof {
            assert((pow2(0) * d@) as nat == d@);
            assert(survives_witness(n@, a@));
        }
        return true;
    }
    proof {
        assert forall|j2: nat| j2 < 1 implies pow(a@ as int, (pow2(j2) * d@) as nat) % (
        n@ as int) != n@ - 1 by {
            assert(j2 == 0);
            assert((pow2(0) * d@) as nat == d@);
        }
    }
    let mut j = Natural::from_u64(1);
    while j.lt_value(s)
        invariant
            n@ >= 5,
            n@ % 2 == 1,
            one@ == 1,
            two@ == 2,
            n_minus_one@ == n@ - 1,
            d@ == odd_part((n@ - 1) as nat),
            s@ == two_adic((n@ - 1) as nat),
            1 <= j@,
            x@ as int == pow(a@ as int, (pow2((j@ - 1) as nat) * d@) as nat) % (n@ as int),
            pow(a@ as int, d@) % (n@ as int) != 1,
            forall|j2: nat|
                j2 < j@ ==> pow(a@ as int, (pow2(j2) * d@) as nat) % (n@ as int) != n@ - 1,
        decreases s@ - j@,
    {
        proof {
            let ej = (pow2((j@ - 1) as nat) * d@) as nat;
            lemma_pow_mod_noop(pow(a@ as int, ej), 2, n@ as int);
            lemma_pow_multiplies(a@ as int, ej, 2);
            lemma_pow2_unfold(j@);
            assert(ej * 2 == pow2(j@) * d@) by (nonlinear_arith)
                requires
                    ej == pow2((j@ - 1) as nat) * d@,
                    pow2(j@) == 2 * pow2((j@ - 1) as nat),
            ;
        }
        x = x.modpow(&two, n);
        if x.eq_value(&n_minus_one) {
            proof {
                assert(pow(a@ as int, (pow2(j@) * d@) as nat) % (n@ as int) == n@ - 1);
                assert(survives_witness(n@, a@));
            }
            return true;
        }
        j = j.add(&one);
    }
    proof {
        assert(!survives_witness(n@, a@));
    }
    false
}

/// Miller–Rabin probabilistic primality test with `rounds` independent
/// random witnesses in `[2, n - 2)`.
///
/// The deterministic cases are pinned down: values below 2 and even values
/// other than 2 are rejected, 2 and 3 are accepted. For an odd candidate
/// above 3 the contract certifies the evidence: a `true` answer exhibits a
/// sampled witness that survives the Miller–Rabin condition, and a `false`
/// answer exhibits one that refutes it. That every witness survives when
/// `n` is genuinely prime is Fermat's little theorem and lies beyond the
/// stated contract; the error probability of at most `4^-rounds` is not a
/// mathematical predicate and is not stated.
pub fn is_prime(n: &Natural, rounds: u32, rng: &mut EntropySource) -> (r: bool)
    ensures
        n@ < 2 ==> r == false,
        n@ == 2 ==> r == true,
        n@ == 3 ==> r == true,
        (n@ > 3 && n@ % 2 == 0) ==> r == false,
        r ==> n@ == 2 || n@ % 2 == 1,
        (r && n@ > 3 && rounds >= 1) ==> exists|a: nat|
            2 <= a < n@ - 2 && #[trigger] survives_witness(n@, a),
        (!r && n@ > 3 && n@ % 2 == 1) ==> exists|a: nat|
            2 <= a < n@ - 2 && !(#[trigger] survives_witness(n@, a)),
{
    let one = Natural::from_u64(1);
    let two = Natural::from_u64(2);
    let three = Natural::from_u64(3);
    let zero = Natural::from_u64(0);
    if n.lt_value(&two) {
        return false;
    }
    if n.eq_value(&two) || n.eq_value(&three) {
        return true;
    }
    if n.rem(&two).eq_value(&zero) {
        return false;
    }
    // n is odd and n >= 5; write n - 1 as 2^s * d with d odd.
    let n_minus_one = n.sub(&one);
    let mut d = n_minus_one.clone_value();
    let mut s = Natural::from_u64(0);
    while d.rem(&two).eq_value(&zero)
        invariant
            one@ == 1,
            two@ == 2,
            zero@ == 0,
            d@ >= 1,
            odd_part(d@) == odd_part((n@ - 1) as nat),
            s@ + two_adic(d@) == two_adic((n@ - 1) as nat),
        decreases d@,
    {
        proof {
            lemma_fundamental_div_mod(d@ as int, 2);
            assert(odd_part(d@) == odd_part(d@ / 2));
            assert(two_adic(d@) == 1 + two_adic(d@ / 2));
        }
        d = d.div(&two);
        s = s.add(&one);
    }
    proof {
        // d is odd, so the decomposition is complete.
        assert(odd_part(d@) == d@);
        assert(two_adic(d@) == 0);
    }
    let hi = n.sub(&two);
    let ghost mut seen: nat = 0;
    let mut i: u32 = 0;
    while i < rounds
        invariant
            n@ >= 5,
            n@ % 2 == 1,
            two@ == 2,
            hi@ == n@ - 2,
            n_minus_one@ == n@ - 1,
            d@ == odd_part((n@ - 1) as nat),
            s@ == two_adic((n@ - 1) as nat),
            i > 0 ==> (2 <= seen < n@ - 2 && survives_witness(n@, seen)),
        decreases rounds - i,
    {
        let a = rng.in_range(&two, &hi);
        if !witness_passes(n, &n_minus_one, &d, &s, &a) {
            proof {
                assert(2 <= a@ < n@ - 2 && !survives_witness(n@, a@));
            }
            return false;
        }
        proof {
            seen = a@;
        }
        i = i + 1;
    }
    proof {
        if rounds >= 1 {
            assert(2 <= seen < n@ - 2 && survives_witness(n@, seen));
        }
    }
    true
}

/// Searches for a probable prime of exactly `bits` bits: a uniform sample
/// from `[2^(bits-1), 2^bits)` is made odd and handed to Miller–Rabin, until
/// a candidate survives or the sanity bound is reached. Every returned value
/// above 3 comes with a sampled witness that survived the Miller–Rabin
/// condition.
pub fn generate_prime(bits: u64, rng: &mut EntropySource) -> (r: Result<Natural, CryptoError>)
    requires
        2 <= bits,
    ensures
        r matches Ok(p) ==> {
            &&& pow2((bits - 1) as nat) <= p@ < pow2(bits as nat)
            &&& p@ % 2 == 1
            &&& p@ >= 3
            &&& (p@ > 3 ==> exists|a: nat|
                2 <= a < p@ - 2 && #[trigger] survives_witness(p@, a))
        },
        r matches Err(e) ==> e == CryptoError::UnboundedSearch,
{
    let one = Natural::from_u64(1);
    let two = Natural::from_u64(2);
    let zero = Natural::from_u64(0);
    let lo = pow2_natural(bits - 1);
    let hi = pow2_natural(bits);
    proof {
        vstd::arithmetic::power2::lemma_pow2_unfold(bits as nat);
        vstd::arithmetic::power2::lemma_pow2_strictly_increases(
            ((bits - 1) - 1) as nat,
            (bits - 1) as nat,
        );
        vstd::arithmetic::power2::lemma_pow2_pos(((bits - 1) - 1) as nat);
    }
    let mut attempts: u64 = 0;
    while attempts < PRIME_SEARCH_LIMIT
        invariant
            lo@ == pow2((bits - 1) as nat),
            hi@ == pow2(bits as nat),
            2 <= lo@,
            hi@ == 2 * lo@,
            one@ == 1,
            two@ == 2,
            zero@ == 0,
        decreases PRIME_SEARCH_LIMIT - attempts,
    {
        let mut candidate = rng.in_range(&lo, &hi);
        if candidate.rem(&two).eq_value(&zero) {
            proof {
                // candidate is even and below the even bound 2*lo, so the
                // next odd value stays below it.
                lemma_fundamental_div_mod(candidate@ as int, 2);
                assert(candidate@ == 2 * ((candidate@ as int) / 2));
                assert(candidate@ + 1 < hi@);
            }
            candidate = candidate.add(&one);
        }
        if is_prime(&candidate, DEFAULT_ROUNDS, rng) {
            return Ok(candidate);
        }
        attempts = attempts + 1;
    }
    Err(CryptoError::UnboundedSearch)
}

} // verus!
