//! Verified number-theoretic routines: the iterative extended Euclidean
//! algorithm and the modular inverse built on it.

use vstd::prelude::*;
use crate::bignum::{spec_gcd, Integer, Natural};
use vstd::arithmetic::div_mod::{
    lemma_fundamental_div_mod, lemma_mod_multiples_vanish, lemma_small_mod,
};

verus! {

/// Iterative extended Euclidean algorithm over non-negative inputs.
///
/// Returns `(g, x, y)` with `g == gcd(a, b)` and the Bézout identity
/// `a*x + b*y == g`.
pub fn extended_gcd(a: Integer, b: Integer) -> (r: (Integer, Integer, Integer))
    requires
        a@ >= 0,
        b@ >= 0,
    ensures
        r.0@ == spec_gcd(a@ as nat, b@ as nat),
        a@ * r.1@ + b@ * r.2@ == r.0@,
{
    let ghost av = a@;
    let ghost bv = b@;
    let zero = Integer::from_i64(0);
    let mut r0 = a;
    let mut r1 = b;
    let mut x0 = Integer::from_i64(1);
    let mut x1 = Integer::from_i64(0);
    let mut y0 = Integer::from_i64(0);
    let mut y1 = Integer::from_i64(1);
    while !r1.eq_value(&zero)
        invariant
            zero@ == 0,
            r0@ >= 0,
            r1@ >= 0,
            av * x0@ + bv * y0@ == r0@,
            av * x1@ + bv * y1@ == r1@,
            spec_gcd(r0@ as nat, r1@ as nat) == spec_gcd(av as nat, bv as nat),
        decreases r1@,
    {
        let q = r0.div(&r1);
        let r2 = r0.sub(&q.mul(&r1));
        proof {
            lemma_fundamental_div_mod(r0@, r1@);
            assert(r2@ == r0@ % r1@);
            assert((r0@ as nat) % (r1@ as nat) == (r2@ as nat));
            assert(spec_gcd(r0@ as nat, r1@ as nat) == spec_gcd(r1@ as nat, r2@ as nat));
            assert(av * (x0@ - q@ * x1@) + bv * (y0@ - q@ * y1@) == r0@ - q@ * r1@)
                by (nonlinear_arith)
                requires
                    av * x0@ + bv * y0@ == r0@,
                    av * x1@ + bv * y1@ == r1@,
            ;
        }
        let x2 = x0.sub(&q.mul(&x1));
        let y2 = y0.sub(&q.mul(&y1));
        r0 = r1;
        r1 = r2;
        x0 = x1;
        x1 = x2;
        y0 = y1;
        y1 = y2;
    }
    (r0, x0, y0)
}

/// The modular inverse of `a` modulo `m`, through the extended Euclidean
/// algorithm; `Some` exactly when `gcd(a, m) == 1`.
pub fn modinv(a: &Natural, m: &Natural) -> (r: Option<Natural>)
    requires
        m@ >= 2,
    ensures
        r is Some <==> spec_gcd(a@, m@) == 1,
        r matches Some(x) ==> x@ < m@ && (a@ * x@) % m@ == 1,
{
    let a_int = a.to_integer();
    let m_int = m.to_integer();
    let one = Integer::from_i64(1);
    let (g, x, y) = extended_gcd(a_int, m_int);
    if !g.eq_value(&one) {
        None
    } else {
        let ghost mv = m@ as int;
        let ghost xv = x@;
        let m_mod = m.to_integer();
        let t = x.rem(&m_mod);
        let t2 = t.add(&m_mod);
        let t3 = t2.rem(&m_mod);
        proof {
            // t is congruent to x modulo m, whatever the sign of x.
            let k0: int = if xv >= 0 {
                -(xv / mv)
            } else {
                (-xv) / mv
            };
            if xv >= 0 {
                lemma_fundamental_div_mod(xv, mv);
                assert(t@ == xv + mv * k0) by (nonlinear_arith)
                    requires
                        t@ == xv % mv,
                        xv == mv * (xv / mv) + xv % mv,
                        k0 == -(xv / mv),
                ;
            } else {
                lemma_fundamental_div_mod(-xv, mv);
                assert(t@ == xv + mv * k0) by (nonlinear_arith)
                    requires
                        t@ == -((-xv) % mv),
                        -xv == mv * ((-xv) / mv) + (-xv) % mv,
                        k0 == (-xv) / mv,
                ;
            }
            // t lies in (-m, m), so t2 = t + m is non-negative.
            assert(t2@ >= 0);
            lemma_fundamental_div_mod(t2@, mv);
            // t3 == x + m*k for some k; name the multiplier.
            let k = k0 + 1 - t2@ / mv;
            assert(t3@ == xv + mv * k) by (nonlinear_arith)
                requires
                    t3@ == t2@ - mv * (t2@ / mv),
                    t2@ == t@ + mv,
                    t@ == xv + mv * k0,
                    k == k0 + 1 - t2@ / mv,
            ;
            // Bézout: a*x + m*y == 1, hence a*t3 == 1 + m*(a*k - y).
            assert((a@ as int) * t3@ == 1 + mv * ((a@ as int) * k - y@)) by (nonlinear_arith)
                requires
                    t3@ == xv + mv * k,
                    (a@ as int) * xv + mv * y@ == 1,
            ;
            lemma_mod_multiples_vanish((a@ as int) * k - y@, 1, mv);
            lemma_small_mod(1, m@);
            assert(((a@ as int) * t3@) % mv == 1);
        }
        Some(t3.to_natural())
    }
}

} // verus!
