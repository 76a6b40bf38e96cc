//! Canonical decimal serialization of plaintexts and ciphertexts, with an
//! exact round trip.

use vstd::prelude::*;
use crate::bignum::Natural;
use crate::CryptoError;
use vstd::arithmetic::div_mod::{lemma_div_is_strictly_smaller, lemma_fundamental_div_mod};

verus! {

/// The canonical decimal digits of `v` as ASCII bytes, most significant
/// first, without leading zeros (`0` itself is the single byte `b"0"`).
pub open spec fn digits_of(v: nat) -> Seq<u8>
    decreases v,
{
    if v < 10 {
        seq![(48 + v) as u8]
    } else {
        digits_of(v / 10).push((48 + v % 10) as u8)
    }
}

/// Whether `s` is a well-formed decimal representation: non-empty and all
/// ASCII digits.
pub open spec fn all_digits(s: Seq<u8>) -> bool {
    forall|i: int| 0 <= i < s.len() ==> 48 <= #[trigger] s[i] <= 57
}

/// The value of a big-endian sequence of ASCII digits.
pub open spec fn dec_value(s: Seq<u8>) -> nat
    decreases s.len(),
{
    if s.len() == 0 {
        0
    } else {
        (dec_value(s.drop_last()) * 10 + (s.last() - 48)) as nat
    }
}

/// Serializes a value to its canonical decimal ASCII bytes.
pub fn to_decimal(v: &Natural) -> (r: Vec<u8>)
    ensures
        r@ == digits_of(v@),
    decreases v@,
{
    let ten = Natural::from_u64(10);
    if v.lt_value(&ten) {
        let d = v.to_u64().unwrap();
        let mut out: Vec<u8> = Vec::new();
        out.push(48 + d as u8);
        proof {
            assert(out@ =~= digits_of(v@));
        }
        out
    } else {
        let q = v.div(&ten);
        let low = v.rem(&ten).to_u64().unwrap();
        proof {
            lemma_div_is_strictly_smaller(v@ as int, 10);
        }
        let mut out = to_decimal(&q);
        out.push(48 + low as u8);
        proof {
            assert(out@ =~= digits_of(v@));
        }
        out
    }
}

/// Parses canonical decimal ASCII bytes; succeeds exactly on a non-empty
/// all-digit input, whose value it returns.
pub fn from_decimal(s: &[u8]) -> (r: Result<Natural, CryptoError>)
    ensures
        r is Ok <==> (s@.len() > 0 && all_digits(s@)),
        r matches Ok(v) ==> v@ == dec_value(s@),
        r matches Err(e) ==> e == CryptoError::ParseError,
{
    if s.len() == 0 {
        return Err(CryptoError::ParseError);
    }
    let ten = Natural::from_u64(10);
    let mut acc = Natural::from_u64(0);
    let mut i: usize = 0;
    while i < s.len()
        invariant
            ten@ == 10,
            i <= s@.len(),
            forall|j: int| 0 <= j < i ==> 48 <= #[trigger] s@[j] <= 57,
            acc@ == dec_value(s@.subrange(0, i as int)),
        decreases s@.len() - i,
    {
        let b = s[i];
        if b < 48 || b > 57 {
            return Err(CryptoError::ParseError);
        }
        let d = Natural::from_u64((b - 48) as u64);
        acc = acc.mul(&ten).add(&d);
        proof {
            assert(s@.subrange(0, (i + 1) as int).drop_last() =~= s@.subrange(0, i as int));
            assert(s@.subrange(0, (i + 1) as int).last() == s@[i as int]);
        }
        i = i + 1;
    }
    proof {
        assert(s@.subrange(0, s@.len() as int) =~= s@);
    }
    Ok(acc)
}

/// The serialization round trip is exact: the canonical digits of any value
/// are non-empty, well-formed, and parse back to that value.
pub proof fn lemma_decimal_round_trip(v: nat)
    ensures
        dec_value(digits_of(v)) == v,
        digits_of(v).len() >= 1,
        all_digits(digits_of(v)),
    decreases v,
{
    if v < 10 {
        assert(digits_of(v).drop_last() =~= Seq::<u8>::empty());
        assert(dec_value(Seq::<u8>::empty()) == 0);
        assert((48 + v) as u8 == 48 + v);
        assert(digits_of(v).last() == (48 + v) as u8);
        assert(dec_value(digits_of(v)) == v);
    } else {
        lemma_decimal_round_trip(v / 10);
        lemma_fundamental_div_mod(v as int, 10);
        assert(digits_of(v).drop_last() =~= digits_of(v / 10));
        assert((48 + v % 10) as u8 == 48 + v % 10);
        assert(digits_of(v).last() == (48 + v % 10) as u8);
        assert(dec_value(digits_of(v)) == dec_value(digits_of(v / 10)) * 10 + v % 10);
        assert(dec_value(digits_of(v)) == v);
        assert forall|i: int| 0 <= i < digits_of(v).len() implies 48 <= #[trigger] digits_of(
            v,
        )[i] <= 57 by {
            if i < digits_of(v).len() - 1 {
                assert(digits_of(v)[i] == digits_of(v / 10)[i]);
            }
        }
    }
}

} // verus!
