//! Trusted layer over the arbitrary-precision integers of `num_bigint`.
//!
//! `Natural` wraps `num_bigint::BigUint` and is abstracted by a `nat`;
//! `Integer` wraps `num_bigint::BigInt` and is abstracted by an `int`.
//! Every operation is an `external_body` wrapper whose contract states the
//! exact arithmetic result; all Paillier logic is verified against these
//! contracts.

use vstd::prelude::*;
use vstd::arithmetic::power::pow;
use vstd::arithmetic::power2::pow2;

verus! {

/// Declares `num_bigint::BigUint` to the verifier as an opaque type.
#[verifier::external_type_specification]
#[verifier::external_body]
pub struct ExBigUint(num_bigint::BigUint);

/// Declares `num_bigint::BigInt` to the verifier as an opaque type.
#[verifier::external_type_specification]
#[verifier::external_body]
pub struct ExBigInt(num_bigint::BigInt);

/// Euclid's greatest common divisor over the naturals.
pub open spec fn spec_gcd(a: nat, b: nat) -> nat
    decreases b,
{
    if b == 0 {
        a
    } else {
        spec_gcd(b, a % b)
    }
}

/// An arbitrary-precision non-negative integer, viewed as a `nat`.
pub struct Natural {
    pub(crate) inner: num_bigint::BigUint,
    pub(crate) value: Ghost<nat>,
}

impl View for Natural {
    type V = nat;

    closed spec fn view(&self) -> nat {
        self.value@
    }
}

impl Natural {
    /// Relies on `num_bigint::BigUint::from::<u64>`: exact conversion.
    #[verifier::external_body]
    pub fn from_u64(x: u64) -> (r: Natural)
        ensures
            r@ == x as nat,
    {
        Natural { inner: num_bigint::BigUint::from(x), value: Ghost(arbitrary()) }
    }

    /// Relies on `num_bigint::BigUint::clone`: the copy has the same value.
    #[verifier::external_body]
    pub fn clone_value(&self) -> (r: Natural)
        ensures
            r@ == self@,
    {
        Natural { inner: self.inner.clone(), value: Ghost(arbitrary()) }
    }

    /// Relies on `num_traits::ToPrimitive::to_u64` for `BigUint`: `Some`
    /// exactly when the value fits in a `u64`.
    #[verifier::external_body]
    pub fn to_u64(&self) -> (r: Option<u64>)
        ensures
            self@ <= u64::MAX ==> r == Some(self@ as u64),
            self@ > u64::MAX ==> r is None,
    {
        num_traits::ToPrimitive::to_u64(&self.inner)
    }

    /// Relies on `num_bigint::BigUint`'s `Add`: exact sum.
    #[verifier::external_body]
    pub fn add(&self, other: &Natural) -> (r: Natural)
        ensures
            r@ == self@ + other@,
    {
        Natural { inner: &self.inner + &other.inner, value: Ghost(arbitrary()) }
    }

    /// Relies on `num_bigint::BigUint`'s `Sub`: exact difference; the
    /// subtrahend may not exceed the minuend (the callee aborts otherwise).
    #[verifier::external_body]
    pub fn sub(&self, other: &Natural) -> (r: Natural)
        requires
            other@ <= self@,
        ensures
            r@ == self@ - other@,
    {
        Natural { inner: &self.inner - &other.inner, value: Ghost(arbitrary()) }
    }

    /// Relies on `num_bigint::BigUint`'s `Mul`: exact product.
    #[verifier::external_body]
    pub fn mul(&self, other: &Natural) -> (r: Natural)
        ensures
            r@ == self@ * other@,
    {
        Natural { inner: &self.inner * &other.inner, value: Ghost(arbitrary()) }
    }

    /// Relies on `num_bigint::BigUint`'s `Div`: floor division (the callee
    /// aborts on a zero divisor).
    #[verifier::external_body]
    pub fn div(&self, other: &Natural) -> (r: Natural)
        requires
            other@ > 0,
        ensures
            r@ == self@ / other@,
    {
        Natural { inner: &self.inner / &other.inner, value: Ghost(arbitrary()) }
    }

    /// Relies on `num_bigint::BigUint`'s `Rem`: the Euclidean remainder (the
    /// callee aborts on a zero divisor).
    #[verifier::external_body]
    pub fn rem(&self, other: &Natural) -> (r: Natural)
        requires
            other@ > 0,
        ensures
            r@ == self@ % other@,
    {
        Natural { inner: &self.inner % &other.inner, value: Ghost(arbitrary()) }
    }

    /// Relies on `num_bigint::BigUint::modpow`: returns
    /// `(self ^ exponent) % modulus` (the callee aborts on a zero modulus).
    #[verifier::external_body]
    pub fn modpow(&self, exponent: &Natural, modulus: &Natural) -> (r: Natural)
        requires
            modulus@ > 0,
        ensures
            r@ < modulus@,
            r@ as int == pow(self@ as int, exponent@) % (modulus@ as int),
    {
        Natural {
            inner: self.inner.modpow(&exponent.inner, &modulus.inner),
            value: Ghost(arbitrary()),
        }
    }

    /// Relies on `num_integer::Integer::gcd` for `BigUint` (Stein's binary
    /// algorithm): returns the greatest common divisor, here stated through
    /// Euclid's equivalent formulation.
    #[verifier::external_body]
    pub fn gcd(&self, other: &Natural) -> (r: Natural)
        ensures
            r@ == spec_gcd(self@, other@),
    {
        Natural {
            inner: num_integer::Integer::gcd(&self.inner, &other.inner),
            value: Ghost(arbitrary()),
        }
    }

    /// Relies on `num_bigint::BigUint`'s `PartialEq`: value equality.
    #[verifier::external_body]
    pub fn eq_value(&self, other: &Natural) -> (r: bool)
        ensures
            r == (self@ == other@),
    {
        self.inner == other.inner
    }

    /// Relies on `num_bigint::BigUint`'s `Ord`: numeric order.
    #[verifier::external_body]
    pub fn lt_value(&self, other: &Natural) -> (r: bool)
        ensures
            r == (self@ < other@),
    {
        self.inner < other.inner
    }

    /// Relies on `num_bigint::ToBigInt::to_bigint` for `BigUint`: always
    /// succeeds and keeps the value.
    #[verifier::external_body]
    pub fn to_integer(&self) -> (r: Integer)
        ensures
            r@ == self@ as int,
    {
        Integer {
            inner: num_bigint::ToBigInt::to_bigint(&self.inner).unwrap(),
            value: Ghost(arbitrary()),
        }
    }
}

/// An arbitrary-precision signed integer, viewed as an `int`.
pub struct Integer {
    pub(crate) inner: num_bigint::BigInt,
    pub(crate) value: Ghost<int>,
}

impl View for Integer {
    type V = int;

    closed spec fn view(&self) -> int {
        self.value@
    }
}

impl Integer {
    /// Relies on `num_bigint::BigInt::from::<i64>`: exact conversion.
    #[verifier::external_body]
    pub fn from_i64(x: i64) -> (r: Integer)
        ensures
            r@ == x as int,
    {
        Integer { inner: num_bigint::BigInt::from(x), value: Ghost(arbitrary()) }
    }

    /// Relies on `num_traits::ToPrimitive::to_i64` for `BigInt`: `Some`
    /// exactly when the value fits in an `i64`.
    #[verifier::external_body]
    pub fn to_i64(&self) -> (r: Option<i64>)
        ensures
            i64::MIN <= self@ <= i64::MAX ==> r == Some(self@ as i64),
            (self@ < i64::MIN || self@ > i64::MAX) ==> r is None,
    {
        num_traits::ToPrimitive::to_i64(&self.inner)
    }

    /// Relies on `num_bigint::BigInt::to_biguint`: succeeds on every
    /// non-negative value and keeps it.
    #[verifier::external_body]
    pub fn to_natural(&self) -> (r: Natural)
        requires
            self@ >= 0,
        ensures
            r@ == self@ as nat,
    {
        Natural { inner: self.inner.to_biguint().unwrap(), value: Ghost(arbitrary()) }
    }

    /// Relies on `num_bigint::BigInt`'s `Add`: exact sum.
    #[verifier::external_body]
    pub fn add(&self, other: &Integer) -> (r: Integer)
        ensures
            r@ == self@ + other@,
    {
        Integer { inner: &self.inner + &other.inner, value: Ghost(arbitrary()) }
    }

    /// Relies on `num_bigint::BigInt`'s `Sub`: exact difference.
    #[verifier::external_body]
    pub fn sub(&self, other: &Integer) -> (r: Integer)
        ensures
            r@ == self@ - other@,
    {
        Integer { inner: &self.inner - &other.inner, value: Ghost(arbitrary()) }
    }

    /// Relies on `num_bigint::BigInt`'s `Mul`: exact product.
    #[verifier::external_body]
    pub fn mul(&self, other: &Integer) -> (r: Integer)
        ensures
            r@ == self@ * other@,
    {
        Integer { inner: &self.inner * &other.inner, value: Ghost(arbitrary()) }
    }

    /// Relies on `num_bigint::BigInt`'s `Div`, which truncates toward zero;
    /// restricted here to non-negative operands, where truncating and
    /// Euclidean division agree (the callee aborts on a zero divisor).
    #[verifier::external_body]
    pub fn div(&self, other: &Integer) -> (r: Integer)
        requires
            self@ >= 0,
            other@ > 0,
        ensures
            r@ == self@ / other@,
    {
        Integer { inner: &self.inner / &other.inner, value: Ghost(arbitrary()) }
    }

    /// Relies on `num_bigint::BigInt`'s `Rem`, whose result follows the sign
    /// of the dividend (the callee aborts on a zero divisor).
    #[verifier::external_body]
    pub fn rem(&self, other: &Integer) -> (r: Integer)
        requires
            other@ > 0,
        ensures
            r@ == if self@ >= 0 {
                self@ % other@
            } else {
                -((-self@) % other@)
            },
    {
        Integer { inner: &self.inner % &other.inner, value: Ghost(arbitrary()) }
    }

    /// Relies on `num_bigint::BigInt`'s `PartialEq`: value equality.
    #[verifier::external_body]
    pub fn eq_value(&self, other: &Integer) -> (r: bool)
        ensures
            r == (self@ == other@),
    {
        self.inner == other.inner
    }
}

/// `2 ^ e`, computed by repeated doubling.
pub fn pow2_natural(e: u64) -> (r: Natural)
    ensures
        r@ == pow2(e as nat),
{
    let two = Natural::from_u64(2);
    let mut r = Natural::from_u64(1);
    let mut i: u64 = 0;
    proof {
        vstd::arithmetic::power2::lemma_pow2(0);
        vstd::arithmetic::power::lemma_pow0(2);
    }
    while i < e
        invariant
            i <= e,
            r@ == pow2(i as nat),
            two@ == 2,
        decreases e - i,
    {
        proof {
            vstd::arithmetic::power2::lemma_pow2_unfold((i + 1) as nat);
        }
        r = r.mul(&two);
        i = i + 1;
    }
    r
}

} // verus!
