use paillier::bignum::{Integer, Natural};
use paillier::numtheory::{extended_gcd, modinv};
use paillier::prime::{generate_prime, is_prime};
use paillier::randomness::EntropySource;

fn num(x: u64) -> Natural {
    Natural::from_u64(x)
}

#[test]
fn miller_rabin_rejects_composites() {
    let mut rng = EntropySource::from_seed(43);
    for &c in &[4u64, 6, 8, 9, 15, 21, 221] {
        assert!(!is_prime(&num(c), 20, &mut rng), "{} accepted", c);
    }
}

#[test]
fn miller_rabin_accepts_primes() {
    let mut rng = EntropySource::from_seed(47);
    for &p in &[2u64, 3, 5, 7, 97, 7919] {
        assert!(is_prime(&num(p), 20, &mut rng), "{} rejected", p);
    }
}

#[test]
fn miller_rabin_rejects_zero_and_one() {
    let mut rng = EntropySource::from_seed(53);
    assert!(!is_prime(&num(0), 20, &mut rng));
    assert!(!is_prime(&num(1), 20, &mut rng));
}

#[test]
fn generated_primes_have_exact_bit_length() {
    let mut rng = EntropySource::from_seed(59);
    for _ in 0..5 {
        let p = generate_prime(16, &mut rng).expect("prime search");
        let v = p.to_u64().expect("fits in u64");
        assert!((1 << 15) <= v && v < (1 << 16), "{} out of range", v);
        assert_eq!(v % 2, 1);
    }
}

#[test]
fn smallest_bit_length_yields_a_prime() {
    let mut rng = EntropySource::from_seed(71);
    let p = generate_prime(2, &mut rng).expect("prime search");
    let v = p.to_u64().expect("fits in u64");
    assert_eq!(v, 3);
}

#[test]
fn extended_gcd_with_zero_argument() {
    let (g, x, y) = extended_gcd(Integer::from_i64(5), Integer::from_i64(0));
    assert_eq!(g.to_i64(), Some(5));
    assert_eq!(x.to_i64(), Some(1));
    assert_eq!(y.to_i64(), Some(0));
}

#[test]
fn extended_gcd_bezout_identity() {
    let a = Integer::from_i64(240);
    let b = Integer::from_i64(46);
    let (g, x, y) = extended_gcd(a, b);
    assert_eq!(g.to_i64(), Some(2));
    let ax = Integer::from_i64(240).mul(&x);
    let by = Integer::from_i64(46).mul(&y);
    assert_eq!(ax.add(&by).to_i64(), Some(2));
}

#[test]
fn modular_inverse_of_coprime_values() {
    let inv = modinv(&num(3), &num(11)).expect("inverse exists");
    assert_eq!(inv.to_u64(), Some(4));
    let inv2 = modinv(&num(10006 * 10008), &num(10007 * 10009)).expect("inverse exists");
    let product = inv2.mul(&num(10006 * 10008)).rem(&num(10007 * 10009));
    assert_eq!(product.to_u64(), Some(1));
}

#[test]
fn modular_inverse_missing_when_not_coprime() {
    assert!(modinv(&num(6), &num(9)).is_none());
    assert!(modinv(&num(0), &num(9)).is_none());
}
