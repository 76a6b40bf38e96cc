use paillier::arithmetic::{paillier_add, paillier_scalar_mul, paillier_subtract};
use paillier::bignum::Natural;
use paillier::cipher::{decrypt, encrypt};
use paillier::keygen::{derive_keypair, generate_keypair, PrivateKey, PublicKey};
use paillier::randomness::EntropySource;
use paillier::CryptoError;

fn num(x: u64) -> Natural {
    Natural::from_u64(x)
}

fn keypair(bits: u64, seed: u64) -> (PublicKey, PrivateKey, EntropySource) {
    let mut rng = EntropySource::from_seed(seed);
    let (pk, sk) = generate_keypair(bits, &mut rng).expect("key generation");
    (pk, sk, rng)
}

#[test]
fn round_trip_across_bit_lengths() {
    for &bits in &[16u64, 32, 64] {
        let (pk, sk, mut rng) = keypair(bits, 7 + bits);
        for _ in 0..200 {
            let m = rng.below(&pk.n);
            let c = encrypt(&pk, &m, &mut rng).expect("encrypt");
            let back = decrypt(&sk, &pk, &c);
            assert!(back.eq_value(&m));
        }
    }
}

#[test]
fn homomorphic_addition() {
    let (pk, sk, mut rng) = keypair(64, 11);
    for _ in 0..50 {
        let m1 = rng.below(&pk.n);
        let m2 = rng.below(&pk.n);
        let c1 = encrypt(&pk, &m1, &mut rng).expect("encrypt");
        let c2 = encrypt(&pk, &m2, &mut rng).expect("encrypt");
        let c_sum = paillier_add(&c1, &c2, &pk);
        let expected = m1.add(&m2).rem(&pk.n);
        assert!(decrypt(&sk, &pk, &c_sum).eq_value(&expected));
    }
}

#[test]
fn scalar_linearity() {
    let (pk, sk, mut rng) = keypair(64, 13);
    for k in [0u64, 1, 2, 3, 1000, 65537] {
        let m = rng.below(&pk.n);
        let c = encrypt(&pk, &m, &mut rng).expect("encrypt");
        let k_nat = num(k);
        let c_scaled = paillier_scalar_mul(&c, &k_nat, &pk);
        let expected = k_nat.mul(&m).rem(&pk.n);
        assert!(decrypt(&sk, &pk, &c_scaled).eq_value(&expected));
    }
}

#[test]
fn homomorphic_subtraction() {
    let (pk, sk, mut rng) = keypair(64, 17);
    for _ in 0..50 {
        let m1 = rng.below(&pk.n);
        let m2 = rng.below(&pk.n);
        let c1 = encrypt(&pk, &m1, &mut rng).expect("encrypt");
        let c2 = encrypt(&pk, &m2, &mut rng).expect("encrypt");
        let c_diff = paillier_subtract(&c1, &c2, &pk);
        // (m1 - m2) mod n, computed without going below zero.
        let expected = m1.add(&pk.n).sub(&m2).rem(&pk.n);
        assert!(decrypt(&sk, &pk, &c_diff).eq_value(&expected));
    }
}

#[test]
fn encryption_is_randomized() {
    let (pk, _sk, mut rng) = keypair(64, 19);
    let m = num(42);
    let c1 = encrypt(&pk, &m, &mut rng).expect("encrypt");
    let c2 = encrypt(&pk, &m, &mut rng).expect("encrypt");
    assert!(!c1.eq_value(&c2));
}

#[test]
fn generated_keys_are_valid() {
    for seed in [1u64, 2, 3] {
        let (pk, sk, _rng) = keypair(64, seed);
        let two = num(2);
        // n is odd.
        assert!(pk.n.rem(&two).eq_value(&num(1)));
        // g == n + 1.
        assert!(pk.g.eq_value(&pk.n.add(&num(1))));
        // mu * lambda == 1 (mod n).
        let product = sk.mu.mul(&sk.lambda).rem(&pk.n);
        assert!(product.eq_value(&num(1)));
    }
}

#[test]
fn derive_keypair_from_known_primes() {
    let p = num(10007);
    let q = num(10009);
    let (pk, sk) = derive_keypair(&p, &q).expect("derive");
    assert_eq!(pk.n.to_u64(), Some(10007 * 10009));
    assert_eq!(pk.g.to_u64(), Some(10007 * 10009 + 1));
    assert_eq!(sk.lambda.to_u64(), Some(10006 * 10008));
    let product = sk.mu.mul(&sk.lambda).rem(&pk.n);
    assert!(product.eq_value(&num(1)));
}

#[test]
fn derive_keypair_rejects_degenerate_primes() {
    // 3 divides 7 - 1, so gcd((3-1)*(7-1), 21) == 3 and no inverse exists.
    let p = num(3);
    let q = num(7);
    assert!(matches!(
        derive_keypair(&p, &q),
        Err(CryptoError::InvalidKeyMaterial)
    ));
}

#[test]
fn encrypt_rejects_out_of_range() {
    let (pk, _sk, mut rng) = keypair(32, 23);
    let at_modulus = pk.n.clone_value();
    assert!(matches!(
        encrypt(&pk, &at_modulus, &mut rng),
        Err(CryptoError::OutOfRange)
    ));
    let above = pk.n.add(&num(5));
    assert!(matches!(
        encrypt(&pk, &above, &mut rng),
        Err(CryptoError::OutOfRange)
    ));
}

#[test]
fn end_to_end_addition() {
    let (pk, sk, mut rng) = keypair(64, 29);
    let c42 = encrypt(&pk, &num(42), &mut rng).expect("encrypt");
    let c17 = encrypt(&pk, &num(17), &mut rng).expect("encrypt");
    let c_sum = paillier_add(&c42, &c17, &pk);
    let m = decrypt(&sk, &pk, &c_sum);
    assert_eq!(m.to_u64(), Some(59));
}
