use paillier::bignum::Natural;
use paillier::cipher::{decrypt, encrypt};
use paillier::codec::{from_decimal, to_decimal};
use paillier::keygen::generate_keypair;
use paillier::randomness::EntropySource;
use paillier::CryptoError;

fn num(x: u64) -> Natural {
    Natural::from_u64(x)
}

#[test]
fn serializes_canonical_decimal() {
    assert_eq!(to_decimal(&num(0)), b"0".to_vec());
    assert_eq!(to_decimal(&num(7)), b"7".to_vec());
    assert_eq!(to_decimal(&num(10)), b"10".to_vec());
    assert_eq!(to_decimal(&num(1234567890)), b"1234567890".to_vec());
}

#[test]
fn parses_decimal_values() {
    let v = from_decimal(b"1234567890").expect("parse");
    assert_eq!(v.to_u64(), Some(1234567890));
    // Leading zeros carry no weight but are digits.
    let padded = from_decimal(b"007").expect("parse");
    assert_eq!(padded.to_u64(), Some(7));
}

#[test]
fn rejects_malformed_decimal() {
    assert!(matches!(from_decimal(b""), Err(CryptoError::ParseError)));
    assert!(matches!(from_decimal(b"12a4"), Err(CryptoError::ParseError)));
    assert!(matches!(from_decimal(b"-5"), Err(CryptoError::ParseError)));
    assert!(matches!(from_decimal(b" 5"), Err(CryptoError::ParseError)));
}

#[test]
fn decimal_round_trip_over_random_values() {
    let mut rng = EntropySource::from_seed(61);
    let bound = num(u64::MAX).mul(&num(u64::MAX));
    for _ in 0..100 {
        let v = rng.below(&bound);
        let encoded = to_decimal(&v);
        let back = from_decimal(&encoded).expect("parse");
        assert!(back.eq_value(&v));
    }
}

#[test]
fn ciphertext_survives_serialization() {
    let mut rng = EntropySource::from_seed(67);
    let (pk, sk) = generate_keypair(64, &mut rng).expect("key generation");
    let m = num(31415926);
    let c = encrypt(&pk, &m, &mut rng).expect("encrypt");
    let stored = to_decimal(&c);
    let restored = from_decimal(&stored).expect("parse");
    assert!(decrypt(&sk, &pk, &restored).eq_value(&m));
}
