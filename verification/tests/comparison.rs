use paillier::arithmetic::paillier_difference;
use paillier::bignum::Natural;
use paillier::cipher::encrypt;
use paillier::comparator::compare_ge;
use paillier::keygen::generate_keypair;
use paillier::randomness::EntropySource;

fn num(x: u64) -> Natural {
    Natural::from_u64(x)
}

#[test]
fn signed_difference_positive_and_negative() {
    let mut rng = EntropySource::from_seed(31);
    let (pk, sk) = generate_keypair(64, &mut rng).expect("key generation");
    let c5 = encrypt(&pk, &num(5), &mut rng).expect("encrypt");
    let c3 = encrypt(&pk, &num(3), &mut rng).expect("encrypt");
    let forward = paillier_difference(&c5, &c3, &pk, &sk);
    assert_eq!(forward.to_i64(), Some(2));
    let backward = paillier_difference(&c3, &c5, &pk, &sk);
    assert_eq!(backward.to_i64(), Some(-2));
}

#[test]
fn signed_difference_of_equal_plaintexts_is_zero() {
    let mut rng = EntropySource::from_seed(37);
    let (pk, sk) = generate_keypair(64, &mut rng).expect("key generation");
    let c1 = encrypt(&pk, &num(1234), &mut rng).expect("encrypt");
    let c2 = encrypt(&pk, &num(1234), &mut rng).expect("encrypt");
    let diff = paillier_difference(&c1, &c2, &pk, &sk);
    assert_eq!(diff.to_i64(), Some(0));
}

#[test]
fn comparator_orders_plaintexts() {
    let mut rng = EntropySource::from_seed(41);
    let (pk, sk) = generate_keypair(64, &mut rng).expect("key generation");
    let cases: [(u64, u64, bool); 3] = [(100, 80, true), (80, 100, false), (50, 50, true)];
    for &(a, b, expected) in &cases {
        let got = compare_ge(&pk, &sk, &num(a), &num(b), &mut rng).expect("compare");
        assert_eq!(got, expected);
    }
}
