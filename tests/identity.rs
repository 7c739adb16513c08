use anonnet::keys::KeyPair;
use anonnet::node_id::{count_leading_zero_bits, NodeId, NodeIdError};
use anonnet::pow::ProofOfWork;

#[test]
fn test_distance_ordering() {
    let id1 = NodeId::from_bytes([0u8; 32]);
    let id2 = NodeId::from_bytes([1u8; 32]);
    let id3 = NodeId::from_bytes([255u8; 32]);
    let dist_12 = id1.distance(&id2);
    let dist_13 = id1.distance(&id3);
    assert!(dist_12 < dist_13);
    assert!(dist_12.is_less_than(&dist_13));
    assert!(!dist_13.is_less_than(&dist_12));
}

#[test]
fn test_node_id_distance() {
    let id1 = NodeId::from_public_key(&KeyPair::generate().public_key());
    let id2 = NodeId::from_public_key(&KeyPair::generate().public_key());
    assert_eq!(id1.distance(&id2), id2.distance(&id1));
    assert_eq!(id1.distance(&id1).as_bytes(), &[0u8; 32]);
}

#[test]
fn test_node_id_deterministic() {
    let keypair = KeyPair::generate();
    let a = NodeId::from_public_key(&keypair.public_key());
    let b = NodeId::from_public_key(&keypair.public_key());
    assert_eq!(a, b);
    assert_eq!(a.as_bytes().len(), 32);
}

#[test]
fn test_node_id_hex() {
    let id = NodeId::from_public_key(&KeyPair::generate().public_key());
    let hex = id.to_hex();
    assert_eq!(hex.len(), 64);
    assert_eq!(NodeId::from_hex(&hex).unwrap(), id);
}

#[test]
fn node_id_hex_errors() {
    assert_eq!(NodeId::from_hex("zz"), Err(NodeIdError::InvalidHex));
    assert_eq!(NodeId::from_hex("abcd"), Err(NodeIdError::InvalidLength));
    let upper = "AB".repeat(32);
    assert_eq!(NodeId::from_hex(&upper).unwrap(), NodeId::from_bytes([0xab; 32]));
}

#[test]
fn hex_of_known_bytes() {
    let mut bytes = [0u8; 32];
    bytes[0] = 0x0f;
    bytes[31] = 0xa0;
    let hex = NodeId::from_bytes(bytes).to_hex();
    assert!(hex.starts_with("0f00"));
    assert!(hex.ends_with("00a0"));
    assert_eq!(NodeId::from_bytes(bytes).short_hex(), "0f00000000000000");
}

#[test]
fn leading_zeros_of_distances() {
    let a = NodeId::from_bytes([0u8; 32]);
    let mut b_bytes = [0u8; 32];
    b_bytes[1] = 0x10;
    let b = NodeId::from_bytes(b_bytes);
    assert_eq!(a.distance(&b).leading_zeros(), 11);
    assert_eq!(a.distance(&a).leading_zeros(), 256);
    assert_eq!(count_leading_zero_bits(&[0xff; 32]), 0);
}

#[test]
fn test_pow_mining_easy() {
    let public_key = [0u8; 32];
    let difficulty = 8;
    let pow = ProofOfWork::mine(&public_key, difficulty);
    assert_eq!(pow.difficulty, difficulty);
    assert!(pow.verify(&public_key));
}

#[test]
fn test_pow_verification() {
    let public_key = [1u8; 32];
    let difficulty = 8;
    let pow = ProofOfWork::mine(&public_key, difficulty);
    assert!(pow.verify(&public_key));
    let wrong_key = [2u8; 32];
    assert!(!pow.verify(&wrong_key));
}

#[test]
fn test_leading_zero_bits() {
    assert_eq!(ProofOfWork::count_leading_zero_bits(&[0u8; 32]), 255);
    assert_eq!(
        ProofOfWork::count_leading_zero_bits(&[0, 0, 0, 128, 0, 0, 0, 0, 0, 0, 0, 0, 0, 0, 0, 0, 0, 0, 0, 0, 0, 0, 0, 0, 0, 0, 0, 0, 0, 0, 0, 0]),
        24
    );
    assert_eq!(
        ProofOfWork::count_leading_zero_bits(&[0, 0, 64, 0, 0, 0, 0, 0, 0, 0, 0, 0, 0, 0, 0, 0, 0, 0, 0, 0, 0, 0, 0, 0, 0, 0, 0, 0, 0, 0, 0, 0]),
        17
    );
}

#[test]
fn test_credits_calculation() {
    assert_eq!(ProofOfWork { nonce: 0, difficulty: 8, timestamp: 0 }.calculate_credits(), 1000);
    assert_eq!(ProofOfWork { nonce: 0, difficulty: 12, timestamp: 0 }.calculate_credits(), 2000);
    assert_eq!(ProofOfWork { nonce: 0, difficulty: 16, timestamp: 0 }.calculate_credits(), 4000);
    assert_eq!(ProofOfWork { nonce: 0, difficulty: 20, timestamp: 0 }.calculate_credits(), 8000);
    assert_eq!(ProofOfWork { nonce: 0, difficulty: 24, timestamp: 0 }.calculate_credits(), 16000);
    assert_eq!(ProofOfWork { nonce: 0, difficulty: 4, timestamp: 0 }.calculate_credits(), 100);
}

#[test]
fn credits_below_difficulty_eight_are_the_floor() {
    for d in 0..8u8 {
        assert_eq!(ProofOfWork { nonce: 0, difficulty: d, timestamp: 0 }.calculate_credits(), 100);
    }
    assert_eq!(ProofOfWork { nonce: 0, difficulty: 11, timestamp: 0 }.calculate_credits(), 1000);
}

#[test]
fn test_pow_deterministic() {
    let public_key = [42u8; 32];
    let difficulty = 8;
    let pow1 = ProofOfWork::mine(&public_key, difficulty);
    let pow2 = ProofOfWork::mine(&public_key, difficulty);
    assert!(pow1.verify(&public_key));
    assert!(pow2.verify(&public_key));
}

#[test]
fn mining_at_a_fixed_time_is_reproducible() {
    let key = [7u8; 32];
    let a = ProofOfWork::mine_at(&key, 6, 1000);
    let b = ProofOfWork::mine_at(&key, 6, 1000);
    assert_eq!(a, b);
    assert!(a.verify(&key));
    for n in 0..a.nonce {
        assert!(!ProofOfWork::verify_nonce(&key, n, 6, 1000));
    }
}

#[test]
fn test_difficulty_ranges() {
    assert_eq!(ProofOfWork::minimum_difficulty(), 8);
    assert_eq!(ProofOfWork::recommended_difficulty(), 12);
    assert_eq!(ProofOfWork::maximum_difficulty(), 28);
}

#[test]
fn test_sign_and_verify() {
    let keypair = KeyPair::generate();
    let message = b"hello";
    let sig = keypair.sign(message);
    assert!(keypair.verify(message, &sig));
    assert!(keypair.public_key().verify(message, &sig));
    assert!(!keypair.verify(b"other", &sig));
}

#[test]
fn test_keypair_from_bytes() {
    let keypair = KeyPair::generate();
    let restored = KeyPair::from_secret_bytes(&keypair.secret_bytes()).unwrap();
    assert_eq!(restored.public_bytes(), keypair.public_bytes());
}

#[test]
fn credits_saturate_at_high_difficulty() {
    assert_eq!(ProofOfWork { nonce: 0, difficulty: 227, timestamp: 0 }.calculate_credits(), 1000u64 << 54);
    assert_eq!(ProofOfWork { nonce: 0, difficulty: 228, timestamp: 0 }.calculate_credits(), u64::MAX);
    assert_eq!(ProofOfWork { nonce: 0, difficulty: 255, timestamp: 0 }.calculate_credits(), u64::MAX);
    assert_eq!(ProofOfWork { nonce: 0, difficulty: 7, timestamp: 0 }.calculate_credits(), 100);
}
