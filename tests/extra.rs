use anonnet::circuit::{Circuit, CircuitId, CircuitNode, CircuitPurpose, CircuitState};
use anonnet::config::MIN_CIRCUIT_LENGTH;
use anonnet::crypto::{LayerCrypto, OnionCrypto};
use anonnet::keys::{KeyPair, PublicKey};
use anonnet::messages::MessageId;
use anonnet::node_id::NodeId;
use anonnet::node_info::NodeInfo;
use anonnet::transaction::TransactionId;
use anonnet::types::{NetworkAddress, Reputation, Timestamp};

#[test]
fn test_node_id_from_public_key() {
    let keypair = KeyPair::generate();
    let node_id = NodeId::from_public_key(&keypair.public_key());
    assert_eq!(node_id.as_bytes().len(), 32);
    assert_eq!(node_id.as_bytes(), blake3::hash(&keypair.public_bytes()).as_bytes());
}

#[test]
fn test_keypair_generation() {
    let a = KeyPair::generate();
    let b = KeyPair::generate();
    assert_ne!(a.public_bytes(), b.public_bytes());
}

#[test]
fn test_public_key_verify() {
    let keypair = KeyPair::generate();
    let public = PublicKey::from_bytes(&keypair.public_bytes()).unwrap();
    let sig = keypair.sign(b"payload");
    assert!(public.verify(b"payload", &sig));
    let mut bad = sig;
    bad[10] ^= 0x40;
    assert!(!public.verify(b"payload", &bad));
}

#[test]
fn test_transaction_id_generation() {
    assert_ne!(TransactionId::generate(), TransactionId::generate());
}

#[test]
fn test_circuit_id_generate() {
    assert_ne!(CircuitId::generate(), CircuitId::generate());
}

#[test]
fn test_message_id_generation() {
    assert_ne!(MessageId::generate(), MessageId::generate());
    assert_eq!(MessageId::from_bytes([3; 16]).as_bytes(), &[3u8; 16]);
}

#[test]
fn test_circuit_id_generation() {
    assert_ne!(anonnet::messages::CircuitId::generate(), anonnet::messages::CircuitId::generate());
}

#[test]
fn test_circuit_add_nodes() {
    let mut circuit = Circuit::new(CircuitId::generate(), CircuitPurpose::General);
    for i in 0..MIN_CIRCUIT_LENGTH {
        let keypair = KeyPair::from_seed(&[i as u8 + 40; 32]);
        let node_id = NodeId::from_public_key(&keypair.public_key());
        let (fwd, bwd) = OnionCrypto::derive_bidirectional_keys_with_bases(&[i as u8; 32], [0; 12], [1; 12]);
        circuit.add_node(CircuitNode::new(node_id, keypair.public_key(), fwd, bwd)).unwrap();
    }
    assert!(circuit.is_complete());
    assert_eq!(circuit.state, CircuitState::Ready);
}

#[test]
fn test_encryption_with_different_nonces() {
    let mut layer = LayerCrypto::from_parts([9; 32], [0; 12]);
    let c1 = layer.encrypt(b"same plaintext").unwrap();
    let c2 = layer.encrypt(b"same plaintext").unwrap();
    assert_ne!(c1, c2);
    assert_eq!(layer.counter(), 2);
}

#[test]
fn test_node_info_creation() {
    let info = NodeInfo::new(NetworkAddress::from_ip(vec![127, 0, 0, 1], 8080));
    assert_eq!(info.addresses.len(), 1);
    assert_eq!(info.reputation, Reputation::initial());
}

#[test]
fn test_node_info_stale() {
    let mut info = NodeInfo::new(NetworkAddress::from_ip(vec![127, 0, 0, 1], 8080));
    assert!(!info.is_stale(3600));
    info.last_seen = Timestamp::from_secs(0);
    assert!(info.is_stale(3600));
}

#[test]
fn kbucket_closest_nodes_are_sorted() {
    let mut bucket = anonnet::kbucket::KBucket::new(5);
    let mut ids = Vec::new();
    for _ in 0..5 {
        let k = KeyPair::generate();
        let id = NodeId::from_public_key(&k.public_key());
        bucket.insert(id, k.public_key(), vec![]).unwrap();
        ids.push(id);
    }
    let target = NodeId::from_bytes([0x55; 32]);
    ids.sort_by_key(|id| id.distance(&target));
    let got: Vec<NodeId> = bucket.closest_nodes(&target, 2).iter().map(|e| e.node_id).collect();
    assert_eq!(got, ids[..2].to_vec());
}

#[test]
fn node_info_with_addresses() {
    let info = NodeInfo::with_addresses(vec![
        NetworkAddress::from_ip(vec![10, 0, 0, 1], 1),
        NetworkAddress::from_domain("relay.example".to_string(), 2),
    ]);
    assert_eq!(info.addresses.len(), 2);
    assert!(info.accepts_relay);
    assert_eq!(info.protocol_version, 1);
}
