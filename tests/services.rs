use anonnet::address::{ServiceAddress, ServiceAddressError};
use anonnet::circuit::CircuitId;
use anonnet::directory::{descriptor_key, DescriptorCache};
use anonnet::descriptor::{ConnectionInfo, DescriptorError, IntroductionPoint, ServiceDescriptor, Signature};
use anonnet::keys::KeyPair;
use anonnet::node_id::NodeId;
use anonnet::rendezvous::{RendezvousError, RendezvousId, RendezvousTable};
use anonnet::services::{
    CircuitBuilder, CreditLedger, DefaultCircuitBuilder, DefaultCreditLedger, DefaultPeerDiscovery, PeerDiscovery,
};
use anonnet::transaction::{RelayProof, Transaction, TransactionId, TransactionType};
use anonnet::types::{Credits, Timestamp};

fn signed_intro_point(service: &ServiceAddress) -> IntroductionPoint {
    let keypair = KeyPair::generate();
    let node_id = NodeId::from_public_key(&keypair.public_key());
    let info = ConnectionInfo { addresses: vec!["127.0.0.1".to_string()], port: 9090, protocol_version: 1 };
    let mut ip = IntroductionPoint::new(node_id, keypair.public_key(), info);
    ip.sign(service, &keypair);
    ip
}

#[test]
fn test_service_address_creation() {
    let keypair = KeyPair::generate();
    let address = ServiceAddress::from_public_key(&keypair.public_key());
    let hostname = address.to_hostname();
    assert!(hostname.ends_with(".anon"));
    assert_eq!(hostname.len(), 52 + 5);
    assert_eq!(hostname, hostname.to_lowercase());
}

#[test]
fn test_service_address_roundtrip() {
    let address = ServiceAddress::from_public_key(&KeyPair::generate().public_key());
    let hostname = address.to_hostname();
    assert_eq!(ServiceAddress::from_hostname(&hostname).unwrap(), address);
}

#[test]
fn test_service_address_verification() {
    let keypair = KeyPair::generate();
    let address = ServiceAddress::from_public_key(&keypair.public_key());
    assert!(address.verify_public_key(&keypair.public_key()));
    assert!(!address.verify_public_key(&KeyPair::generate().public_key()));
}

#[test]
fn test_is_anon_address() {
    assert!(ServiceAddress::is_anon_address("test.anon"));
    assert!(ServiceAddress::is_anon_address("abc123.anon"));
    assert!(ServiceAddress::is_anon_address("TEST.ANON"));
    assert!(!ServiceAddress::is_anon_address("example.com"));
    assert!(!ServiceAddress::is_anon_address("test.onion"));
    assert!(!ServiceAddress::is_anon_address("clearnet.org"));
}

#[test]
fn test_parse_with_and_without_suffix() {
    let address = ServiceAddress::from_public_key(&KeyPair::generate().public_key());
    let base32 = address.to_base32();
    let hostname = address.to_hostname();
    assert_eq!(ServiceAddress::from_hostname(&base32).unwrap(), address);
    assert_eq!(ServiceAddress::from_hostname(&hostname).unwrap(), address);
    let shouted = format!("  {}  ", hostname.to_uppercase());
    assert_eq!(ServiceAddress::from_hostname(&shouted).unwrap(), address);
}

#[test]
fn bad_host_names_are_refused() {
    assert_eq!(ServiceAddress::from_hostname("not base32!.anon"), Err(ServiceAddressError::InvalidEncoding));
    assert_eq!(ServiceAddress::from_hostname("aaaa.anon"), Err(ServiceAddressError::InvalidLength(2)));
    let zero = ServiceAddress::from_bytes([0u8; 32]);
    assert_eq!(zero.to_base32(), "a".repeat(52));
}

#[test]
fn test_descriptor_creation() {
    let keypair = KeyPair::generate();
    let service_address = ServiceAddress::from_public_key(&keypair.public_key());
    let intro_point = signed_intro_point(&service_address);
    let mut descriptor = ServiceDescriptor::new(keypair.public_key(), vec![intro_point], 3600);
    assert!(!descriptor.verify());
    descriptor.sign(&keypair);
    assert!(descriptor.verify());
}

#[test]
fn test_descriptor_validation() {
    let keypair = KeyPair::generate();
    let service_address = ServiceAddress::from_public_key(&keypair.public_key());
    let mut descriptor = ServiceDescriptor::new(keypair.public_key(), vec![signed_intro_point(&service_address)], 3600);
    descriptor.sign(&keypair);
    assert!(descriptor.validate().is_ok());
    assert!(descriptor.verify_address());
}

#[test]
fn signed_descriptor_fails_after_any_change() {
    let keypair = KeyPair::generate();
    let service_address = ServiceAddress::from_public_key(&keypair.public_key());
    let mut descriptor = ServiceDescriptor::new(keypair.public_key(), vec![signed_intro_point(&service_address)], 7200);
    descriptor.sign(&keypair);
    assert!(descriptor.verify());
    descriptor.ttl += 1;
    assert!(!descriptor.verify());
    descriptor.ttl -= 1;
    descriptor.signature.0[0] ^= 1;
    assert!(!descriptor.verify());
}

#[test]
fn test_descriptor_expiry() {
    let keypair = KeyPair::generate();
    let service_address = ServiceAddress::from_public_key(&keypair.public_key());
    let mut descriptor = ServiceDescriptor::new_at(
        keypair.public_key(),
        vec![signed_intro_point(&service_address)],
        3600,
        Timestamp::from_secs(1000),
    );
    descriptor.sign(&keypair);
    assert!(descriptor.validate_at(Timestamp::from_secs(4599)).is_ok());
    assert_eq!(descriptor.validate_at(Timestamp::from_secs(4600)), Err(DescriptorError::Expired));
    assert!(descriptor.is_expired());
}

#[test]
fn zero_ttl_descriptor_is_invalid() {
    let keypair = KeyPair::generate();
    let service_address = ServiceAddress::from_public_key(&keypair.public_key());
    let mut descriptor = ServiceDescriptor::new(keypair.public_key(), vec![signed_intro_point(&service_address)], 0);
    descriptor.sign(&keypair);
    assert!(descriptor.validate().is_err());
}

#[test]
fn test_address_verification() {
    let keypair = KeyPair::generate();
    let mut descriptor = ServiceDescriptor::new(keypair.public_key(), vec![], 3600);
    descriptor.address = ServiceAddress::from_bytes([1u8; 32]);
    descriptor.sign(&keypair);
    assert_eq!(descriptor.validate(), Err(DescriptorError::InvalidAddress));
}

#[test]
fn test_unsigned_intro_point_fails_validation() {
    let keypair = KeyPair::generate();
    let service_address = ServiceAddress::from_public_key(&keypair.public_key());
    let ip_key = KeyPair::generate();
    let unsigned = IntroductionPoint::new(
        NodeId::from_public_key(&ip_key.public_key()),
        ip_key.public_key(),
        ConnectionInfo { addresses: vec![], port: 1, protocol_version: 1 },
    );
    let mut descriptor = ServiceDescriptor::new(keypair.public_key(), vec![unsigned], 3600);
    descriptor.sign(&keypair);
    assert_eq!(descriptor.validate(), Err(DescriptorError::InvalidIntroPointSignature(0)));
}

#[test]
fn descriptor_poisoning_is_rejected() {
    let keypair = KeyPair::generate();
    let service_address = ServiceAddress::from_public_key(&keypair.public_key());
    let mut poisoned = signed_intro_point(&service_address);
    poisoned.auth_signature = Signature([0u8; 64]);
    let good = signed_intro_point(&service_address);
    let mut descriptor = ServiceDescriptor::new(keypair.public_key(), vec![poisoned, good], 3600);
    descriptor.sign(&keypair);
    assert_eq!(descriptor.validate(), Err(DescriptorError::InvalidIntroPointSignature(0)));
}

#[test]
fn test_wrong_service_address_intro_point_fails() {
    let keypair = KeyPair::generate();
    let other = ServiceAddress::from_public_key(&KeyPair::generate().public_key());
    let mut descriptor = ServiceDescriptor::new(keypair.public_key(), vec![signed_intro_point(&other)], 3600);
    descriptor.sign(&keypair);
    assert_eq!(descriptor.validate(), Err(DescriptorError::InvalidIntroPointSignature(0)));
}

#[test]
fn descriptor_checks_counts_and_ttl() {
    let keypair = KeyPair::generate();
    let service_address = ServiceAddress::from_public_key(&keypair.public_key());
    let mut none = ServiceDescriptor::new(keypair.public_key(), vec![], 3600);
    none.sign(&keypair);
    assert_eq!(none.validate(), Err(DescriptorError::NoIntroductionPoints));
    let many: Vec<IntroductionPoint> = (0..11).map(|_| signed_intro_point(&service_address)).collect();
    let mut too_many = ServiceDescriptor::new(keypair.public_key(), many, 3600);
    too_many.sign(&keypair);
    assert_eq!(too_many.validate(), Err(DescriptorError::TooManyIntroductionPoints(11)));
    let mut long = ServiceDescriptor::new(keypair.public_key(), vec![signed_intro_point(&service_address)], 86401);
    long.sign(&keypair);
    assert_eq!(long.validate(), Err(DescriptorError::InvalidTTL(86401)));
}

#[test]
fn test_rendezvous_id_generation() {
    let id1 = RendezvousId::generate();
    let id2 = RendezvousId::generate();
    assert_ne!(id1, id2);
    assert_eq!(id1.as_bytes().len(), 32);
}

#[test]
fn rendezvous_splices_client_and_service() {
    let mut table = RendezvousTable::new();
    let x = RendezvousId::from_bytes([7u8; 32]);
    let service = ServiceAddress::from_bytes([3u8; 32]);
    table.register_client(x, CircuitId(11), service).unwrap();
    assert_eq!(table.spliced_peer(CircuitId(11)), None);
    assert_eq!(table.handle_rendezvous(x, CircuitId(22)), Ok((CircuitId(11), CircuitId(22))));
    assert_eq!(table.spliced_peer(CircuitId(11)), Some(CircuitId(22)));
    assert_eq!(table.spliced_peer(CircuitId(22)), Some(CircuitId(11)));
    assert_eq!(table.handle_rendezvous(x, CircuitId(33)), Err(RendezvousError::AlreadyConnected));
    let unknown = RendezvousId::from_bytes([8u8; 32]);
    assert_eq!(table.handle_rendezvous(unknown, CircuitId(44)), Err(RendezvousError::RendezvousNotFound));
    assert_eq!(table.register_client(x, CircuitId(55), service), Err(RendezvousError::DuplicateRendezvous));
}

#[test]
fn test_relay_proof() {
    let proof = RelayProof::new(12345, 100, 50000);
    assert!(proof.verify());
    assert!(proof.calculate_credits().amount() > 0);
}

#[test]
fn test_relay_proof_expired() {
    let mut proof = RelayProof::new(12345, 100, 50000);
    proof.timestamp = Timestamp::from_secs(Timestamp::now().as_secs() - 7200);
    assert!(!proof.verify());
}

#[test]
fn test_relay_proof_credits() {
    let proof = RelayProof::new(1, 1000, 1024 * 1024 * 1024);
    assert_eq!(proof.calculate_credits().amount(), 1000);
}

#[test]
fn relay_proof_edge_cases() {
    let now = Timestamp::from_secs(10_000);
    assert!(!RelayProof::new_at(1, 0, 10, now).verify_at(now));
    assert!(!RelayProof::new_at(1, 10, 0, now).verify_at(now));
    assert!(RelayProof::new_at(1, 1, 1, now).verify_at(Timestamp::from_secs(13_600)));
    assert!(!RelayProof::new_at(1, 1, 1, now).verify_at(Timestamp::from_secs(13_601)));
    assert_eq!(RelayProof::new_at(1, 1, 1, now).calculate_credits().amount(), 1);
    assert_eq!(RelayProof::new_at(1, 1, 3 * 1073741824 / 2, now).calculate_credits().amount(), 1500);
}

#[test]
fn test_transaction_creation() {
    let from = NodeId::from_bytes([1; 32]);
    let to = NodeId::from_bytes([2; 32]);
    let tx = Transaction::new(TransactionType::Transfer { from, to, amount: Credits::new(100) }, 1);
    assert_eq!(tx.sender(), from);
    assert_eq!(tx.amount(), Credits::new(100));
    assert_eq!(TransactionId::from_u64(5).as_u64(), 5);
}

fn assert_peer_discovery<T: PeerDiscovery>() {}

fn assert_circuit_builder<T: CircuitBuilder>() {}

fn assert_credit_ledger<T: CreditLedger>() {}

#[test]
fn default_structs_compile() {
    assert_peer_discovery::<DefaultPeerDiscovery>();
    assert_circuit_builder::<DefaultCircuitBuilder>();
    assert_credit_ledger::<DefaultCreditLedger>();
}

#[test]
fn test_publish_descriptor() {
    let keypair = KeyPair::generate();
    let address = ServiceAddress::from_public_key(&keypair.public_key());
    let mut descriptor = ServiceDescriptor::new_at(keypair.public_key(), vec![signed_intro_point(&address)], 3600, Timestamp::from_secs(1000));
    descriptor.sign(&keypair);
    let mut cache = DescriptorCache::new();
    assert!(cache.store_descriptor_at(descriptor, Timestamp::from_secs(1000)).is_ok());
    assert_eq!(cache.len(), 1);
    assert!(cache.lookup_at(&address, Timestamp::from_secs(2000)).is_some());
    assert!(cache.lookup_at(&address, Timestamp::from_secs(5000)).is_none());
    cache.cleanup_expired_at(Timestamp::from_secs(5000));
    assert_eq!(cache.len(), 0);
    assert_eq!(descriptor_key(&address).as_bytes(), address.as_bytes());
}

#[test]
fn poisoned_descriptor_is_not_stored() {
    let keypair = KeyPair::generate();
    let address = ServiceAddress::from_public_key(&keypair.public_key());
    let mut poisoned = signed_intro_point(&address);
    poisoned.auth_signature = Signature([0u8; 64]);
    let mut descriptor = ServiceDescriptor::new_at(keypair.public_key(), vec![poisoned], 3600, Timestamp::from_secs(1000));
    descriptor.sign(&keypair);
    let mut cache = DescriptorCache::new();
    assert!(cache.store_descriptor_at(descriptor, Timestamp::from_secs(1000)).is_err());
    assert_eq!(cache.len(), 0);
}

#[test]
fn base32_text_uses_the_lower_case_alphabet() {
    let ones = ServiceAddress::from_bytes([0xffu8; 32]);
    let text = ones.to_base32();
    assert_eq!(text, format!("{}q", "7".repeat(51)));
    assert!(text.chars().all(|c| c.is_ascii_lowercase() || ('2'..='7').contains(&c)));
    assert_eq!(ServiceAddress::from_hostname(&text.to_uppercase()).unwrap(), ones);
}
