use anonnet::builder::{extend_cell, handle_create_circuit, request_from_extend, BuildError, CircuitBuilder, EphemeralKeyPair};
use anonnet::circuit::{Circuit, CircuitId, CircuitPurpose, CircuitState};
use anonnet::config::PROTOCOL_VERSION;
use anonnet::dht_node::{DhtNode, FindValueReply, FoundPeer};
use anonnet::dispatcher::{MessageDispatcher, MessagePayload};
use anonnet::messages::{FindNodeMessage, PongMessage};
use anonnet::handshake::{check_handshake, check_response, respond, HandshakeError, HandshakeMessage};
use anonnet::identity::Identity;
use anonnet::keys::KeyPair;
use anonnet::manager::CircuitManager;
use anonnet::messages::{CircuitCreatedMessage, PingMessage};
use anonnet::node_id::NodeId;
use anonnet::path_selection::{PathSelectionCriteria, PathSelectionError, PathSelector};
use anonnet::routing_table::RoutingTable;
use anonnet::storage::StoredValue;
use anonnet::types::{NetworkAddress, Timestamp};

fn peer() -> (NodeId, anonnet::keys::PublicKey) {
    let k = KeyPair::generate();
    (NodeId::from_public_key(&k.public_key()), k.public_key())
}

fn table_with(n: usize) -> RoutingTable {
    let mut table = RoutingTable::new(NodeId::from_bytes([0u8; 32]));
    let mut added = 0;
    while added < n {
        let (id, key) = peer();
        if table.insert(id, key, vec![NetworkAddress::from_domain("h".to_string(), 1)]).is_ok() {
            added += 1;
        }
    }
    table
}

#[test]
fn test_identity_generation() {
    let identity = Identity::generate();
    assert_eq!(identity.node_id(), NodeId::from_public_key(&identity.public_key()));
}

#[test]
fn test_identity_sign_verify() {
    let identity = Identity::generate();
    let sig = identity.sign(b"msg");
    assert!(identity.verify(b"msg", &sig));
    assert!(!identity.verify(b"other", &sig));
}

#[test]
fn test_identity_export_import() {
    let identity = Identity::generate();
    let exported = identity.to_exportable();
    let restored = Identity::from_exportable(&exported).unwrap();
    assert_eq!(restored.node_id(), identity.node_id());
    assert_eq!(restored.secret_bytes(), identity.secret_bytes());
}

#[test]
fn handshake_accepts_an_honest_peer() {
    let a = Identity::generate();
    let b = Identity::generate();
    let hello = HandshakeMessage {
        node_id: a.node_id(),
        public_key: a.public_key(),
        protocol_version: PROTOCOL_VERSION,
        addresses: vec![],
        accepts_relay: true,
        nonce: [5u8; 32],
    };
    assert_eq!(check_handshake(&hello), Ok(()));
    let answer = respond(&b, &hello, vec![], true);
    assert_eq!(check_response(&answer, &hello.nonce), Ok(()));
    assert_eq!(check_response(&answer, &[6u8; 32]), Err(HandshakeError::InvalidSignature));
}

#[test]
fn handshake_rejects_a_borrowed_node_id() {
    let a = Identity::generate();
    let other = KeyPair::generate();
    let hello = HandshakeMessage {
        node_id: NodeId::from_public_key(&other.public_key()),
        public_key: a.public_key(),
        protocol_version: PROTOCOL_VERSION,
        addresses: vec![],
        accepts_relay: true,
        nonce: [1u8; 32],
    };
    assert_eq!(check_handshake(&hello), Err(HandshakeError::InvalidNodeId));
    let old = HandshakeMessage { protocol_version: 99, ..hello };
    assert_eq!(check_handshake(&old), Err(HandshakeError::VersionMismatch));
}

#[test]
fn test_x25519_key_exchange() {
    let alice = EphemeralKeyPair::generate();
    let bob = EphemeralKeyPair::generate();
    let alice_public = alice.public_key_bytes();
    let bob_public = bob.public_key_bytes();
    assert_eq!(alice.diffie_hellman(&bob_public), bob.diffie_hellman(&alice_public));
}

#[test]
fn test_circuit_builder_creation() {
    let circuit_id = CircuitId::generate();
    let builder = CircuitBuilder::new(circuit_id, CircuitPurpose::General);
    assert_eq!(builder.circuit().id, circuit_id);
    assert_eq!(builder.circuit().nodes.len(), 0);
}

#[test]
fn test_handle_create_circuit() {
    let ephemeral = EphemeralKeyPair::generate();
    let create = anonnet::messages::CreateCircuitMessage {
        circuit_id: anonnet::messages::CircuitId(12345),
        next_hop: None,
        encrypted_payload: Some(ephemeral.public_key_bytes().to_vec()),
    };
    let (response, layers) = handle_create_circuit(&create);
    assert!(response.success);
    assert!(layers.is_some());
    let bad = anonnet::messages::CreateCircuitMessage { encrypted_payload: Some(vec![1, 2, 3]), ..create };
    let (refused, none) = handle_create_circuit(&bad);
    assert!(!refused.success);
    assert!(none.is_none());
}

#[test]
fn builder_and_relay_share_layers() {
    let mut builder = CircuitBuilder::new(CircuitId(77), CircuitPurpose::General);
    let mut relay_layers: Vec<(anonnet::crypto::LayerCrypto, anonnet::crypto::LayerCrypto)> = Vec::new();
    for hop in 0..3 {
        let (id, key) = peer();
        let request = builder.begin_extend(id, key).unwrap();
        assert_eq!(builder.begin_extend(id, key).unwrap_err(), BuildError::ExtensionPending);
        let delivered = if hop == 0 {
            assert!(request.next_hop.is_none());
            assert_eq!(builder.extension_onion(&request).unwrap_err(), BuildError::EmptyCircuit);
            request
        } else {
            // The Extend cell travels through the hops already there; the exit passes it on.
            let mut data = builder.extension_onion(&request).unwrap();
            for (fwd, _) in relay_layers.iter_mut() {
                data = fwd.decrypt(&data).unwrap();
            }
            let cell = anonnet::circuit::RelayCell::from_bytes(&data).unwrap();
            assert!(cell.verify_digest());
            let forwarded = request_from_extend(request.circuit_id, &cell).unwrap();
            assert_eq!(forwarded.next_hop, Some(id));
            assert_eq!(forwarded.encrypted_payload, request.encrypted_payload);
            forwarded
        };
        let (reply, layers) = handle_create_circuit(&delivered);
        builder.on_created(&reply).unwrap();
        relay_layers.push(layers.unwrap());
    }
    let mut circuit: Circuit = builder.build().unwrap();
    assert_eq!(circuit.state, CircuitState::Ready);
    assert_eq!(circuit.length(), 3);
    // A cell wrapped by the originator is peeled by the three relays in turn.
    let (mut forward, mut backward): (Vec<_>, Vec<_>) = circuit.nodes.drain(..).map(|n| (n.forward_crypto, n.backward_crypto)).unzip();
    let onion = anonnet::crypto::OnionCrypto::encrypt_onion(&mut forward, b"hello anonnet").unwrap();
    let mut data = onion;
    for (fwd, _) in relay_layers.iter_mut() {
        data = fwd.decrypt(&data).unwrap();
    }
    assert_eq!(data, b"hello anonnet".to_vec());
    // A reply from the exit is wrapped by each hop going back and peeled by the originator.
    let mut reply = anonnet::relay::RelayHandler::create_data_cell(1, b"ack".to_vec(), 0).to_bytes();
    for (_, bwd) in relay_layers.iter_mut().rev() {
        reply = bwd.encrypt(&reply).unwrap();
    }
    let plain = anonnet::crypto::OnionCrypto::peel_all(&mut backward, &reply).unwrap();
    let cell = anonnet::circuit::RelayCell::from_bytes(&plain).unwrap();
    assert_eq!(cell.payload, b"ack".to_vec());
    assert!(cell.verify_digest());
    assert!(anonnet::crypto::OnionCrypto::peel_all(&mut backward, &reply).is_err());
}

#[test]
fn failed_extension_fails_the_circuit() {
    let mut builder = CircuitBuilder::new(CircuitId(78), CircuitPurpose::General);
    let (id, key) = peer();
    let request = builder.begin_extend(id, key).unwrap();
    let failed = CircuitCreatedMessage { circuit_id: request.circuit_id, success: false, public_key: None };
    assert_eq!(builder.on_created(&failed), Err(BuildError::PeerFailed));
    assert_eq!(builder.circuit().state, CircuitState::Failed);
    assert_eq!(builder.on_created(&failed), Err(BuildError::NoExtensionPending));
    assert_eq!(builder.build().unwrap_err(), BuildError::EmptyCircuit);
}

#[test]
fn test_circuit_manager_create() {
    let manager = CircuitManager::new();
    assert_eq!(manager.circuit_count(), 0);
}

#[test]
fn test_create_circuit() {
    let table = table_with(5);
    let mut manager = CircuitManager::new();
    let criteria = PathSelectionCriteria::new();
    let (id, path) = manager.create_circuit(&table, CircuitPurpose::General, Some(criteria)).unwrap();
    assert_eq!(path.len(), 3);
    assert!(manager.get_circuit(&id).is_some());
}

#[test]
fn test_get_circuit() {
    let mut manager = CircuitManager::new();
    manager.add_circuit(Circuit::new(CircuitId(1), CircuitPurpose::General)).unwrap();
    assert_eq!(manager.get_circuit(&CircuitId(1)).unwrap().id, CircuitId(1));
    assert!(manager.get_circuit(&CircuitId(2)).is_none());
    assert!(manager.add_circuit(Circuit::new(CircuitId(1), CircuitPurpose::General)).is_err());
}

#[test]
fn test_destroy_circuit() {
    let mut manager = CircuitManager::new();
    manager.add_circuit(Circuit::new(CircuitId(1), CircuitPurpose::General)).unwrap();
    let destroyed = manager.destroy_circuit(&CircuitId(1)).unwrap();
    assert_eq!(destroyed.state, CircuitState::Closed);
    assert_eq!(manager.circuit_count(), 0);
    assert!(manager.destroy_circuit(&CircuitId(1)).is_none());
}

#[test]
fn test_circuit_manager_stats() {
    let mut manager = CircuitManager::with_capacity(2);
    manager.add_circuit(Circuit::new(CircuitId(1), CircuitPurpose::General)).unwrap();
    manager.add_circuit(Circuit::new(CircuitId(2), CircuitPurpose::Testing)).unwrap();
    assert!(manager.add_circuit(Circuit::new(CircuitId(3), CircuitPurpose::General)).is_err());
    assert!(manager.mark_failed(&CircuitId(2)));
    let stats = manager.stats();
    assert_eq!(stats.total_circuits, 2);
    assert_eq!(stats.building, 1);
    assert_eq!(stats.failed, 1);
    assert_eq!(stats.max_circuits, 2);
}

#[test]
fn manager_cleanup_removes_failed_and_expired() {
    let mut manager = CircuitManager::new();
    manager.add_circuit(Circuit::new_at(CircuitId(1), CircuitPurpose::General, Timestamp::from_secs(0))).unwrap();
    manager.add_circuit(Circuit::new_at(CircuitId(2), CircuitPurpose::General, Timestamp::from_secs(500))).unwrap();
    manager.add_circuit(Circuit::new_at(CircuitId(3), CircuitPurpose::General, Timestamp::from_secs(500))).unwrap();
    manager.mark_failed(&CircuitId(3));
    let stats = manager.cleanup_at(Timestamp::from_secs(700));
    assert_eq!(stats.expired, 1);
    assert_eq!(stats.failed, 1);
    assert_eq!(stats.total_removed, 2);
    assert_eq!(manager.circuit_count(), 1);
    assert!(manager.get_ready_circuit_at(CircuitPurpose::General, Timestamp::from_secs(700)).is_none());
}

#[test]
fn test_path_selection() {
    let table = table_with(10);
    let criteria = PathSelectionCriteria::new().with_min_reputation(anonnet::types::Reputation::new(0));
    let path = PathSelector::select_path(&table, &criteria).unwrap();
    assert_eq!(path.len(), 3);
    assert_ne!(path[0], path[1]);
    assert_ne!(path[1], path[2]);
    assert_ne!(path[0], path[2]);
}

#[test]
fn test_path_selection_exclusions() {
    let table = table_with(4);
    let all: Vec<NodeId> = table.all_nodes().iter().map(|e| e.node_id).collect();
    let criteria = PathSelectionCriteria::new().exclude_node(all[0]).exclude_nodes(&all[1..2]);
    let path = PathSelector::select_path(&table, &criteria);
    assert_eq!(path, Err(PathSelectionError::InsufficientNodes { available: 2, required: 3 }));
}

#[test]
fn test_insufficient_nodes() {
    let table = table_with(2);
    let criteria = PathSelectionCriteria::new();
    let result = PathSelector::select_path(&table, &criteria);
    assert!(matches!(result, Err(PathSelectionError::InsufficientNodes { available: 2, required: 3 })));
}

#[test]
fn test_custom_circuit_length() {
    let table = table_with(10);
    let criteria = PathSelectionCriteria::new().with_circuit_length(5);
    assert_eq!(PathSelector::select_path(&table, &criteria).unwrap().len(), 5);
    assert_eq!(PathSelectionCriteria::new().with_circuit_length(100).circuit_length, 8);
    assert_eq!(PathSelectionCriteria::new().with_circuit_length(0).circuit_length, 1);
}

#[test]
fn test_handle_ping() {
    let node = DhtNode::new(NodeId::from_bytes([0u8; 32]), 10);
    assert_eq!(node.handle_ping(&PingMessage { nonce: 42 }).nonce, 42);
}

#[test]
fn test_handle_find_node() {
    let mut node = DhtNode::new(NodeId::from_bytes([0u8; 32]), 10);
    let peers: Vec<FoundPeer> = (0..5)
        .map(|_| {
            let (node_id, public_key) = peer();
            FoundPeer { node_id, public_key, addresses: vec![] }
        })
        .collect();
    let mut forged = peers[0].clone();
    forged.public_key = KeyPair::generate().public_key();
    let mut reported = peers.clone();
    reported.push(forged);
    let admitted = node.handle_nodes_found_at(peers[0].node_id, NodeId::from_bytes([1u8; 32]), reported, Timestamp::from_secs(10));
    assert_eq!(admitted, 5);
    assert_eq!(node.routing_table.node_count(), 5);
    assert_eq!(node.handle_find_node(&NodeId::from_bytes([9u8; 32]), 3).len(), 3);
    assert_eq!(node.handle_find_node(&NodeId::from_bytes([9u8; 32]), 100).len(), 5);
}

#[test]
fn store_and_find_value() {
    let mut node = DhtNode::new(NodeId::from_bytes([0u8; 32]), 10);
    let key = [3u8; 32];
    let value = StoredValue::new_at(b"descriptor".to_vec(), NodeId::from_bytes([4u8; 32]), Timestamp::from_secs(100));
    assert!(node.handle_store(key, value).success);
    match node.handle_find_value_at(&key, Timestamp::from_secs(200)) {
        FindValueReply::ValueFound(values) => assert_eq!(values[0].data, b"descriptor".to_vec()),
        FindValueReply::Closest(_) => panic!("value expected"),
    }
    match node.handle_find_value_at(&[8u8; 32], Timestamp::from_secs(200)) {
        FindValueReply::ValueFound(_) => panic!("no value expected"),
        FindValueReply::Closest(peers) => assert!(peers.is_empty()),
    }
}

#[test]
fn test_dht_start_lookup() {
    let mut node = DhtNode::new(NodeId::from_bytes([0u8; 32]), 10);
    let peers: Vec<FoundPeer> = (0..4)
        .map(|_| {
            let (node_id, public_key) = peer();
            FoundPeer { node_id, public_key, addresses: vec![] }
        })
        .collect();
    node.handle_nodes_found_at(peers[0].node_id, NodeId::from_bytes([1u8; 32]), peers, Timestamp::from_secs(10));
    let target = NodeId::from_bytes([7u8; 32]);
    assert_eq!(node.start_lookup(target), target);
    assert!(node.lookups.get_lookup(&target).is_some());
    assert!(node.finish_lookup(&target).is_none());
    assert!(node.lookups.get_lookup(&target).is_none());
}

#[test]
fn test_dht_maintenance() {
    let mut node = DhtNode::new(NodeId::from_bytes([0u8; 32]), 10);
    node.lookups.start_lookup(NodeId::from_bytes([5u8; 32]), vec![]);
    let actions = node.maintenance_at(Timestamp::now());
    assert_eq!(actions.removed_stale, 0);
    assert_eq!(actions.completed_lookups, 1);
    let later = node.maintenance_at(Timestamp::from_secs(Timestamp::now().as_secs() + 4000));
    assert_eq!(later.buckets_to_refresh.len(), 256);
    for (index, id) in later.buckets_to_refresh.iter() {
        assert_eq!(node.routing_table.bucket_index(id), *index);
    }
}

#[test]
fn dispatcher_answers_requests_and_drops_the_rest() {
    let mut d = MessageDispatcher::new(DhtNode::new(NodeId::from_bytes([0u8; 32]), 10));
    let from = NodeId::from_bytes([1u8; 32]);
    let now = Timestamp::from_secs(50);
    match d.dispatch_at(from, MessagePayload::Ping(PingMessage { nonce: 9 }), now) {
        Some(MessagePayload::Pong(p)) => assert_eq!(p.nonce, 9),
        _ => panic!("pong expected"),
    }
    assert!(d.dispatch_at(from, MessagePayload::Pong(PongMessage { nonce: 1 }), now).is_none());
    match d.dispatch_at(from, MessagePayload::FindNode(FindNodeMessage { target: from, count: 5 }), now) {
        Some(MessagePayload::NodesFound(n)) => assert!(n.nodes.is_empty()),
        _ => panic!("nodes expected"),
    }
    let ephemeral = EphemeralKeyPair::generate();
    let create = anonnet::messages::CreateCircuitMessage {
        circuit_id: anonnet::messages::CircuitId(5),
        next_hop: None,
        encrypted_payload: Some(ephemeral.public_key_bytes().to_vec()),
    };
    match d.dispatch_at(from, MessagePayload::CreateCircuit(create), now) {
        Some(MessagePayload::CircuitCreated(c)) => assert!(c.success),
        _ => panic!("circuit created expected"),
    }
    assert_eq!(d.relay_hops.len(), 1);
}

#[test]
fn test_ensure_circuits() {
    let table = table_with(6);
    let mut manager = CircuitManager::with_capacity(4);
    let now = Timestamp::now();
    let created = manager.ensure_circuits_at(&table, CircuitPurpose::General, 3, now);
    assert_eq!(created, 3);
    assert_eq!(manager.circuit_count(), 3);
    assert_eq!(manager.ready_count_at(CircuitPurpose::General, now), 0);
    let more = manager.ensure_circuits_at(&table, CircuitPurpose::General, 10, now);
    assert_eq!(more, 1);
}

#[test]
fn exit_and_entry_selection() {
    let table = table_with(5);
    let none: Vec<NodeId> = vec![];
    // Fresh peers have reputation 100: too low for an exit or an entry guard.
    assert_eq!(PathSelector::select_exit_node(&table, &none), Err(PathSelectionError::NoSuitableExit));
    assert_eq!(PathSelector::select_entry_guard(&table, &none), Err(PathSelectionError::NoSuitableEntry));
}

#[test]
fn test_keypair_generate_with_pow() {
    let (keypair, pow) = KeyPair::generate_with_pow(4);
    let node_id = NodeId::from_public_key(&keypair.public_key());
    assert_eq!(pow.difficulty, 4);
    assert!(pow.verify(node_id.as_bytes()));
}

fn id_of(b: u8) -> NodeId {
    NodeId::from_bytes([b; 32])
}

#[test]
fn choose_path_follows_flips_and_draws() {
    let (a, b, c, d) = (id_of(1), id_of(2), id_of(3), id_of(4));
    let (path, reduced) = PathSelector::choose_path(&vec![a, b], &vec![c], &vec![d], 3, &vec![true, false, true], &vec![1, 0, 5]);
    assert_eq!(path, vec![b, c, a]);
    assert!(!reduced);
}

#[test]
fn choose_path_falls_back_to_low_tier() {
    let (a, d, e) = (id_of(1), id_of(4), id_of(5));
    let (path, reduced) = PathSelector::choose_path(&vec![a], &vec![], &vec![d, e], 3, &vec![false, false, false], &vec![0, 1, 0]);
    assert_eq!(path, vec![a, e, d]);
    assert!(reduced);
}

#[test]
fn choose_path_middle_hop_takes_high_on_heads() {
    let (a, b, c) = (id_of(1), id_of(2), id_of(3));
    let (path, reduced) = PathSelector::choose_path(&vec![a, b], &vec![c], &vec![], 3, &vec![false, true, false], &vec![0, 0, 0]);
    assert_eq!(path, vec![a, b, c]);
    assert!(!reduced);
}

#[test]
fn selected_path_of_medium_peers_is_not_reduced() {
    let table = table_with(5);
    let criteria = PathSelectionCriteria::new().with_min_reputation(anonnet::types::Reputation::new(0));
    let chosen = PathSelector::select_path_with_trust_at(&table, &criteria, Timestamp::now()).unwrap();
    assert_eq!(chosen.hops.len(), 3);
    assert!(!chosen.reduced_trust);
}

#[test]
fn candidates_are_distinct_eligible_peers() {
    let table = table_with(4);
    let criteria = PathSelectionCriteria::new();
    let cands = PathSelector::candidates_at(&table, &criteria, Timestamp::now());
    assert_eq!(cands.len(), 4);
    let strict = PathSelectionCriteria::new().with_min_reputation(anonnet::types::Reputation::new(101));
    assert_eq!(PathSelector::candidates_at(&table, &strict, Timestamp::now()).len(), 0);
}

#[test]
fn extend_cell_round_trips_through_the_exit() {
    let next = id_of(9);
    let request = anonnet::messages::CreateCircuitMessage {
        circuit_id: anonnet::messages::CircuitId(5),
        next_hop: Some(next),
        encrypted_payload: Some(vec![7u8; 32]),
    };
    let cell = extend_cell(&request).unwrap();
    assert_eq!(cell.payload.len(), 64);
    assert_eq!(&cell.payload[..32], &[9u8; 32][..]);
    let back = request_from_extend(anonnet::messages::CircuitId(5), &cell).unwrap();
    assert_eq!(back.next_hop, Some(next));
    assert_eq!(back.encrypted_payload, Some(vec![7u8; 32]));
    let direct = anonnet::messages::CreateCircuitMessage { next_hop: None, ..request };
    assert!(extend_cell(&direct).is_none());
}

#[test]
fn create_circuit_at_refuses_exactly_when_it_must() {
    let table = table_with(5);
    let now = Timestamp::now();
    let mut manager = CircuitManager::with_capacity(2);
    let criteria = PathSelectionCriteria::new();
    let (id, path) = manager.create_circuit_at(&table, CircuitPurpose::General, &criteria, now, CircuitId(10)).unwrap();
    assert_eq!(id, CircuitId(10));
    assert_eq!(path.len(), 3);
    let fresh = manager.get_circuit(&CircuitId(10)).unwrap();
    assert_eq!(fresh.state, CircuitState::Building);
    assert_eq!(fresh.created_at, now);
    // The id is taken.
    assert!(manager.create_circuit_at(&table, CircuitPurpose::General, &criteria, now, CircuitId(10)).is_err());
    // Too few eligible peers for the length.
    let long = PathSelectionCriteria::new().with_circuit_length(6);
    assert!(manager.create_circuit_at(&table, CircuitPurpose::General, &long, now, CircuitId(11)).is_err());
    // A zero length.
    let empty = PathSelectionCriteria { circuit_length: 0, ..PathSelectionCriteria::new() };
    assert!(manager.create_circuit_at(&table, CircuitPurpose::General, &empty, now, CircuitId(12)).is_err());
    assert_eq!(manager.circuit_count(), 1);
    manager.create_circuit_at(&table, CircuitPurpose::General, &criteria, now, CircuitId(13)).unwrap();
    // At the cap.
    assert!(manager.create_circuit_at(&table, CircuitPurpose::General, &criteria, now, CircuitId(14)).is_err());
    assert_eq!(manager.circuit_count(), 2);
}

#[test]
fn ensure_circuits_stops_at_the_cap() {
    let table = table_with(5);
    let now = Timestamp::now();
    let mut manager = CircuitManager::with_capacity(3);
    assert_eq!(manager.ensure_circuits_at(&table, CircuitPurpose::General, 5, now), 3);
    assert_eq!(manager.circuit_count(), 3);
    assert_eq!(manager.ready_count_at(CircuitPurpose::General, now), 0);
    let mut other = CircuitManager::new();
    assert_eq!(other.ensure_circuits_at(&table_with(2), CircuitPurpose::General, 2, now), 0);
    assert_eq!(other.ensure_circuits_at(&table, CircuitPurpose::General, 0, now), 0);
}

#[test]
fn refresh_ids_fall_in_their_buckets() {
    let table = table_with(3);
    for index in [0usize, 1, 7, 8, 100, 255] {
        let id = table.random_id_for_bucket(index);
        assert_eq!(table.bucket_index(&id), index);
    }
}

#[test]
fn finishing_a_lookup_reports_only_completed_ones() {
    let mut node = DhtNode::new(NodeId::from_bytes([0u8; 32]), 10);
    let target = id_of(4);
    node.start_lookup(target);
    // With an empty table the lookup has no seeds and is complete at once.
    assert_eq!(node.finish_lookup(&target), Some(vec![]));
    assert_eq!(node.finish_lookup(&target), None);
}

#[test]
fn relay_data_loses_one_layer_at_the_hop() {
    let mut d = MessageDispatcher::new(DhtNode::new(NodeId::from_bytes([0u8; 32]), 10));
    let circuit = anonnet::messages::CircuitId(42);
    let ours = EphemeralKeyPair::generate();
    let request = anonnet::messages::CreateCircuitMessage {
        circuit_id: circuit,
        next_hop: None,
        encrypted_payload: Some(ours.public_key_bytes().to_vec()),
    };
    let reply = match d.dispatch_at(id_of(1), MessagePayload::CreateCircuit(request), Timestamp::from_secs(0)) {
        Some(MessagePayload::CircuitCreated(r)) => r,
        _ => panic!("no CircuitCreated"),
    };
    assert!(reply.success);
    assert_eq!(d.relay_hops.len(), 1);
    let shared = ours.diffie_hellman(&reply.public_key.unwrap());
    let (mut forward, _) = anonnet::builder::derive_hop_layers(&shared);
    let sealed = forward.encrypt(b"onward").unwrap();
    let data = anonnet::messages::RelayDataMessage { circuit_id: circuit, payload: sealed, sequence: 3 };
    match d.dispatch_at(id_of(1), MessagePayload::RelayData(data), Timestamp::from_secs(0)) {
        Some(MessagePayload::RelayData(out)) => {
            assert_eq!(out.payload, b"onward".to_vec());
            assert_eq!(out.sequence, 3);
            assert_eq!(out.circuit_id, circuit);
        },
        _ => panic!("relay data was not passed on"),
    }
    let stranger = anonnet::messages::RelayDataMessage { circuit_id: anonnet::messages::CircuitId(43), payload: vec![1, 2, 3], sequence: 0 };
    assert!(d.dispatch_at(id_of(1), MessagePayload::RelayData(stranger), Timestamp::from_secs(0)).is_none());
}
