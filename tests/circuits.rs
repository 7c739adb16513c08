use anonnet::circuit::{Circuit, CircuitId, CircuitNode, CircuitPurpose, CircuitState, RelayCell, RelayCellType};
use anonnet::config::MIN_CIRCUIT_LENGTH;
use anonnet::crypto::{CryptoError, LayerCrypto, NonceCounter, OnionCrypto};
use anonnet::keys::KeyPair;
use anonnet::node_id::NodeId;
use anonnet::relay::{RelayAction, RelayError, RelayHandler, MAX_CELL_PAYLOAD};

fn hop(seed: u8) -> CircuitNode {
    let keypair = KeyPair::from_seed(&[seed; 32]);
    let node_id = NodeId::from_public_key(&keypair.public_key());
    let (fwd, bwd) = OnionCrypto::derive_bidirectional_keys_with_bases(&[seed; 32], [1; 12], [2; 12]);
    CircuitNode::new(node_id, keypair.public_key(), fwd, bwd)
}

#[test]
fn test_nonce_counter_uniqueness() {
    let mut counter = NonceCounter::new();
    let nonce1 = counter.next_nonce();
    let nonce2 = counter.next_nonce();
    let nonce3 = counter.next_nonce();
    assert_ne!(nonce1, nonce2);
    assert_ne!(nonce2, nonce3);
    assert_ne!(nonce1, nonce3);
    assert_eq!(counter.counter(), 3);
}

#[test]
fn test_nonce_reuse_prevention() {
    let mut counter1 = NonceCounter::from_base([0; 12]);
    let mut counter2 = NonceCounter::from_base([0; 12]);
    let nonce1 = counter1.next_nonce();
    let nonce2 = counter1.next_nonce();
    let nonce3 = counter2.next_nonce();
    assert_ne!(nonce1, nonce2);
    assert_eq!(nonce1, nonce3);
}

#[test]
fn nonce_xors_counter_into_last_eight_bytes() {
    let mut counter = NonceCounter::resume([0; 12], 0x0102);
    let nonce = counter.next_nonce().unwrap();
    assert_eq!(nonce, [0, 0, 0, 0, 0x02, 0x01, 0, 0, 0, 0, 0, 0]);
    assert_eq!(counter.counter(), 0x0103);
}

#[test]
fn nonce_wrap_is_refused() {
    let mut counter = NonceCounter::resume([9; 12], u64::MAX);
    assert_eq!(counter.next_nonce(), Err(CryptoError::NonceCounterExhausted));
    assert_eq!(counter.counter(), u64::MAX);
}

#[test]
fn nonce_wrap_fails_the_circuit() {
    let mut layer = LayerCrypto::resume([5; 32], [0; 12], u64::MAX);
    let r = layer.encrypt(b"cell");
    assert_eq!(r, Err(CryptoError::NonceCounterExhausted));
    assert_eq!(layer.counter(), u64::MAX);
    let mut circuit = Circuit::new(CircuitId(7), CircuitPurpose::General);
    circuit.add_node(hop(1)).unwrap();
    if r.is_err() {
        circuit.mark_failed();
    }
    assert_eq!(circuit.state, CircuitState::Failed);
    assert!(!circuit.is_ready());
    let fresh = Circuit::new(CircuitId(8), CircuitPurpose::General);
    assert_eq!(fresh.state, CircuitState::Building);
}

#[test]
fn test_layer_crypto_roundtrip() {
    let mut sender = LayerCrypto::from_parts([3; 32], [4; 12]);
    let mut receiver = LayerCrypto::from_parts([3; 32], [4; 12]);
    let plaintext = b"Hello, AnonNet!";
    let ciphertext = sender.encrypt(plaintext).unwrap();
    assert_ne!(ciphertext.as_slice(), &plaintext[..]);
    let decrypted = receiver.decrypt(&ciphertext).unwrap();
    assert_eq!(&plaintext[..], decrypted.as_slice());
    assert_eq!(sender.counter(), 1);
    assert_eq!(receiver.counter(), 1);
}

#[test]
fn decrypt_with_the_wrong_key_fails() {
    let mut sender = LayerCrypto::from_parts([3; 32], [4; 12]);
    let mut other = LayerCrypto::from_parts([5; 32], [4; 12]);
    let ciphertext = sender.encrypt(b"data").unwrap();
    assert_eq!(other.decrypt(&ciphertext), Err(CryptoError::DecryptionFailed));
}

#[test]
fn test_bidirectional_keys() {
    let (mut f1, mut b1) = OnionCrypto::derive_bidirectional_keys_with_bases(&[8; 32], [1; 12], [2; 12]);
    let (mut f2, mut b2) = OnionCrypto::derive_bidirectional_keys_with_bases(&[8; 32], [1; 12], [2; 12]);
    let c = f1.encrypt(b"forward").unwrap();
    assert_eq!(f2.decrypt(&c).unwrap(), b"forward".to_vec());
    let d = b1.encrypt(b"backward").unwrap();
    assert_eq!(b2.decrypt(&d).unwrap(), b"backward".to_vec());
    let (mut f3, _) = OnionCrypto::derive_bidirectional_keys_with_bases(&[8; 32], [1; 12], [2; 12]);
    let (_, mut b3) = OnionCrypto::derive_bidirectional_keys_with_bases(&[8; 32], [1; 12], [1; 12]);
    let e = f3.encrypt(b"x").unwrap();
    assert!(b3.decrypt(&e).is_err());
}

#[test]
fn test_multi_layer_onion() {
    let mut client: Vec<LayerCrypto> = (1..=3).map(|i| LayerCrypto::from_parts([i; 32], [i; 12])).collect();
    let mut relays: Vec<LayerCrypto> = (1..=3).map(|i| LayerCrypto::from_parts([i; 32], [i; 12])).collect();
    let plaintext = b"Secret message through AnonNet";
    let onion = OnionCrypto::encrypt_onion(&mut client, plaintext).unwrap();
    let mut data = onion;
    for layer in relays.iter_mut() {
        data = OnionCrypto::decrypt_layer(layer, &data).unwrap();
    }
    assert_eq!(data, plaintext.to_vec());
    for layer in client.iter().chain(relays.iter()) {
        assert_eq!(layer.counter(), 1);
    }
}

#[test]
fn three_hop_onion_round_trip() {
    // Originator and the three relays hold matching layer pairs.
    let mut fwd_origin: Vec<LayerCrypto> = (1..=3).map(|i| LayerCrypto::from_parts([i; 32], [i; 12])).collect();
    let mut fwd_relay: Vec<LayerCrypto> = (1..=3).map(|i| LayerCrypto::from_parts([i; 32], [i; 12])).collect();
    let mut bwd_origin: Vec<LayerCrypto> = (1..=3).map(|i| LayerCrypto::from_parts([i + 10; 32], [i; 12])).collect();
    let mut bwd_relay: Vec<LayerCrypto> = (1..=3).map(|i| LayerCrypto::from_parts([i + 10; 32], [i; 12])).collect();

    let cell = RelayHandler::create_data_cell(1, b"hello anonnet".to_vec(), 0);
    assert_eq!(cell.payload.len(), 13);
    let onion = OnionCrypto::encrypt_onion(&mut fwd_origin, &cell.payload).unwrap();
    let mut data = onion;
    for layer in fwd_relay.iter_mut() {
        data = layer.decrypt(&data).unwrap();
    }
    assert_eq!(data, b"hello anonnet".to_vec());

    // The exit answers; each relay adds its backward layer on the way back.
    let mut reply = b"ack".to_vec();
    for layer in bwd_relay.iter_mut().rev() {
        reply = layer.encrypt(&reply).unwrap();
    }
    for layer in bwd_origin.iter_mut() {
        reply = layer.decrypt(&reply).unwrap();
    }
    assert_eq!(reply, b"ack".to_vec());
    for layer in fwd_origin.iter().chain(fwd_relay.iter()).chain(bwd_origin.iter()).chain(bwd_relay.iter()) {
        assert_eq!(layer.counter(), 1);
    }
}

#[test]
fn test_circuit_creation() {
    let id = CircuitId::generate();
    let circuit = Circuit::new(id, CircuitPurpose::General);
    assert_eq!(circuit.id, id);
    assert_eq!(circuit.state, CircuitState::Building);
    assert_eq!(circuit.length(), 0);
    assert!(!circuit.is_complete());
}

#[test]
fn circuit_ready_at_min_length() {
    let mut circuit = Circuit::new(CircuitId(1), CircuitPurpose::General);
    assert_eq!(circuit.length(), MIN_CIRCUIT_LENGTH - 1);
    assert_eq!(circuit.state, CircuitState::Building);
    for i in 0..MIN_CIRCUIT_LENGTH {
        circuit.add_node(hop(i as u8 + 1)).unwrap();
    }
    assert!(circuit.is_complete());
    assert_eq!(circuit.state, CircuitState::Ready);
    assert!(circuit.is_ready());
}

#[test]
fn test_circuit_entry_exit() {
    let mut circuit = Circuit::new(CircuitId(2), CircuitPurpose::General);
    let ids: Vec<NodeId> = (1..=3).map(|i| hop(i).node_id).collect();
    for i in 1..=3 {
        circuit.add_node(hop(i)).unwrap();
    }
    assert_eq!(circuit.entry_node().unwrap().node_id, ids[0]);
    assert_eq!(circuit.exit_node().unwrap().node_id, ids[2]);
}

#[test]
fn circuit_refuses_a_repeated_hop() {
    let mut circuit = Circuit::new(CircuitId(3), CircuitPurpose::General);
    circuit.add_node(hop(1)).unwrap();
    assert!(circuit.add_node(hop(1)).is_err());
    assert_eq!(circuit.length(), 1);
}

#[test]
fn circuit_state_moves_toward_closed() {
    let mut circuit = Circuit::new(CircuitId(4), CircuitPurpose::Rendezvous);
    circuit.mark_closing();
    assert_eq!(circuit.state, CircuitState::Closing);
    circuit.mark_closed();
    circuit.mark_failed();
    assert_eq!(circuit.state, CircuitState::Closed);
}

#[test]
fn circuit_expiry_and_truncation() {
    let mut circuit = Circuit::new_at(CircuitId(5), CircuitPurpose::General, anonnet::types::Timestamp::from_secs(1000));
    assert!(!circuit.is_expired_at(anonnet::types::Timestamp::from_secs(1600)));
    assert!(circuit.is_expired_at(anonnet::types::Timestamp::from_secs(1601)));
    for i in 1..=3 {
        circuit.add_node(hop(i)).unwrap();
    }
    circuit.truncate_after(0);
    assert_eq!(circuit.length(), 1);
    circuit.add_sent(10);
    circuit.add_received(5);
    assert_eq!(circuit.bytes_sent, 10);
    assert_eq!(circuit.bytes_received, 5);
}

#[test]
fn test_relay_cell_digest() {
    let mut cell = RelayCell::new(RelayCellType::Data, 1, vec![1, 2, 3, 4, 5]);
    cell.set_digest();
    assert!(cell.verify_digest());
    cell.payload.push(6);
    assert!(!cell.verify_digest());
}

#[test]
fn test_create_data_cell() {
    let cell = RelayHandler::create_data_cell(1, vec![1, 2, 3], 0);
    assert_eq!(cell.cell_type, RelayCellType::Data);
    assert_eq!(cell.stream_id, 1);
    assert_eq!(cell.payload, vec![1, 2, 3]);
    assert!(cell.verify_digest());
}

#[test]
fn begin_and_end_cells() {
    let begin = RelayHandler::create_begin_cell(4, b"svc".to_vec());
    assert_eq!(begin.cell_type, RelayCellType::Begin);
    assert!(begin.verify_digest());
    let end = RelayHandler::create_end_cell(4, 2);
    assert_eq!(end.payload, vec![2]);
    assert!(end.verify_digest());
}

#[test]
fn test_process_data_cell() {
    let mut circuit = Circuit::new(CircuitId(9), CircuitPurpose::General);
    for i in 1..=3 {
        circuit.add_node(hop(i)).unwrap();
    }
    let cell = RelayHandler::create_data_cell(1, vec![1, 2, 3, 4, 5], 0);
    match RelayHandler::process_cell(&mut circuit, cell, 0) {
        Ok(RelayAction::Forward { next_hop, .. }) => assert_eq!(next_hop, 1),
        other => panic!("unexpected {:?}", other),
    }
    assert_eq!(circuit.bytes_received, 5);
    let mut bad = RelayHandler::create_data_cell(1, vec![1], 0);
    bad.payload.push(9);
    assert!(matches!(RelayHandler::process_cell(&mut circuit, bad, 0), Err(RelayError::InvalidDigest)));
    let far = RelayHandler::create_data_cell(1, vec![1], 0);
    assert!(matches!(RelayHandler::process_cell(&mut circuit, far, 3), Err(RelayError::InvalidPosition)));
    let mut extend = RelayCell::new(RelayCellType::Extend, 1, vec![]);
    extend.set_digest();
    assert!(matches!(RelayHandler::process_cell(&mut circuit, extend.clone(), 1), Err(RelayError::InvalidExtend)));
    assert!(matches!(RelayHandler::process_cell(&mut circuit, extend, 2), Ok(RelayAction::ExtendCircuit { .. })));
}

#[test]
fn test_forward_cell() {
    let mut circuit = Circuit::new(CircuitId(10), CircuitPurpose::General);
    for i in 1..=3 {
        circuit.add_node(hop(i)).unwrap();
    }
    let cell = RelayHandler::create_data_cell(1, vec![1], 0);
    assert_eq!(RelayHandler::forward_cell(&circuit, &cell, 0).unwrap(), Some(hop(2).node_id));
    assert_eq!(RelayHandler::forward_cell(&circuit, &cell, 2).unwrap(), None);
}

#[test]
fn long_data_is_split_into_cells() {
    let data: Vec<u8> = (0..1000u32).map(|i| i as u8).collect();
    let cells = RelayHandler::split_into_cells(3, &data, 10);
    assert_eq!(cells.len(), 3);
    assert_eq!(cells[0].payload.len(), MAX_CELL_PAYLOAD);
    assert_eq!(cells[2].payload.len(), 1000 - 2 * MAX_CELL_PAYLOAD);
    assert_eq!(cells[2].sequence, 12);
    let joined: Vec<u8> = cells.iter().flat_map(|c| c.payload.clone()).collect();
    assert_eq!(joined, data);
    assert!(cells.iter().all(|c| c.verify_digest()));
}

#[test]
fn relay_cell_wire_round_trip() {
    let cell = RelayHandler::create_data_cell(0x0102, b"payload".to_vec(), 0x0a0b0c0d);
    let bytes = cell.to_bytes();
    assert_eq!(&bytes[..11], &[1, 0x01, 0x02, 0x0a, 0x0b, 0x0c, 0x0d, 7, 0, 0, 0]);
    let back = RelayCell::from_bytes(&bytes).unwrap();
    assert_eq!(back.cell_type, RelayCellType::Data);
    assert_eq!(back.stream_id, 0x0102);
    assert_eq!(back.sequence, 0x0a0b0c0d);
    assert_eq!(back.payload, b"payload".to_vec());
    assert!(back.verify_digest());
    assert!(RelayCell::from_bytes(&bytes[..bytes.len() - 1]).is_none());
    let mut bad = bytes.clone();
    bad[0] = 42;
    assert!(RelayCell::from_bytes(&bad).is_none());
}

#[test]
fn test_process_cell_through_onion() {
    let mut client: Vec<LayerCrypto> = (1..=3).map(|i| LayerCrypto::from_parts([i; 32], [i; 12])).collect();
    let mut relays: Vec<LayerCrypto> = (1..=3).map(|i| LayerCrypto::from_parts([i; 32], [i; 12])).collect();
    let cell = RelayHandler::create_data_cell(1, b"hello anonnet".to_vec(), 0);
    let onion = OnionCrypto::encrypt_cell_for_circuit(&mut client, &cell).unwrap();
    let mut data = onion;
    for layer in relays.iter_mut().take(2) {
        data = OnionCrypto::decrypt_layer(layer, &data).unwrap();
    }
    let exit_cell = OnionCrypto::decrypt_cell_at_hop(&mut relays[2], &data).unwrap();
    assert_eq!(exit_cell.payload, b"hello anonnet".to_vec());
    assert!(exit_cell.verify_digest());
}

#[test]
fn test_forward_at_exit() {
    let mut circuit = Circuit::new(CircuitId(11), CircuitPurpose::General);
    for i in 1..=3 {
        circuit.add_node(hop(i)).unwrap();
    }
    let cell = RelayHandler::create_data_cell(1, vec![1, 2, 3], 0);
    assert_eq!(RelayHandler::forward_cell(&circuit, &cell, 2).unwrap(), None);
    assert_eq!(RelayHandler::forward_cell(&circuit, &cell, 7).unwrap(), None);
}
