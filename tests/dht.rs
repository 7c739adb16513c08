use anonnet::kbucket::KBucket;
use anonnet::keys::{KeyPair, PublicKey};
use anonnet::lookup::{find_closest_nodes, LookupManager, NodeLookup};
use anonnet::node_id::NodeId;
use anonnet::routing_table::{InsertError, InsertResult, RoutingTable};
use anonnet::storage::{DHTStorage, StorageError, StoredValue, MAX_VALUES_PER_KEY};
use anonnet::types::{NetworkAddress, Timestamp};

fn create_test_node() -> (NodeId, PublicKey, Vec<NetworkAddress>) {
    let keypair = KeyPair::generate();
    let node_id = NodeId::from_public_key(&keypair.public_key());
    (node_id, keypair.public_key(), vec![NetworkAddress::from_ip(vec![127, 0, 0, 1], 8080)])
}

fn random_id() -> NodeId {
    create_test_node().0
}

#[test]
fn test_kbucket_insert() {
    let mut bucket = KBucket::new(3);
    let (node_id, public_key, addresses) = create_test_node();
    assert!(bucket.insert(node_id, public_key, addresses).is_ok());
    assert_eq!(bucket.len(), 1);
}

#[test]
fn test_kbucket_full() {
    let mut bucket = KBucket::new(2);
    let mut first = None;
    for _ in 0..2 {
        let (node_id, public_key, addresses) = create_test_node();
        first.get_or_insert(node_id);
        bucket.insert(node_id, public_key, addresses).unwrap();
    }
    assert!(bucket.is_full());
    let (node_id, public_key, addresses) = create_test_node();
    let result = bucket.insert(node_id, public_key, addresses);
    assert_eq!(result, Err(first.unwrap()));
    assert_eq!(bucket.len(), 2);
}

#[test]
fn test_kbucket_update_existing() {
    let mut bucket = KBucket::new(3);
    let (node_id, public_key, addresses) = create_test_node();
    bucket.insert(node_id, public_key, addresses.clone()).unwrap();
    let result = bucket.insert(node_id, public_key, addresses);
    assert_eq!(result, Ok(false));
    assert_eq!(bucket.len(), 1);
}

#[test]
fn test_kbucket_remove() {
    let mut bucket = KBucket::new(3);
    let (node_id, public_key, addresses) = create_test_node();
    bucket.insert(node_id, public_key, addresses).unwrap();
    assert!(bucket.remove(&node_id).is_some());
    assert_eq!(bucket.len(), 0);
}

#[test]
fn test_kbucket_lru_order() {
    let mut bucket = KBucket::new(3);
    let nodes: Vec<_> = (0..3).map(|_| create_test_node()).collect();
    for (node_id, public_key, addresses) in &nodes {
        bucket.insert(*node_id, *public_key, addresses.clone()).unwrap();
    }
    assert_eq!(bucket.least_recent().unwrap().node_id, nodes[0].0);
    assert_eq!(bucket.most_recent().unwrap().node_id, nodes[2].0);
    // Seeing the first again moves it to the most recent end.
    bucket.insert(nodes[0].0, nodes[0].1, nodes[0].2.clone()).unwrap();
    assert_eq!(bucket.most_recent().unwrap().node_id, nodes[0].0);
    assert_eq!(bucket.least_recent().unwrap().node_id, nodes[1].0);
    assert_eq!(bucket.len(), 3);
}

#[test]
fn stale_and_dead_entries_are_swept() {
    let mut bucket = KBucket::new_at(4, Timestamp::from_secs(0));
    let a = create_test_node();
    let b = create_test_node();
    bucket.insert_at(a.0, a.1, a.2.clone(), Timestamp::from_secs(0)).unwrap();
    bucket.insert_at(b.0, b.1, b.2.clone(), Timestamp::from_secs(5000)).unwrap();
    let removed = bucket.remove_stale_at(Timestamp::from_secs(7201));
    assert_eq!(removed.len(), 1);
    assert_eq!(removed[0].node_id, a.0);
    assert_eq!(bucket.len(), 1);
    assert!(bucket.needs_refresh_at(Timestamp::from_secs(3601)));
    assert!(!bucket.needs_refresh_at(Timestamp::from_secs(3600)));
}

#[test]
fn test_routing_table_create() {
    let local_id = random_id();
    let table = RoutingTable::new(local_id);
    assert_eq!(table.node_count(), 0);
    assert_eq!(table.local_id(), local_id);
}

#[test]
fn test_routing_table_insert() {
    let mut table = RoutingTable::new(random_id());
    let (node_id, public_key, addresses) = create_test_node();
    assert_eq!(table.insert(node_id, public_key, addresses), Ok(InsertResult::Inserted));
    assert_eq!(table.node_count(), 1);
}

#[test]
fn test_routing_table_no_self_insert() {
    let keypair = KeyPair::generate();
    let local_id = NodeId::from_public_key(&keypair.public_key());
    let mut table = RoutingTable::new(local_id);
    let result = table.insert(local_id, keypair.public_key(), vec![NetworkAddress::from_ip(vec![127, 0, 0, 1], 8080)]);
    assert!(matches!(result, Err(InsertError::SelfInsert)));
}

#[test]
fn test_routing_table_find() {
    let mut table = RoutingTable::new(random_id());
    let (node_id, public_key, addresses) = create_test_node();
    table.insert(node_id, public_key, addresses).unwrap();
    let found = table.find_node(&node_id);
    assert_eq!(found.unwrap().node_id, node_id);
}

#[test]
fn test_routing_table_closest_nodes() {
    let mut table = RoutingTable::new(random_id());
    let mut all = Vec::new();
    for _ in 0..10 {
        let (node_id, public_key, addresses) = create_test_node();
        table.insert(node_id, public_key, addresses).ok();
        all.push(node_id);
    }
    let target = random_id();
    let closest = table.closest_nodes(&target, 5);
    assert_eq!(closest.len(), 5);
    assert!(closest.len() <= table.node_count());
    let mut sorted = all.clone();
    sorted.sort_by_key(|id| id.distance(&target));
    let got: Vec<NodeId> = closest.iter().map(|e| e.node_id).collect();
    assert_eq!(got, sorted[..5].to_vec());
    assert_eq!(find_closest_nodes(&table, &target, 3), sorted[..3].to_vec());
}

#[test]
fn test_routing_table_remove() {
    let mut table = RoutingTable::new(random_id());
    let (node_id, public_key, addresses) = create_test_node();
    table.insert(node_id, public_key, addresses).unwrap();
    assert!(table.remove(&node_id).is_some());
    assert_eq!(table.node_count(), 0);
}

#[test]
fn test_routing_table_stats() {
    let mut table = RoutingTable::new(random_id());
    for _ in 0..5 {
        let (node_id, public_key, addresses) = create_test_node();
        table.insert(node_id, public_key, addresses).ok();
    }
    let stats = table.stats();
    assert_eq!(stats.total_nodes, table.node_count());
    assert!(stats.non_empty_buckets > 0);
    assert_eq!(stats.bucket_capacity, anonnet::config::K_BUCKET_SIZE);
}

#[test]
fn test_invalid_node_id_rejected() {
    let mut table = RoutingTable::new(random_id());
    let node_id1 = random_id();
    let public_key2 = KeyPair::generate().public_key();
    let result = table.insert(node_id1, public_key2, vec![NetworkAddress::from_ip(vec![127, 0, 0, 1], 8080)]);
    assert!(matches!(result, Err(InsertError::InvalidNodeId)));
    assert_eq!(table.node_count(), 0);
}

#[test]
fn test_valid_node_id_accepted() {
    let mut table = RoutingTable::new(random_id());
    let (node_id, public_key, addresses) = create_test_node();
    assert!(table.insert(node_id, public_key, addresses).is_ok());
    assert_eq!(table.node_count(), 1);
}

#[test]
fn reinserting_a_peer_keeps_the_bucket_size() {
    let mut table = RoutingTable::new(random_id());
    let (node_id, public_key, addresses) = create_test_node();
    assert_eq!(table.insert(node_id, public_key, addresses.clone()), Ok(InsertResult::Inserted));
    assert_eq!(table.insert(node_id, public_key, addresses), Ok(InsertResult::Updated));
    assert_eq!(table.node_count(), 1);
}

#[test]
fn full_bucket_names_its_least_recent_peer() {
    let local = NodeId::from_bytes([0u8; 32]);
    let mut table = RoutingTable::with_capacity(local, 2);
    // Peers with a set top bit all fall into bucket 0.
    let mut in_bucket = Vec::new();
    while in_bucket.len() < 3 {
        let node = create_test_node();
        if node.0.as_bytes()[0] & 0x80 != 0 {
            in_bucket.push(node);
        }
    }
    table.insert(in_bucket[0].0, in_bucket[0].1, in_bucket[0].2.clone()).unwrap();
    table.insert(in_bucket[1].0, in_bucket[1].1, in_bucket[1].2.clone()).unwrap();
    let result = table.insert(in_bucket[2].0, in_bucket[2].1, in_bucket[2].2.clone());
    assert_eq!(result, Err(InsertError::BucketFull { eviction_candidate: in_bucket[0].0 }));
    assert_eq!(table.bucket_index(&in_bucket[0].0), 0);
}

#[test]
fn handshake_sybil_gate_keeps_the_table_empty() {
    let mut table_b = RoutingTable::new(random_id());
    let own_key = KeyPair::generate().public_key();
    let other_key = KeyPair::generate().public_key();
    let claimed = NodeId::from_public_key(&other_key);
    let result = table_b.insert(claimed, own_key, vec![]);
    assert_eq!(result, Err(InsertError::InvalidNodeId));
    assert_eq!(table_b.node_count(), 0);
}

#[test]
fn test_node_lookup_create() {
    let target = random_id();
    let initial = vec![random_id(), random_id()];
    let lookup = NodeLookup::new(target, initial);
    assert_eq!(lookup.target(), target);
    assert!(!lookup.is_complete());
    assert_eq!(lookup.closest_nodes().len(), 0);
}

#[test]
fn test_node_lookup_next_queries() {
    let target = random_id();
    let initial = vec![random_id(), random_id(), random_id(), random_id()];
    let mut lookup = NodeLookup::new(target, initial.clone());
    let queries = lookup.next_queries();
    assert!(queries.len() <= anonnet::config::ALPHA);
    assert!(queries.len() > 0);
    // The closest seeds are asked first.
    let mut sorted = initial.clone();
    sorted.sort_by_key(|id| id.distance(&target));
    assert_eq!(queries, sorted[..3].to_vec());
}

#[test]
fn test_node_lookup_process_response() {
    let target = random_id();
    let initial = vec![random_id()];
    let mut lookup = NodeLookup::new(target, initial.clone());
    let from_node = initial[0];
    let discovered = vec![random_id(), random_id()];
    lookup.process_response(from_node, discovered);
    assert!(lookup.next_queries().len() > 0);
}

#[test]
fn test_lookup_manager() {
    let mut manager = LookupManager::new();
    let target = random_id();
    manager.start_lookup(target, vec![random_id()]);
    assert!(manager.get_lookup(&target).is_some());
    assert_eq!(manager.active_lookups().count(), 1);
}

#[test]
fn test_lookup_manager_cleanup() {
    let mut manager = LookupManager::new();
    let target = random_id();
    manager.start_lookup(target, vec![]);
    let completed = manager.cleanup_completed();
    assert_eq!(completed.len(), 1);
    assert_eq!(manager.active_lookups().count(), 0);
}

#[test]
fn kademlia_lookup_converges_in_a_synthetic_network() {
    let nodes: Vec<(NodeId, PublicKey, Vec<NetworkAddress>)> = (0..100).map(|_| create_test_node()).collect();
    let tables: Vec<RoutingTable> = nodes
        .iter()
        .map(|(id, _, _)| {
            let mut table = RoutingTable::new(*id);
            for (other, key, addrs) in &nodes {
                table.insert(*other, *key, addrs.clone()).ok();
            }
            table
        })
        .collect();
    let target = random_id();
    let mut lookup = NodeLookup::new(target, vec![nodes[0].0]);
    let mut rounds = 0;
    while !lookup.is_complete() && rounds < 50 {
        rounds += 1;
        let queries = lookup.next_queries();
        if queries.is_empty() {
            break;
        }
        for q in queries {
            let index = nodes.iter().position(|(id, _, _)| *id == q).unwrap();
            let found = find_closest_nodes(&tables[index], &target, 20);
            lookup.process_response(q, found);
        }
    }
    let mut all: Vec<NodeId> = nodes.iter().map(|(id, _, _)| *id).collect();
    all.sort_by_key(|id| id.distance(&target));
    assert!(rounds <= 7 + 10, "took {} rounds", rounds);
    assert_eq!(lookup.closest_nodes()[0], all[0]);
}

#[test]
fn test_store_and_get() {
    let mut storage = DHTStorage::new(100);
    let publisher = random_id();
    let key = [1u8; 32];
    storage.store(key, StoredValue::new(b"test data".to_vec(), publisher)).unwrap();
    let retrieved = storage.get(&key).unwrap();
    assert_eq!(retrieved.len(), 1);
    assert_eq!(retrieved[0].data, b"test data");
}

#[test]
fn test_update_existing_value() {
    let mut storage = DHTStorage::new(100);
    let publisher = random_id();
    let key = [1u8; 32];
    storage.store(key, StoredValue::new(b"data 1".to_vec(), publisher)).unwrap();
    storage.store(key, StoredValue::new(b"data 2".to_vec(), publisher)).unwrap();
    let retrieved = storage.get(&key).unwrap();
    assert_eq!(retrieved.len(), 1);
    assert_eq!(retrieved[0].data, b"data 2");
}

#[test]
fn test_multiple_publishers() {
    let mut storage = DHTStorage::new(100);
    let key = [1u8; 32];
    storage.store(key, StoredValue::new(b"data 1".to_vec(), random_id())).unwrap();
    storage.store(key, StoredValue::new(b"data 2".to_vec(), random_id())).unwrap();
    assert_eq!(storage.get(&key).unwrap().len(), 2);
}

#[test]
fn test_storage_full() {
    let mut storage = DHTStorage::new(2);
    let publisher = random_id();
    storage.store([1u8; 32], StoredValue::new(b"data 1".to_vec(), publisher)).unwrap();
    storage.store([2u8; 32], StoredValue::new(b"data 2".to_vec(), publisher)).unwrap();
    let result = storage.store([3u8; 32], StoredValue::new(b"data 3".to_vec(), publisher));
    assert!(matches!(result, Err(StorageError::StorageFull)));
}

#[test]
fn storage_test_cleanup_expired() {
    let mut storage = DHTStorage::new(100);
    let key = [1u8; 32];
    let value = StoredValue::new_at(b"test".to_vec(), random_id(), Timestamp::from_secs(100)).with_ttl(0);
    storage.store(key, value).unwrap();
    let removed = storage.cleanup_expired_at(Timestamp::from_secs(101));
    assert_eq!(removed, 1);
    assert_eq!(storage.key_count(), 0);
}

#[test]
fn key_keeps_at_most_twenty_values_dropping_the_oldest() {
    let mut storage = DHTStorage::new(10);
    let key = [9u8; 32];
    for i in 0..(MAX_VALUES_PER_KEY as u64 + 1) {
        let v = StoredValue::new_at(vec![i as u8], random_id(), Timestamp::from_secs(1000 + i));
        storage.store(key, v).unwrap();
    }
    assert_eq!(storage.value_count(), MAX_VALUES_PER_KEY);
    let values = storage.get_at(&key, Timestamp::from_secs(1100)).unwrap();
    assert_eq!(values.len(), MAX_VALUES_PER_KEY);
    assert!(values.iter().all(|v| v.data != vec![0u8]));
    assert_eq!(storage.stats().total_keys, 1);
    assert_eq!(storage.remove(&key).unwrap().len(), MAX_VALUES_PER_KEY);
    assert!(storage.get(&key).is_none());
}

#[test]
fn next_queries_takes_the_closest_unasked() {
    let target = NodeId::from_bytes([0u8; 32]);
    let ids: Vec<NodeId> = (1u8..=5).map(|b| NodeId::from_bytes([b; 32])).collect();
    let mut lookup = NodeLookup::new(target, vec![ids[4], ids[2], ids[0], ids[3], ids[1]]);
    assert_eq!(lookup.next_queries(), vec![ids[0], ids[1], ids[2]]);
    assert_eq!(lookup.next_queries(), vec![ids[3], ids[4]]);
    assert_eq!(lookup.queried_nodes().len(), 5);
}

#[test]
fn cleanup_completed_keeps_running_lookups() {
    let mut manager = LookupManager::new();
    let done = NodeId::from_bytes([1u8; 32]);
    let running = NodeId::from_bytes([2u8; 32]);
    manager.start_lookup(done, vec![]);
    manager.start_lookup(running, vec![NodeId::from_bytes([3u8; 32])]);
    assert_eq!(manager.cleanup_completed(), vec![done]);
    assert!(manager.get_lookup(&done).is_none());
    assert!(manager.get_lookup(&running).is_some());
}

#[test]
fn restarting_a_lookup_resets_it() {
    let mut manager = LookupManager::new();
    let target = NodeId::from_bytes([1u8; 32]);
    manager.start_lookup(target, vec![NodeId::from_bytes([3u8; 32])]);
    manager.start_lookup(target, vec![NodeId::from_bytes([4u8; 32]), NodeId::from_bytes([5u8; 32])]);
    let lookup = manager.get_lookup(&target).unwrap();
    assert_eq!(lookup.pending_nodes().len(), 2);
    assert_eq!(lookup.queried_nodes().len(), 0);
    assert_eq!(manager.active_lookups().count(), 1);
}
