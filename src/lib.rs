//! Core of an onion-routing overlay: node identities, Kademlia routing,
//! per-hop layer state, circuits, relay cells and hidden-service records.

pub mod config;
pub mod error;
pub mod types;
pub mod common;
pub mod node_info;
pub mod stats;
pub mod services;
pub mod responses;

pub mod encoding;
pub mod random;
pub mod keys;
pub mod identity;
pub mod node_id;
pub mod pow;
pub mod handshake;

pub mod crypto;
pub mod circuit;
pub mod builder;
pub mod manager;
pub mod pool;
pub mod path_selection;
pub mod relay;
pub mod cell_codec;
pub mod flow;
pub mod transaction;

pub mod closest;
pub mod kbucket;
pub mod routing_table;
pub mod lookup;
pub mod storage;
pub mod dht_node;

pub mod address;
pub mod descriptor;
pub mod rendezvous;

pub mod messages;
pub mod framing;
pub mod dispatcher;
pub mod rate_limit;
pub mod directory;
