use vstd::prelude::*;
use crate::circuit::{CircuitId, CircuitPurpose, CircuitState};
use crate::node_id::NodeId;

verus! {

/// What a cleanup of the circuit manager removed.
#[derive(Debug, Clone, Copy, PartialEq, Eq, Structural, Default)]
pub struct CircuitCleanupStats {
    pub expired: usize,
    pub failed: usize,
    pub closed: usize,
    pub total_removed: usize,
}

#[derive(Debug, Clone, Copy, PartialEq, Eq, Structural)]
pub struct CircuitManagerStats {
    pub total_circuits: usize,
    pub building: usize,
    pub ready: usize,
    pub failed: usize,
    pub max_circuits: usize,
    pub total_bytes_sent: u64,
    pub total_bytes_received: u64,
}

/// Settings of the circuit pool; times in seconds.
#[derive(Debug, Clone, Copy, PartialEq, Eq, Structural)]
pub struct CircuitPoolConfig {
    pub target_pool_size: usize,
    pub max_circuit_age_secs: u64,
    pub min_idle_time_secs: u64,
    pub max_reuse_count: usize,
}

#[derive(Debug, Clone, Copy, PartialEq, Eq, Structural)]
pub struct PoolStats {
    pub total: usize,
    pub in_use: usize,
    pub available: usize,
}

#[derive(Debug, Clone)]
pub struct CircuitPoolStats {
    pub total_circuits: usize,
    pub in_use_circuits: usize,
    pub available_circuits: usize,
    pub pools_by_purpose: Vec<(CircuitPurpose, PoolStats)>,
}

#[derive(Debug, Clone, PartialEq, Eq)]
pub enum CircuitPoolError {
    NoCircuitsAvailable,
    CreationFailed(String),
    InvalidPurpose,
}

/// What a maintenance round of the DHT did.
#[derive(Debug, Clone)]
pub struct MaintenanceActions {
    pub removed_stale: usize,
    /// Buckets to refresh, each with a random target in its distance class.
    pub buckets_to_refresh: Vec<(usize, NodeId)>,
    pub completed_lookups: usize,
}

#[derive(Debug, Clone, Copy, PartialEq, Eq, Structural)]
pub struct DHTStats {
    pub total_nodes: usize,
    pub non_empty_buckets: usize,
    pub full_buckets: usize,
    pub active_lookups: usize,
    pub bootstrapped: bool,
}

/// Settings of bandwidth estimation; times in seconds.
#[derive(Debug, Clone, Copy, PartialEq, Eq, Structural)]
pub struct BandwidthConfig {
    pub measurement_window_secs: u64,
    pub min_samples: usize,
    pub update_interval_secs: u64,
}

#[derive(Debug, Clone, Copy)]
pub struct NodeBandwidthStats {
    pub node_id: NodeId,
    pub bytes_sent: u64,
    pub bytes_received: u64,
    pub estimated_bandwidth: u64,
    pub avg_latency_ms: u32,
    pub successful_transfers: u64,
    pub failed_transfers: u64,
    /// Seconds since the Unix epoch.
    pub last_updated: u64,
}

#[derive(Debug, Clone, Copy, PartialEq, Eq, Structural)]
pub struct NetworkBandwidthStats {
    pub total_bandwidth: u64,
    pub avg_bandwidth_per_node: u64,
    pub active_nodes: usize,
    pub total_bytes_transferred: u64,
    pub network_avg_latency_ms: u32,
    /// Seconds since the Unix epoch.
    pub last_updated: u64,
}

/// Per-peer token bucket settings; the penalty in seconds.
#[derive(Debug, Clone, Copy, PartialEq, Eq, Structural)]
pub struct RateLimitConfig {
    pub max_tokens: u64,
    pub refill_rate: u64,
    pub burst_size: u64,
    pub violation_penalty_secs: u64,
}

#[derive(Debug, Clone, Copy, PartialEq, Eq, Structural)]
pub struct RateLimitStatus {
    pub available_tokens: u64,
    pub max_tokens: u64,
    pub refill_rate: u64,
    pub violations: u32,
    pub is_penalized: bool,
}

#[derive(Debug, Clone, Copy, PartialEq, Eq, Structural)]
pub struct RateLimitStats {
    pub total_nodes: usize,
    pub penalized_nodes: usize,
    pub total_violations: u32,
}

#[derive(Debug, Clone, Copy, PartialEq, Eq, Structural)]
pub enum RateLimitError {
    RateLimitExceeded,
    BurstLimitExceeded,
    NodePenalized,
}

/// Frames messages with a 4-byte little-endian length.
pub struct MessageCodec;

#[derive(Debug, Clone, Copy)]
pub struct NodeStats {
    pub node_id: NodeId,
    pub peer_count: usize,
    pub active_peers: usize,
    pub circuits: usize,
    pub active_circuits: usize,
    pub bandwidth: u64,
    pub is_running: bool,
}

#[derive(Debug, Clone, Copy)]
pub struct ActiveCircuitInfo {
    pub circuit_id: CircuitId,
    pub purpose: CircuitPurpose,
    pub state: CircuitState,
    pub hops: usize,
    pub age_seconds: u64,
    pub use_count: usize,
}

#[derive(Debug, Clone, Copy, PartialEq, Eq, Structural)]
pub enum PeerState {
    Connecting,
    Connected,
    Failed,
    Disconnected,
}

#[derive(Debug, Clone, Copy, PartialEq, Eq, Structural)]
pub struct PeerManagerStats {
    pub total_peers: usize,
    pub connected: usize,
    pub connecting: usize,
    pub failed: usize,
    pub max_peers: usize,
    pub total_bytes_sent: u64,
    pub total_bytes_received: u64,
}

#[derive(Debug, Clone, Copy, PartialEq, Eq, Structural)]
pub struct ConnectionStats {
    pub bytes_sent: u64,
    pub bytes_received: u64,
    pub datagrams_sent: u64,
    pub datagrams_received: u64,
}

#[derive(Debug, Clone, PartialEq, Eq)]
pub enum ConnectionError {
    StreamOpen(String),
    StreamAccept(String),
    Closed(String),
}

#[derive(Debug, Clone, PartialEq, Eq)]
pub enum EndpointError {
    BindFailed(String),
    CertGeneration(String),
    ConfigCreation(String),
    ConnectionFailed(String),
    Closed,
    Io(String),
}

#[derive(Debug, Clone, PartialEq, Eq)]
pub enum StreamError {
    Write(String),
    Read(String),
    Finish(String),
    Reset(String),
}

#[derive(Debug, Clone, PartialEq, Eq)]
pub enum DirectoryError {
    InvalidDescriptor(String),
    ServiceNotFound,
    NoNodesAvailable,
    NetworkError(String),
    Timeout,
}

} // verus!
