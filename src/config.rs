use vstd::prelude::*;

verus! {

/// Current protocol version.
pub const PROTOCOL_VERSION: u32 = 1;

/// Default port for node communication.
pub const DEFAULT_PORT: u16 = 9090;

/// Largest framed message, 10 MiB.
pub const MAX_MESSAGE_SIZE: usize = 10485760;

pub const CONNECTION_TIMEOUT_SECS: u64 = 30;

pub const HANDSHAKE_TIMEOUT_SECS: u64 = 10;

pub const KEEPALIVE_INTERVAL_SECS: u64 = 30;

pub const MAX_CONNECTIONS_PER_PEER: usize = 3;

/// Kademlia bucket size, `K`.
pub const K_BUCKET_SIZE: usize = 20;

/// Parallelism of iterative lookups, `alpha`.
pub const ALPHA: usize = 3;

pub const REPLICATION_FACTOR: usize = 20;

pub const REFRESH_INTERVAL_SECS: u64 = 3600;

pub const BOOTSTRAP_TIMEOUT_SECS: u64 = 60;

/// Age after which a routing-table entry is stale.
pub const MAX_NODE_AGE_SECS: u64 = 7200;

pub const DEFAULT_CIRCUIT_LENGTH: usize = 3;

/// Number of hops at which a circuit becomes ready.
pub const MIN_CIRCUIT_LENGTH: usize = 1;

pub const RECOMMENDED_CIRCUIT_LENGTH: usize = 3;

pub const MAX_CIRCUIT_LENGTH: usize = 8;

pub const CIRCUIT_LIFETIME_SECS: u64 = 600;

pub const MAX_CIRCUITS: usize = 100;

pub const MULTIPATH_CIRCUITS: usize = 3;

pub const INITIAL_BALANCE: u64 = 1000;

pub const CREDITS_PER_GB: u64 = 1000;

pub const MIN_BALANCE_TO_SEND: u64 = 100;

pub const BLOCK_TIME_SECS: u64 = 30;

pub const MAX_TRANSACTION_AMOUNT: u64 = 1000000;

pub const DEFAULT_MAX_PEERS: usize = 50;

/// Settings of a node.
#[derive(Debug, Clone)]
pub struct NodeConfig {
    pub listen_addr: String,
    pub listen_port: u16,
    pub bootstrap_nodes: Vec<String>,
    pub accept_relay: bool,
    pub max_peers: usize,
    pub data_dir: String,
    pub verbose: bool,
}

impl Default for NodeConfig {
    fn default() -> (r: NodeConfig)
        ensures
            r.listen_addr@ == "0.0.0.0"@,
            r.listen_port == DEFAULT_PORT,
            r.bootstrap_nodes@.len() == 1,
            r.bootstrap_nodes@[0]@ == "37.114.50.194:9090"@,
            r.accept_relay,
            r.max_peers == DEFAULT_MAX_PEERS,
            r.data_dir@ == "./data"@,
            !r.verbose,
    {
        let mut bootstrap_nodes: Vec<String> = Vec::new();
        bootstrap_nodes.push("37.114.50.194:9090".to_string());
        NodeConfig {
            listen_addr: "0.0.0.0".to_string(),
            listen_port: DEFAULT_PORT,
            bootstrap_nodes,
            accept_relay: true,
            max_peers: DEFAULT_MAX_PEERS,
            data_dir: "./data".to_string(),
            verbose: false,
        }
    }
}

impl NodeConfig {
    /// The default settings.
    pub fn new() -> (r: NodeConfig)
        ensures
            r.listen_addr@ == "0.0.0.0"@,
            r.listen_port == DEFAULT_PORT,
            r.bootstrap_nodes@.len() == 1,
            r.bootstrap_nodes@[0]@ == "37.114.50.194:9090"@,
            r.accept_relay,
            r.max_peers == DEFAULT_MAX_PEERS,
            r.data_dir@ == "./data"@,
            !r.verbose,
    {
        NodeConfig::default()
    }

    pub fn with_port(self, port: u16) -> (r: NodeConfig)
        ensures
            r == (NodeConfig { listen_port: port, ..self }),
    {
        NodeConfig { listen_port: port, ..self }
    }

    pub fn with_bootstrap_nodes(self, nodes: Vec<String>) -> (r: NodeConfig)
        ensures
            r == (NodeConfig { bootstrap_nodes: nodes, ..self }),
    {
        NodeConfig { bootstrap_nodes: nodes, ..self }
    }

    pub fn with_data_dir(self, dir: String) -> (r: NodeConfig)
        ensures
            r == (NodeConfig { data_dir: dir, ..self }),
    {
        NodeConfig { data_dir: dir, ..self }
    }

    /// Seconds to wait for a connection.
    pub fn connection_timeout_secs(&self) -> (r: u64)
        ensures
            r == CONNECTION_TIMEOUT_SECS,
    {
        CONNECTION_TIMEOUT_SECS
    }

    /// Seconds between keep-alive messages.
    pub fn keepalive_interval_secs(&self) -> (r: u64)
        ensures
            r == KEEPALIVE_INTERVAL_SECS,
    {
        KEEPALIVE_INTERVAL_SECS
    }

    pub fn connection_timeout(&self) -> std::time::Duration {
        crate::types::duration_from_secs(self.connection_timeout_secs())
    }

    pub fn keepalive_interval(&self) -> std::time::Duration {
        crate::types::duration_from_secs(self.keepalive_interval_secs())
    }
}

/// Failures of reading or writing a settings file.
#[derive(Debug, Clone, PartialEq, Eq)]
pub enum ConfigError {
    ReadError(String),
    ParseError(String),
    SerializeError(String),
    WriteError(String),
}

} // verus!
