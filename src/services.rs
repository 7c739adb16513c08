use vstd::prelude::*;
use crate::common::{CreditBalance, DomainError, MessageEnvelope, NodeId};

verus! {

/// A peer as peer discovery reports it.
#[derive(Debug, Clone)]
pub struct PeerInfo {
    pub id: NodeId,
    pub addresses: Vec<String>,
    pub reputation: u32,
}

/// A query for peers.
#[derive(Debug, Clone, Copy, PartialEq, Eq, Structural)]
pub struct DiscoveryQuery {
    pub target_reputation: Option<u32>,
    pub limit: usize,
}

/// A source of peers, for an embedding application to provide.
pub trait PeerDiscovery {
    fn local_peer(&self) -> NodeId;

    fn list_peers(&self) -> Vec<PeerInfo>;

    fn discover(&self, query: DiscoveryQuery) -> Result<Vec<PeerInfo>, CoreError>;
}

/// Discovery that knows no peers.
#[derive(Debug, Clone, Copy, Default)]
pub struct DefaultPeerDiscovery;

impl PeerDiscovery for DefaultPeerDiscovery {
    /// The all-zero id: this discovery has no identity of its own.
    fn local_peer(&self) -> NodeId {
        NodeId([0u8; 32])
    }

    fn list_peers(&self) -> Vec<PeerInfo> {
        Vec::new()
    }

    fn discover(&self, query: DiscoveryQuery) -> Result<Vec<PeerInfo>, CoreError> {
        Err(CoreError::NotImplemented("peer discovery".to_string()))
    }
}

/// A request for a circuit.
#[derive(Debug, Clone, Copy)]
pub struct CircuitRequest {
    pub path_length: usize,
    pub entry_guard: Option<NodeId>,
}

/// A built circuit as the builder reports it.
#[derive(Debug, Clone)]
pub struct CircuitHandle {
    pub id: u64,
    pub path: Vec<NodeId>,
}

/// Builds circuits, for an embedding application to provide.
pub trait CircuitBuilder {
    fn build_circuit(&self, request: CircuitRequest) -> Result<CircuitHandle, CoreError>;

    fn refresh_circuit(&self, handle: &CircuitHandle) -> Result<CircuitHandle, CoreError>;

    fn teardown_circuit(&self, handle: CircuitHandle) -> Result<(), CoreError>;
}

/// A builder that builds nothing.
#[derive(Debug, Clone, Copy, Default)]
pub struct DefaultCircuitBuilder;

impl CircuitBuilder for DefaultCircuitBuilder {
    fn build_circuit(&self, request: CircuitRequest) -> Result<CircuitHandle, CoreError> {
        Err(CoreError::NotImplemented("circuit builder".to_string()))
    }

    fn refresh_circuit(&self, handle: &CircuitHandle) -> Result<CircuitHandle, CoreError> {
        Err(CoreError::NotImplemented("circuit builder".to_string()))
    }

    fn teardown_circuit(&self, handle: CircuitHandle) -> Result<(), CoreError> {
        Err(CoreError::NotImplemented("circuit builder".to_string()))
    }
}

/// A credit transfer with its signed envelope.
#[derive(Debug, Clone)]
pub struct CreditTransaction {
    pub from: NodeId,
    pub to: NodeId,
    pub amount: u64,
    pub proof: MessageEnvelope,
}

/// Balances at one moment.
#[derive(Debug, Clone)]
pub struct LedgerSnapshot {
    pub entries: Vec<(NodeId, CreditBalance)>,
}

/// Keeps credit balances, for an embedding application to provide.
pub trait CreditLedger {
    fn balance(&self, node: &NodeId) -> Result<CreditBalance, CoreError>;

    fn apply(&self, tx: CreditTransaction) -> Result<(), CoreError>;

    fn snapshot(&self) -> Result<LedgerSnapshot, CoreError>;
}

/// A ledger that keeps nothing.
#[derive(Debug, Clone, Copy, Default)]
pub struct DefaultCreditLedger;

impl CreditLedger for DefaultCreditLedger {
    fn balance(&self, node: &NodeId) -> Result<CreditBalance, CoreError> {
        Err(CoreError::NotImplemented("credit ledger".to_string()))
    }

    fn apply(&self, tx: CreditTransaction) -> Result<(), CoreError> {
        Err(CoreError::NotImplemented("credit ledger".to_string()))
    }

    fn snapshot(&self) -> Result<LedgerSnapshot, CoreError> {
        Err(CoreError::NotImplemented("credit ledger".to_string()))
    }
}

/// Errors of the core's service interfaces.
#[derive(Debug, Clone, PartialEq, Eq)]
pub enum CoreError {
    Domain(DomainError),
    NotReady(String),
    NotImplemented(String),
}

} // verus!
