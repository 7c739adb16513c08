use vstd::prelude::*;
use crate::node_id::NodeId;
use crate::types::Credits;
use crate::random::random_u64;

verus! {

/// A 64-byte signature carried in messages.
#[derive(Debug, Clone, Copy)]
pub struct Signature64(pub [u8; 64]);

/// A 16-byte message identifier.
#[derive(Debug, Clone, Copy, PartialEq, Eq, Hash)]
pub struct MessageId(pub [u8; 16]);

impl MessageId {
    /// A random identifier.
    pub fn generate() -> (r: MessageId) {
        MessageId(crate::random::random_array::<16>())
    }

    pub fn from_bytes(bytes: [u8; 16]) -> (r: MessageId)
        ensures
            r.0 == bytes,
    {
        MessageId(bytes)
    }

    pub fn as_bytes(&self) -> (r: &[u8; 16])
        ensures
            *r == self.0,
    {
        &self.0
    }
}

#[derive(Debug, Clone, Copy, PartialEq, Eq, Structural)]
pub struct PingMessage {
    pub nonce: u64,
}

#[derive(Debug, Clone, Copy, PartialEq, Eq, Structural)]
pub struct PongMessage {
    pub nonce: u64,
}

impl PingMessage {
    /// The reply to a ping: a pong that echoes its nonce.
    pub fn reply(&self) -> (r: PongMessage)
        ensures
            r.nonce == self.nonce,
    {
        PongMessage { nonce: self.nonce }
    }
}

#[derive(Debug, Clone, Copy)]
pub struct FindNodeMessage {
    pub target: NodeId,
    pub count: usize,
}

#[derive(Debug, Clone)]
pub struct StoreMessage {
    pub key: [u8; 32],
    pub value: Vec<u8>,
    pub publisher: NodeId,
    /// Lifetime in seconds.
    pub ttl: u64,
    pub signature: Option<Signature64>,
}

#[derive(Debug, Clone)]
pub struct StoreResponseMessage {
    pub success: bool,
    pub error: Option<String>,
}

#[derive(Debug, Clone, Copy)]
pub struct FindValueMessage {
    pub key: [u8; 32],
}

#[derive(Debug, Clone)]
pub struct StoredValueMessage {
    pub data: Vec<u8>,
    pub publisher: NodeId,
    /// Seconds since the Unix epoch.
    pub stored_at: u64,
    /// Lifetime in seconds.
    pub ttl: u64,
    pub signature: Option<Signature64>,
}

/// Identifier of a circuit on the wire.
#[derive(Debug, Clone, Copy, PartialEq, Eq, Structural, Hash)]
pub struct CircuitId(pub u64);

impl CircuitId {
    /// A random identifier.
    pub fn generate() -> (r: CircuitId) {
        CircuitId(random_u64())
    }
}

#[derive(Debug, Clone)]
pub struct CreateCircuitMessage {
    pub circuit_id: CircuitId,
    pub next_hop: Option<NodeId>,
    pub encrypted_payload: Option<Vec<u8>>,
}

#[derive(Debug, Clone, Copy)]
pub struct CircuitCreatedMessage {
    pub circuit_id: CircuitId,
    pub success: bool,
    /// The responder's ephemeral X25519 public key.
    pub public_key: Option<[u8; 32]>,
}

#[derive(Debug, Clone)]
pub struct CircuitFailedMessage {
    pub circuit_id: CircuitId,
    pub reason: String,
}

#[derive(Debug, Clone, Copy)]
pub struct DestroyCircuitMessage {
    pub circuit_id: CircuitId,
}

#[derive(Debug, Clone)]
pub struct RelayDataMessage {
    pub circuit_id: CircuitId,
    pub payload: Vec<u8>,
    pub sequence: u64,
}

#[derive(Debug, Clone, Copy)]
pub struct RelayAckMessage {
    pub circuit_id: CircuitId,
    pub sequence: u64,
    pub bytes_relayed: u64,
}

#[derive(Debug, Clone, Copy)]
pub struct CreditTransferMessage {
    pub to: NodeId,
    pub amount: Credits,
    pub nonce: u64,
    pub signature: Signature64,
}

#[derive(Debug, Clone, Copy)]
pub struct CreditBalanceMessage {
    pub node_id: NodeId,
    pub balance: Credits,
}

#[derive(Debug, Clone, Copy, PartialEq, Eq, Structural)]
pub enum ErrorCode {
    InvalidMessage,
    AuthenticationFailed,
    InsufficientCredits,
    CircuitCreationFailed,
    NodeNotFound,
    ProtocolVersionMismatch,
    InternalError,
}

#[derive(Debug, Clone)]
pub struct ErrorMessage {
    pub code: ErrorCode,
    pub message: String,
}

} // verus!
