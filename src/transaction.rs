use vstd::prelude::*;
use crate::config::CREDITS_PER_GB;
use crate::messages::Signature64;
use crate::node_id::NodeId;
use crate::pow::ProofOfWork;
use crate::types::{sat_sub, Credits, Timestamp};

verus! {

/// Age after which a relay proof or a transaction no longer counts, in seconds.
pub const PROOF_MAX_AGE_SECS: u64 = 3600;

/// Bytes in a gigabyte of relayed traffic.
pub const BYTES_PER_GB: u64 = 1073741824;

/// Identifier of a transaction.
#[derive(Debug, Clone, Copy, PartialEq, Eq, Structural, Hash)]
pub struct TransactionId(pub u64);

impl TransactionId {
    /// A random identifier.
    pub fn generate() -> (r: TransactionId) {
        TransactionId(crate::random::random_u64())
    }

    pub fn from_u64(id: u64) -> (r: TransactionId)
        ensures
            r.0 == id,
    {
        TransactionId(id)
    }

    pub fn as_u64(&self) -> (r: u64)
        ensures
            r == self.0,
    {
        self.0
    }
}

/// Evidence that a relay carried traffic on a circuit.
#[derive(Debug, Clone, Copy)]
pub struct RelayProof {
    pub circuit_id: u64,
    pub cells_relayed: u64,
    pub bytes_relayed: u64,
    pub timestamp: Timestamp,
    pub sender_signature: Option<Signature64>,
    pub receiver_signature: Option<Signature64>,
    pub data_hash: [u8; 32],
}

/// Credits for relayed bytes: `CREDITS_PER_GB` per gigabyte, rounded down,
/// at least 1.
pub open spec fn relay_credits(bytes: u64) -> nat {
    let c = (bytes as nat * CREDITS_PER_GB as nat) / BYTES_PER_GB as nat;
    if c < 1 {
        1
    } else {
        c
    }
}

impl RelayProof {
    /// A proof made at `now`, unsigned, with a zero data hash.
    pub fn new_at(circuit_id: u64, cells_relayed: u64, bytes_relayed: u64, now: Timestamp) -> (r: RelayProof)
        ensures
            r.circuit_id == circuit_id,
            r.cells_relayed == cells_relayed,
            r.bytes_relayed == bytes_relayed,
            r.timestamp == now,
            r.sender_signature is None,
            r.receiver_signature is None,
    {
        RelayProof {
            circuit_id,
            cells_relayed,
            bytes_relayed,
            timestamp: now,
            sender_signature: None,
            receiver_signature: None,
            data_hash: [0u8; 32],
        }
    }

    /// A proof made now.
    pub fn new(circuit_id: u64, cells_relayed: u64, bytes_relayed: u64) -> (r: RelayProof)
        ensures
            r.circuit_id == circuit_id,
            r.cells_relayed == cells_relayed,
            r.bytes_relayed == bytes_relayed,
    {
        RelayProof::new_at(circuit_id, cells_relayed, bytes_relayed, Timestamp::now())
    }

    /// Valid at `now`: some bytes and cells relayed, at most an hour ago.
    pub fn verify_at(&self, now: Timestamp) -> (r: bool)
        ensures
            r == (self.bytes_relayed > 0 && self.cells_relayed > 0 && sat_sub(now.0 as int, self.timestamp.0 as int)
                <= PROOF_MAX_AGE_SECS),
    {
        if self.bytes_relayed == 0 {
            return false;
        }
        if self.cells_relayed == 0 {
            return false;
        }
        self.timestamp.elapsed_at(now) <= PROOF_MAX_AGE_SECS
    }

    /// `verify_at` at the current time.
    pub fn verify(&self) -> (r: bool)
        ensures
            r ==> self.bytes_relayed > 0 && self.cells_relayed > 0,
    {
        self.verify_at(Timestamp::now())
    }

    /// Credits earned for the relayed bytes.
    pub fn calculate_credits(&self) -> (r: Credits)
        ensures
            r.0 == relay_credits(self.bytes_relayed),
    {
        let product: u128 = self.bytes_relayed as u128 * CREDITS_PER_GB as u128;
        let c: u128 = product / BYTES_PER_GB as u128;
        assert(c <= u64::MAX) by (nonlinear_arith)
            requires
                product == self.bytes_relayed as u128 * 1000,
                c == product / 1073741824,
                self.bytes_relayed <= u64::MAX,
        ;
        if c < 1 {
            Credits::new(1)
        } else {
            Credits::new(c as u64)
        }
    }
}

/// What a transaction does.
#[derive(Debug, Clone, Copy)]
pub enum TransactionType {
    Transfer { from: NodeId, to: NodeId, amount: Credits },
    RelayReward { relay_node: NodeId, circuit_id: u64, bytes_relayed: u64, amount: Credits, proof: RelayProof },
    Genesis { recipient: NodeId, amount: Credits, pow: ProofOfWork },
}

/// A credit transaction.
#[derive(Debug, Clone, Copy)]
pub struct Transaction {
    pub id: TransactionId,
    pub tx_type: TransactionType,
    pub timestamp: Timestamp,
    pub signature: Signature64,
    pub nonce: u64,
}

impl TransactionType {
    /// The node on whose account the transaction is made.
    pub open spec fn sender_spec(&self) -> NodeId {
        match self {
            TransactionType::Transfer { from, .. } => *from,
            TransactionType::RelayReward { relay_node, .. } => *relay_node,
            TransactionType::Genesis { recipient, .. } => *recipient,
        }
    }

    pub open spec fn amount_spec(&self) -> Credits {
        match self {
            TransactionType::Transfer { amount, .. } => *amount,
            TransactionType::RelayReward { amount, .. } => *amount,
            TransactionType::Genesis { amount, .. } => *amount,
        }
    }
}

impl Transaction {
    /// An unsigned transaction with id `id`, made at `now`.
    pub fn new_at(id: TransactionId, tx_type: TransactionType, nonce: u64, now: Timestamp) -> (r: Transaction)
        ensures
            r.id == id,
            r.tx_type == tx_type,
            r.nonce == nonce,
            r.timestamp == now,
    {
        Transaction { id, tx_type, timestamp: now, signature: Signature64([0u8; 64]), nonce }
    }

    /// An unsigned transaction with a random id, made now.
    pub fn new(tx_type: TransactionType, nonce: u64) -> (r: Transaction)
        ensures
            r.tx_type == tx_type,
            r.nonce == nonce,
    {
        Transaction::new_at(TransactionId::generate(), tx_type, nonce, Timestamp::now())
    }

    pub fn with_signature(self, signature: Signature64) -> (r: Transaction)
        ensures
            r == (Transaction { signature, ..self }),
    {
        Transaction { signature, ..self }
    }

    /// The sender: payer of a transfer, relay of a reward, recipient of genesis.
    pub fn sender(&self) -> (r: NodeId)
        ensures
            r == self.tx_type.sender_spec(),
    {
        match &self.tx_type {
            TransactionType::Transfer { from, .. } => *from,
            TransactionType::RelayReward { relay_node, .. } => *relay_node,
            TransactionType::Genesis { recipient, .. } => *recipient,
        }
    }

    pub fn amount(&self) -> (r: Credits)
        ensures
            r == self.tx_type.amount_spec(),
    {
        match &self.tx_type {
            TransactionType::Transfer { amount, .. } => *amount,
            TransactionType::RelayReward { amount, .. } => *amount,
            TransactionType::Genesis { amount, .. } => *amount,
        }
    }
}

/// Failures of transaction checks.
#[derive(Debug, Clone, Copy, PartialEq, Eq, Structural)]
pub enum TransactionError {
    InvalidSignature,
    InsufficientBalance { needed: u64, available: u64 },
    InvalidAmount(u64),
    ReplayAttack,
    InvalidRelayProof,
    Expired,
    InvalidSender,
    TransferNotAllowed,
    InvalidPoW,
}

} // verus!
