use vstd::prelude::*;
use crate::encoding::{hex_decode, hex_encode, hex_spells, is_hex_text};

verus! {

pub const NODE_ID_LEN: usize = 32;

/// Errors of the shared domain values.
#[derive(Debug, Clone, PartialEq, Eq)]
pub enum DomainError {
    InvalidNodeId { expected: usize, actual: usize },
    InvalidNodeIdHex(String),
    InsufficientCredits { available: u64, required: u64 },
    CreditOverflow,
}

/// A 32-byte node identifier as carried in envelopes.
#[derive(Debug, Clone, Copy, Eq, Hash)]
pub struct NodeId(pub [u8; 32]);

impl PartialEq for NodeId {
    fn eq(&self, other: &NodeId) -> (r: bool) {
        crate::node_id::bytes32_equal(&self.0, &other.0)
    }
}

impl vstd::std_specs::cmp::PartialEqSpecImpl for NodeId {
    open spec fn obeys_eq_spec() -> bool {
        true
    }

    open spec fn eq_spec(&self, other: &NodeId) -> bool {
        *self == *other
    }
}

impl NodeId {
    pub fn from_bytes(bytes: [u8; 32]) -> (r: NodeId)
        ensures
            r.0 == bytes,
    {
        NodeId(bytes)
    }

    /// Accepts exactly 32 bytes.
    pub fn from_slice(bytes: &[u8]) -> (r: Result<NodeId, DomainError>)
        ensures
            bytes@.len() == 32 ==> (r matches Ok(id) && id.0@ == bytes@),
            bytes@.len() != 32 ==> r == Err::<NodeId, DomainError>(
                DomainError::InvalidNodeId { expected: NODE_ID_LEN, actual: bytes@.len() as usize },
            ),
    {
        if bytes.len() != NODE_ID_LEN {
            return Err(DomainError::InvalidNodeId { expected: NODE_ID_LEN, actual: bytes.len() });
        }
        let mut array = [0u8; 32];
        let mut i: usize = 0;
        while i < 32
            invariant
                0 <= i <= 32,
                bytes@.len() == 32,
                forall|j: int| 0 <= j < i ==> array@[j] == bytes@[j],
            decreases 32 - i,
        {
            array[i] = bytes[i];
            i = i + 1;
        }
        assert(array@ =~= bytes@);
        Ok(NodeId(array))
    }

    pub fn as_bytes(&self) -> (r: &[u8; 32])
        ensures
            *r == self.0,
    {
        &self.0
    }

    /// Lower-case hexadecimal text.
    pub fn to_hex(&self) -> (r: String)
        ensures
            hex_spells(r@, self.0@),
    {
        hex_encode(&self.0)
    }

    /// Reads 64 hex digits of either case.
    pub fn from_hex(hex_str: &str) -> (r: Result<NodeId, DomainError>)
        ensures
            r matches Ok(id) ==> hex_spells(hex_str@, id.0@),
            r matches Err(DomainError::InvalidNodeIdHex(_)) <==> !is_hex_text(hex_str@),
            is_hex_text(hex_str@) && hex_str@.len() == 64 ==> r is Ok,
    {
        match hex_decode(hex_str) {
            None => Err(DomainError::InvalidNodeIdHex("invalid hexadecimal text".to_string())),
            Some(decoded) => NodeId::from_slice(decoded.as_slice()),
        }
    }

    /// Text form: the lower-case hex of the identifier.
    pub fn to_string(&self) -> (r: String)
        ensures
            hex_spells(r@, self.0@),
    {
        self.to_hex()
    }
}

/// A spendable credit balance.
#[derive(Debug, Clone, Copy, PartialEq, Eq, Structural)]
pub struct CreditBalance {
    available: u64,
}

impl CreditBalance {
    pub closed spec fn value(&self) -> u64 {
        self.available
    }

    pub fn new(amount: u64) -> (r: CreditBalance)
        ensures
            r.value() == amount,
    {
        CreditBalance { available: amount }
    }

    pub fn available(&self) -> (r: u64)
        ensures
            r == self.value(),
    {
        self.available
    }

    /// Adds `amount`; fails, unchanged, where the sum would overflow.
    pub fn credit(&mut self, amount: u64) -> (r: Result<(), DomainError>)
        ensures
            old(self).value() + amount <= u64::MAX ==> r is Ok && final(self).value() == old(self).value() + amount,
            old(self).value() + amount > u64::MAX ==> r == Err::<(), DomainError>(DomainError::CreditOverflow)
                && *final(self) == *old(self),
    {
        match self.available.checked_add(amount) {
            Some(v) => {
                self.available = v;
                Ok(())
            },
            None => Err(DomainError::CreditOverflow),
        }
    }

    /// Takes `amount`; fails, unchanged, where the balance is short.
    pub fn debit(&mut self, amount: u64) -> (r: Result<(), DomainError>)
        ensures
            amount <= old(self).value() ==> r is Ok && final(self).value() == old(self).value() - amount,
            amount > old(self).value() ==> r == Err::<(), DomainError>(
                DomainError::InsufficientCredits { available: old(self).value(), required: amount },
            ) && *final(self) == *old(self),
    {
        if self.available < amount {
            return Err(
                DomainError::InsufficientCredits { available: self.available, required: amount },
            );
        }
        self.available = self.available - amount;
        Ok(())
    }
}

#[derive(Debug, Clone, Copy, PartialEq, Eq, Structural)]
pub enum MessageKind {
    Control,
    Data,
    Credit,
}

/// A signed message between two nodes.
#[derive(Debug, Clone, PartialEq, Eq)]
pub struct MessageEnvelope {
    pub from: NodeId,
    pub to: NodeId,
    pub nonce: u64,
    pub kind: MessageKind,
    pub payload: Vec<u8>,
    pub signature: Vec<u8>,
}

impl MessageEnvelope {
    pub fn new(
        from: NodeId,
        to: NodeId,
        nonce: u64,
        kind: MessageKind,
        payload: Vec<u8>,
        signature: Vec<u8>,
    ) -> (r: MessageEnvelope)
        ensures
            r == (MessageEnvelope { from, to, nonce, kind, payload, signature }),
    {
        MessageEnvelope { from, to, nonce, kind, payload, signature }
    }
}

} // verus!
