use vstd::prelude::*;

verus! {

/// Errors shared by the node's components.
#[derive(Debug, Clone, PartialEq, Eq)]
pub enum AnonNetError {
    Network(String),
    Protocol(String),
    Serialization(String),
    InsufficientCredits { needed: u64, available: u64 },
    InvalidNodeId(String),
    InvalidAddress(String),
    Timeout,
    ConnectionRefused,
    NodeNotFound(String),
    CircuitCreationFailed(String),
    RelayFailed(String),
    AuthenticationFailed(String),
    PermissionDenied(String),
    InvalidSignature,
    InvalidMessage(String),
    Internal(String),
    Io(String),
    Other(String),
}

impl AnonNetError {
    pub fn network(msg: String) -> (r: AnonNetError)
        ensures
            r == AnonNetError::Network(msg),
    {
        AnonNetError::Network(msg)
    }

    pub fn protocol(msg: String) -> (r: AnonNetError)
        ensures
            r == AnonNetError::Protocol(msg),
    {
        AnonNetError::Protocol(msg)
    }

    pub fn serialization(msg: String) -> (r: AnonNetError)
        ensures
            r == AnonNetError::Serialization(msg),
    {
        AnonNetError::Serialization(msg)
    }

    pub fn invalid_node_id(msg: String) -> (r: AnonNetError)
        ensures
            r == AnonNetError::InvalidNodeId(msg),
    {
        AnonNetError::InvalidNodeId(msg)
    }

    pub fn internal(msg: String) -> (r: AnonNetError)
        ensures
            r == AnonNetError::Internal(msg),
    {
        AnonNetError::Internal(msg)
    }
}

} // verus!
