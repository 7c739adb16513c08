use vstd::prelude::*;
use crate::config::PROTOCOL_VERSION;
use crate::identity::Identity;
use crate::keys::{ed25519_accepts, ed25519_signature_of, PublicKey};
use crate::messages::Signature64;
use crate::node_id::NodeId;
use crate::routing_table::id_matches_key;
use crate::types::NetworkAddress;

verus! {

broadcast use vstd::array::axiom_array_ext_equal;

/// The first message on a new connection.
#[derive(Debug, Clone)]
pub struct HandshakeMessage {
    pub node_id: NodeId,
    pub public_key: PublicKey,
    pub protocol_version: u32,
    pub addresses: Vec<NetworkAddress>,
    pub accepts_relay: bool,
    /// Challenge that the responder signs.
    pub nonce: [u8; 32],
}

/// The answer to a handshake.
#[derive(Debug, Clone)]
pub struct HandshakeResponse {
    pub node_id: NodeId,
    pub public_key: PublicKey,
    pub protocol_version: u32,
    pub addresses: Vec<NetworkAddress>,
    pub accepts_relay: bool,
    pub challenge_signature: Signature64,
    pub success: bool,
    pub error: Option<String>,
}

/// Reasons to abort a handshake.
#[derive(Debug, Clone, Copy, PartialEq, Eq, Structural)]
pub enum HandshakeError {
    /// The responder reported failure.
    Refused,
    VersionMismatch,
    /// The node id is not the digest of the public key.
    InvalidNodeId,
    InvalidSignature,
}

/// Checks an incoming handshake: the protocol version, then the Sybil gate.
pub fn check_handshake(msg: &HandshakeMessage) -> (r: Result<(), HandshakeError>)
    ensures
        msg.protocol_version != PROTOCOL_VERSION ==> r == Err::<(), HandshakeError>(HandshakeError::VersionMismatch),
        msg.protocol_version == PROTOCOL_VERSION ==> (r is Ok <==> id_matches_key(msg.node_id, msg.public_key)),
        msg.protocol_version == PROTOCOL_VERSION && !id_matches_key(msg.node_id, msg.public_key) ==> r == Err::<
            (),
            HandshakeError,
        >(HandshakeError::InvalidNodeId),
{
    if msg.protocol_version != PROTOCOL_VERSION {
        return Err(HandshakeError::VersionMismatch);
    }
    let expected = NodeId::from_public_key(&msg.public_key);
    if msg.node_id != expected {
        proof {
            if id_matches_key(msg.node_id, msg.public_key) {
                assert(msg.node_id.0 =~= expected.0);
            }
        }
        return Err(HandshakeError::InvalidNodeId);
    }
    Ok(())
}

/// Answers a handshake that passed `check_handshake`: the responder's own
/// identity and its signature over the challenge.
pub fn respond(identity: &Identity, msg: &HandshakeMessage, addresses: Vec<NetworkAddress>, accepts_relay: bool) -> (r: HandshakeResponse)
    requires
        identity.wf(),
    ensures
        r.success,
        r.node_id == identity.node_id_view(),
        r.public_key == identity.keypair_view().public_view(),
        id_matches_key(r.node_id, r.public_key),
        r.challenge_signature.0@ == ed25519_signature_of(identity.keypair_view().seed(), msg.nonce@),
        r.protocol_version == PROTOCOL_VERSION,
{
    let sig = identity.sign(&msg.nonce);
    HandshakeResponse {
        node_id: identity.node_id(),
        public_key: identity.public_key(),
        protocol_version: PROTOCOL_VERSION,
        addresses,
        accepts_relay,
        challenge_signature: Signature64(sig),
        success: true,
        error: None,
    }
}

/// Checks the answer to our handshake with challenge `nonce`: success, then
/// the Sybil gate, then the signature over the challenge.
pub fn check_response(resp: &HandshakeResponse, nonce: &[u8; 32]) -> (r: Result<(), HandshakeError>)
    ensures
        !resp.success ==> r == Err::<(), HandshakeError>(HandshakeError::Refused),
        resp.success && !id_matches_key(resp.node_id, resp.public_key) ==> r == Err::<(), HandshakeError>(
            HandshakeError::InvalidNodeId,
        ),
        resp.success && id_matches_key(resp.node_id, resp.public_key) ==> (r is Ok <==> ed25519_accepts(
            resp.public_key.bytes@,
            nonce@,
            resp.challenge_signature.0@,
        )),
        r is Ok ==> id_matches_key(resp.node_id, resp.public_key),
{
    if !resp.success {
        return Err(HandshakeError::Refused);
    }
    let expected = NodeId::from_public_key(&resp.public_key);
    if resp.node_id != expected {
        proof {
            if id_matches_key(resp.node_id, resp.public_key) {
                assert(resp.node_id.0 =~= expected.0);
            }
        }
        return Err(HandshakeError::InvalidNodeId);
    }
    if !resp.public_key.verify(nonce, &resp.challenge_signature.0) {
        return Err(HandshakeError::InvalidSignature);
    }
    Ok(())
}

} // verus!
