use vstd::prelude::*;
use crate::encoding::blake3_of;
use crate::keys::{ed25519_accepts, ed25519_signature_of, KeyPair, KeyPairError, PublicKey};
use crate::node_id::NodeId;
use crate::pow::{pow_meets, ProofOfWork};

verus! {

impl KeyPair {
    /// A fresh key pair with a proof of work of `difficulty` over its node id.
    pub fn generate_with_pow(difficulty: u8) -> (r: (KeyPair, ProofOfWork))
        ensures
            r.0.wf(),
            r.1.difficulty == difficulty,
            r.1.nonce < u64::MAX ==> pow_meets(blake3_of(r.0.public_view().bytes@), r.1.nonce, difficulty, r.1.timestamp),
    {
        let keypair = KeyPair::generate();
        let node_id = NodeId::from_public_key(&keypair.public_key());
        let pow = ProofOfWork::mine(node_id.as_bytes(), difficulty);
        (keypair, pow)
    }
}

/// A node's key pair and the node id that belongs to it.
#[derive(Debug, Clone)]
pub struct Identity {
    keypair: KeyPair,
    node_id: NodeId,
}

/// The secret half of an identity, as it is persisted.
#[derive(Debug, Clone, Copy)]
pub struct ExportableIdentity {
    pub secret_key: [u8; 32],
}

impl Identity {
    pub closed spec fn keypair_view(&self) -> KeyPair {
        self.keypair
    }

    pub closed spec fn node_id_view(&self) -> NodeId {
        self.node_id
    }

    /// The key pair is consistent and the node id is the digest of its public key.
    pub open spec fn wf(&self) -> bool {
        &&& self.keypair_view().wf()
        &&& self.node_id_view().0@ == blake3_of(self.keypair_view().public_view().bytes@)
    }

    /// The identity of a key pair.
    pub fn from_keypair(keypair: KeyPair) -> (r: Identity)
        requires
            keypair.wf(),
        ensures
            r.wf(),
            r.keypair_view() == keypair,
    {
        let node_id = NodeId::from_public_key(&keypair.public_key());
        Identity { keypair, node_id }
    }

    /// A fresh identity from random bytes.
    pub fn generate() -> (r: Identity)
        ensures
            r.wf(),
    {
        Identity::from_keypair(KeyPair::generate())
    }

    /// The identity of a 32-byte secret seed.
    pub fn from_secret_bytes(bytes: &[u8; 32]) -> (r: Result<Identity, KeyPairError>)
        ensures
            r matches Ok(id) && id.wf() && id.keypair_view().seed() == bytes@,
    {
        match KeyPair::from_secret_bytes(bytes) {
            Ok(keypair) => Ok(Identity::from_keypair(keypair)),
            Err(e) => Err(e),
        }
    }

    pub fn keypair(&self) -> (r: &KeyPair)
        ensures
            *r == self.keypair_view(),
    {
        &self.keypair
    }

    pub fn public_key(&self) -> (r: PublicKey)
        ensures
            r == self.keypair_view().public_view(),
    {
        self.keypair.public_key()
    }

    pub fn node_id(&self) -> (r: NodeId)
        ensures
            r == self.node_id_view(),
    {
        self.node_id
    }

    pub fn sign(&self, message: &[u8]) -> (r: [u8; 64])
        ensures
            r@ == ed25519_signature_of(self.keypair_view().seed(), message@),
    {
        self.keypair.sign(message)
    }

    pub fn verify(&self, message: &[u8], signature: &[u8; 64]) -> (r: bool)
        ensures
            r == ed25519_accepts(self.keypair_view().public_view().bytes@, message@, signature@),
    {
        self.keypair.verify(message, signature)
    }

    pub fn secret_bytes(&self) -> (r: [u8; 32])
        ensures
            r@ == self.keypair_view().seed(),
    {
        self.keypair.secret_bytes()
    }

    /// The secret seed, for persisting.
    pub fn to_exportable(&self) -> (r: ExportableIdentity)
        ensures
            r.secret_key@ == self.keypair_view().seed(),
    {
        ExportableIdentity { secret_key: self.keypair.secret_bytes() }
    }

    /// The identity of a persisted seed.
    pub fn from_exportable(exportable: &ExportableIdentity) -> (r: Result<Identity, KeyPairError>)
        ensures
            r matches Ok(id) && id.wf() && id.keypair_view().seed() == exportable.secret_key@,
    {
        Identity::from_secret_bytes(&exportable.secret_key)
    }
}

} // verus!
