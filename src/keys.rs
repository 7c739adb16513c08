use vstd::prelude::*;
use ed25519_dalek::{Signer, Verifier};

verus! {

/// Ed25519 public key (32 bytes) of a 32-byte secret seed.
pub uninterp spec fn ed25519_public_of(seed: Seq<u8>) -> Seq<u8>;

/// Ed25519 signature (64 bytes) of a message under a 32-byte secret seed.
pub uninterp spec fn ed25519_signature_of(seed: Seq<u8>, msg: Seq<u8>) -> Seq<u8>;

/// Whether 32 bytes decode to an Ed25519 public key.
pub uninterp spec fn ed25519_key_valid(key: Seq<u8>) -> bool;

/// Whether a signature checks for a message under a public key.
pub uninterp spec fn ed25519_accepts(key: Seq<u8>, msg: Seq<u8>, sig: Seq<u8>) -> bool;

/// Relies on `ed25519_dalek::SigningKey::from_bytes` and `verifying_key`:
/// the public key of a seed, a function of the seed alone.
#[verifier::external_body]
fn ed25519_public(seed: &[u8; 32]) -> (r: [u8; 32])
    ensures
        r@ == ed25519_public_of(seed@),
{
    ed25519_dalek::SigningKey::from_bytes(seed).verifying_key().to_bytes()
}

/// Relies on `ed25519_dalek::SigningKey::sign`: deterministic Ed25519, a
/// function of the seed and the message alone.
#[verifier::external_body]
fn ed25519_sign(seed: &[u8; 32], msg: &[u8]) -> (r: [u8; 64])
    ensures
        r@ == ed25519_signature_of(seed@, msg@),
{
    ed25519_dalek::SigningKey::from_bytes(seed).sign(msg).to_bytes()
}

/// Relies on `ed25519_dalek::VerifyingKey::from_bytes`: whether the bytes decode to a key.
#[verifier::external_body]
fn ed25519_key_check(key: &[u8; 32]) -> (r: bool)
    ensures
        r == ed25519_key_valid(key@),
{
    ed25519_dalek::VerifyingKey::from_bytes(key).is_ok()
}

/// Relies on `ed25519_dalek::VerifyingKey::verify`. A signature made with a
/// seed checks under the public key of that seed.
#[verifier::external_body]
fn ed25519_verify(key: &[u8; 32], msg: &[u8], sig: &[u8; 64]) -> (r: bool)
    ensures
        r == ed25519_accepts(key@, msg@, sig@),
        forall|seed: Seq<u8>|
            seed.len() == 32 && key@ == #[trigger] ed25519_public_of(seed) && sig@ == ed25519_signature_of(seed, msg@)
                ==> r,
{
    match ed25519_dalek::VerifyingKey::from_bytes(key) {
        Ok(k) => k.verify(msg, &ed25519_dalek::Signature::from_bytes(sig)).is_ok(),
        Err(_) => false,
    }
}

/// An Ed25519 public key.
#[derive(Debug, Clone, Copy, Eq, Hash)]
pub struct PublicKey {
    pub bytes: [u8; 32],
}

impl PartialEq for PublicKey {
    fn eq(&self, other: &PublicKey) -> (r: bool) {
        crate::node_id::bytes32_equal(&self.bytes, &other.bytes)
    }
}

impl vstd::std_specs::cmp::PartialEqSpecImpl for PublicKey {
    open spec fn obeys_eq_spec() -> bool {
        true
    }

    open spec fn eq_spec(&self, other: &PublicKey) -> bool {
        *self == *other
    }
}

impl PublicKey {
    /// Accepts 32 bytes that decode to a key.
    pub fn from_bytes(bytes: &[u8; 32]) -> (r: Result<PublicKey, KeyPairError>)
        ensures
            ed25519_key_valid(bytes@) ==> r == Ok::<PublicKey, KeyPairError>(PublicKey { bytes: *bytes }),
            !ed25519_key_valid(bytes@) ==> r == Err::<PublicKey, KeyPairError>(KeyPairError::InvalidPublicKey),
    {
        if ed25519_key_check(bytes) {
            Ok(PublicKey { bytes: *bytes })
        } else {
            Err(KeyPairError::InvalidPublicKey)
        }
    }

    pub fn as_bytes(&self) -> (r: [u8; 32])
        ensures
            r == self.bytes,
    {
        self.bytes
    }

    /// Whether `signature` is a signature of `message` under this key.
    pub fn verify(&self, message: &[u8], signature: &[u8; 64]) -> (r: bool)
        ensures
            r == ed25519_accepts(self.bytes@, message@, signature@),
            forall|seed: Seq<u8>|
                seed.len() == 32 && self.bytes@ == #[trigger] ed25519_public_of(seed) && signature@ == ed25519_signature_of(
                    seed,
                    message@,
                ) ==> r,
    {
        ed25519_verify(&self.bytes, message, signature)
    }
}

/// An Ed25519 key pair, kept as its secret seed and its public key.
#[derive(Debug, Clone)]
pub struct KeyPair {
    secret: [u8; 32],
    public: PublicKey,
}

impl KeyPair {
    /// A 32-byte seed, and the public half is the key of the seed.
    pub open spec fn wf(&self) -> bool {
        &&& self.seed().len() == 32
        &&& self.public_view().bytes@ == ed25519_public_of(self.seed())
    }

    pub closed spec fn seed(&self) -> Seq<u8> {
        self.secret@
    }

    pub closed spec fn public_view(&self) -> PublicKey {
        self.public
    }

    /// A key pair from fresh random bytes.
    pub fn generate() -> (r: KeyPair)
        ensures
            r.wf(),
    {
        let seed = crate::random::random_array::<32>();
        KeyPair::from_seed(&seed)
    }

    /// The key pair of a 32-byte seed.
    pub fn from_seed(seed: &[u8; 32]) -> (r: KeyPair)
        ensures
            r.wf(),
            r.seed() == seed@,
    {
        let public = PublicKey { bytes: ed25519_public(seed) };
        KeyPair { secret: *seed, public }
    }

    /// Any 32 bytes are a valid secret seed.
    pub fn from_secret_bytes(bytes: &[u8; 32]) -> (r: Result<KeyPair, KeyPairError>)
        ensures
            r matches Ok(k) && k.wf() && k.seed() == bytes@,
    {
        Ok(KeyPair::from_seed(bytes))
    }

    pub fn secret_bytes(&self) -> (r: [u8; 32])
        ensures
            r@ == self.seed(),
    {
        self.secret
    }

    pub fn public_bytes(&self) -> (r: [u8; 32])
        ensures
            r == self.public_view().bytes,
    {
        self.public.bytes
    }

    pub fn public_key(&self) -> (r: PublicKey)
        ensures
            r == self.public_view(),
    {
        self.public
    }

    pub fn sign(&self, message: &[u8]) -> (r: [u8; 64])
        ensures
            r@ == ed25519_signature_of(self.seed(), message@),
    {
        ed25519_sign(&self.secret, message)
    }

    pub fn verify(&self, message: &[u8], signature: &[u8; 64]) -> (r: bool)
        ensures
            r == ed25519_accepts(self.public_view().bytes@, message@, signature@),
            self.wf() && signature@ == ed25519_signature_of(self.seed(), message@) ==> r,
    {
        self.public.verify(message, signature)
    }
}

/// Errors of key handling.
#[derive(Debug, Clone, Copy, PartialEq, Eq, Structural)]
pub enum KeyPairError {
    InvalidSecretKey,
    InvalidPublicKey,
    InvalidSignature,
}

} // verus!
