use vstd::prelude::*;
use crate::encoding::{blake3_keyed_digest, blake3_keyed_of};
use crate::pow::{le_bytes, u64_le_bytes};
use chacha20poly1305::aead::{Aead, KeyInit};
use vstd::string::StringSliceAdditionalSpecFns;

verus! {

/// ChaCha20-Poly1305 ciphertext of a plaintext under a key and a nonce, no AAD.
pub uninterp spec fn aead_seal_of(key: Seq<u8>, nonce: Seq<u8>, plaintext: Seq<u8>) -> Seq<u8>;

/// ChaCha20-Poly1305 opening of a ciphertext under a key and a nonce: the
/// plaintext, or `None` where the tag does not check.
pub uninterp spec fn aead_open_of(key: Seq<u8>, nonce: Seq<u8>, ciphertext: Seq<u8>) -> Option<Seq<u8>>;

/// Longest plaintext that ChaCha20-Poly1305 takes in one call, exclusive.
pub const AEAD_MAX_LEN: u64 = 274877906880;

/// Relies on `ChaCha20Poly1305::encrypt` (aead 0.5, chacha20poly1305 0.10): it
/// fails only on a buffer of `AEAD_MAX_LEN` bytes or more, is a function of
/// key, nonce and plaintext, appends a 16-byte tag, and `decrypt` with the
/// same key and nonce gives the plaintext back.
#[verifier::external_body]
fn aead_seal(key: &[u8; 32], nonce: &[u8; 12], plaintext: &[u8]) -> (r: Option<Vec<u8>>)
    ensures
        plaintext@.len() < AEAD_MAX_LEN ==> r is Some,
        r matches Some(c) ==> c@ == aead_seal_of(key@, nonce@, plaintext@)
            && aead_open_of(key@, nonce@, c@) == Some(plaintext@) && c@.len() == plaintext@.len() + 16,
{
    let cipher = chacha20poly1305::ChaCha20Poly1305::new(key.into());
    cipher.encrypt(chacha20poly1305::Nonce::from_slice(nonce), plaintext).ok()
}

/// Relies on `ChaCha20Poly1305::decrypt`: a function of key, nonce and ciphertext.
#[verifier::external_body]
fn aead_open(key: &[u8; 32], nonce: &[u8; 12], ciphertext: &[u8]) -> (r: Option<Vec<u8>>)
    ensures
        r is Some <==> aead_open_of(key@, nonce@, ciphertext@) is Some,
        r matches Some(p) ==> aead_open_of(key@, nonce@, ciphertext@) == Some(p@),
{
    let cipher = chacha20poly1305::ChaCha20Poly1305::new(key.into());
    cipher.decrypt(chacha20poly1305::Nonce::from_slice(nonce), ciphertext).ok()
}

/// The nonce for `counter`: the base with the counter's little-endian bytes
/// XORed into its last eight bytes.
pub open spec fn nonce_for(base: Seq<u8>, counter: u64) -> Seq<u8> {
    Seq::new(12, |i: int| if i < 4 { base[i] } else { base[i] ^ le_bytes(counter)[i - 4] })
}

/// Per-direction nonce source: a random base and a counter that only grows.
#[derive(Debug)]
pub struct NonceCounter {
    base: [u8; 12],
    counter: u64,
}

impl NonceCounter {
    pub closed spec fn base_view(&self) -> Seq<u8> {
        self.base@
    }

    pub closed spec fn count(&self) -> u64 {
        self.counter
    }

    /// A counter at zero over a random base.
    pub fn new() -> (r: NonceCounter)
        ensures
            r.count() == 0,
            r.base_view().len() == 12,
    {
        NonceCounter { base: crate::random::random_array::<12>(), counter: 0 }
    }

    /// A counter at zero over the given base.
    pub fn from_base(base: [u8; 12]) -> (r: NonceCounter)
        ensures
            r.count() == 0,
            r.base_view() == base@,
    {
        NonceCounter { base, counter: 0 }
    }

    /// A counter over `base` that has handed out `counter` nonces already.
    pub fn resume(base: [u8; 12], counter: u64) -> (r: NonceCounter)
        ensures
            r.count() == counter,
            r.base_view() == base@,
    {
        NonceCounter { base, counter }
    }

    /// The nonce for the current count, after which the count moves on by
    /// one. At `u64::MAX` the count would wrap: the call fails and changes
    /// nothing, and the circuit must be torn down.
    pub fn next_nonce(&mut self) -> (r: Result<[u8; 12], CryptoError>)
        ensures
            final(self).base_view() == old(self).base_view(),
            old(self).count() == u64::MAX ==> r == Err::<[u8; 12], CryptoError>(
                CryptoError::NonceCounterExhausted,
            ) && final(self).count() == old(self).count(),
            old(self).count() < u64::MAX ==> (r matches Ok(n) && n@ == nonce_for(
                old(self).base_view(),
                old(self).count(),
            )) && final(self).count() == old(self).count() + 1,
    {
        if self.counter == u64::MAX {
            return Err(CryptoError::NonceCounterExhausted);
        }
        let counter_bytes = u64_le_bytes(self.counter);
        let mut nonce = self.base;
        let mut i: usize = 0;
        while i < 8
            invariant
                0 <= i <= 8,
                counter_bytes@ == le_bytes(self.counter),
                forall|j: int| 0 <= j < 4 ==> nonce@[j] == self.base@[j],
                forall|j: int| 4 <= j < 4 + i ==> nonce@[j] == nonce_for(self.base@, self.counter)[j],
                forall|j: int| 4 + i <= j < 12 ==> nonce@[j] == self.base@[j],
            decreases 8 - i,
        {
            nonce[4 + i] = nonce[4 + i] ^ counter_bytes[i];
            i = i + 1;
        }
        assert(nonce@ =~= nonce_for(self.base@, self.counter));
        self.counter = self.counter + 1;
        Ok(nonce)
    }

    /// The number of nonces handed out.
    pub fn counter(&self) -> (r: u64)
        ensures
            r == self.count(),
    {
        self.counter
    }
}

/// Domain-separation label of the originator-to-exit key.
pub open spec fn forward_label() -> Seq<u8> {
    "ANONNET-CIRCUIT-FORWARD-V1".spec_bytes()
}

/// Domain-separation label of the exit-to-originator key.
pub open spec fn backward_label() -> Seq<u8> {
    "ANONNET-CIRCUIT-BACKWARD-V1".spec_bytes()
}

/// One direction of one hop: an AEAD key and its nonce counter. It is
/// deliberately not `Clone`: a copy would reuse nonces under the key.
#[derive(Debug)]
pub struct LayerCrypto {
    key: [u8; 32],
    nonce_counter: NonceCounter,
}

impl LayerCrypto {
    pub closed spec fn key_view(&self) -> Seq<u8> {
        self.key@
    }

    pub closed spec fn base_view(&self) -> Seq<u8> {
        self.nonce_counter.base_view()
    }

    pub closed spec fn count(&self) -> u64 {
        self.nonce_counter.count()
    }

    /// The nonce that the next operation uses.
    pub open spec fn next_nonce_view(&self) -> Seq<u8> {
        nonce_for(self.base_view(), self.count())
    }

    /// A layer from a key and a nonce base, its counter at zero.
    pub fn from_parts(key: [u8; 32], nonce_base: [u8; 12]) -> (r: LayerCrypto)
        ensures
            r.key_view() == key@,
            r.base_view() == nonce_base@,
            r.count() == 0,
    {
        LayerCrypto { key, nonce_counter: NonceCounter::from_base(nonce_base) }
    }

    /// A layer from a key and a nonce base that has used `counter` nonces.
    pub fn resume(key: [u8; 32], nonce_base: [u8; 12], counter: u64) -> (r: LayerCrypto)
        ensures
            r.key_view() == key@,
            r.base_view() == nonce_base@,
            r.count() == counter,
    {
        LayerCrypto { key, nonce_counter: NonceCounter::resume(nonce_base, counter) }
    }

    /// A layer keyed by `KDF(shared_secret, label)` (keyed BLAKE3), with the
    /// given nonce base.
    pub fn derive(shared_secret: &[u8; 32], label: &[u8], nonce_base: [u8; 12]) -> (r: LayerCrypto)
        ensures
            r.key_view() == blake3_keyed_of(shared_secret@, label@),
            r.base_view() == nonce_base@,
            r.count() == 0,
    {
        let key = blake3_keyed_digest(shared_secret, label);
        LayerCrypto::from_parts(key, nonce_base)
    }

    /// Encrypts with the next nonce, which is then used up. Fails where the
    /// counter is exhausted, changing nothing, or where the plaintext is too
    /// long for one AEAD call.
    pub fn encrypt(&mut self, plaintext: &[u8]) -> (r: Result<Vec<u8>, CryptoError>)
        ensures
            final(self).key_view() == old(self).key_view(),
            final(self).base_view() == old(self).base_view(),
            old(self).count() == u64::MAX ==> r == Err::<Vec<u8>, CryptoError>(
                CryptoError::NonceCounterExhausted,
            ) && final(self).count() == u64::MAX,
            old(self).count() < u64::MAX ==> final(self).count() == old(self).count() + 1,
            old(self).count() < u64::MAX && plaintext@.len() < AEAD_MAX_LEN ==> r is Ok,
            r matches Ok(c) ==> c@ == aead_seal_of(old(self).key_view(), old(self).next_nonce_view(), plaintext@)
                && aead_open_of(old(self).key_view(), old(self).next_nonce_view(), c@) == Some(plaintext@)
                && c@.len() == plaintext@.len() + 16,
            r is Err ==> r == Err::<Vec<u8>, CryptoError>(CryptoError::NonceCounterExhausted) || r
                == Err::<Vec<u8>, CryptoError>(CryptoError::EncryptionFailed),
    {
        let nonce = match self.nonce_counter.next_nonce() {
            Ok(n) => n,
            Err(e) => {
                return Err(e);
            },
        };
        match aead_seal(&self.key, &nonce, plaintext) {
            Some(c) => Ok(c),
            None => Err(CryptoError::EncryptionFailed),
        }
    }

    /// Decrypts with the next nonce, which is then used up. Fails where the
    /// counter is exhausted, changing nothing, or where the tag does not check.
    pub fn decrypt(&mut self, ciphertext: &[u8]) -> (r: Result<Vec<u8>, CryptoError>)
        ensures
            final(self).key_view() == old(self).key_view(),
            final(self).base_view() == old(self).base_view(),
            old(self).count() == u64::MAX ==> r == Err::<Vec<u8>, CryptoError>(
                CryptoError::NonceCounterExhausted,
            ) && final(self).count() == u64::MAX,
            old(self).count() < u64::MAX ==> final(self).count() == old(self).count() + 1,
            old(self).count() < u64::MAX ==> (r is Ok <==> aead_open_of(
                old(self).key_view(),
                old(self).next_nonce_view(),
                ciphertext@,
            ) is Some),
            r matches Ok(p) ==> aead_open_of(old(self).key_view(), old(self).next_nonce_view(), ciphertext@)
                == Some(p@),
    {
        let nonce = match self.nonce_counter.next_nonce() {
            Ok(n) => n,
            Err(e) => {
                return Err(e);
            },
        };
        match aead_open(&self.key, &nonce, ciphertext) {
            Some(p) => Ok(p),
            None => Err(CryptoError::DecryptionFailed),
        }
    }

    /// Nonces used so far.
    pub fn counter(&self) -> (r: u64)
        ensures
            r == self.count(),
    {
        self.nonce_counter.counter()
    }
}

/// What peeling `layers` in order, each with its next nonce, leaves of `c`.
pub open spec fn onion_open(layers: Seq<(Seq<u8>, Seq<u8>)>, c: Seq<u8>) -> Option<Seq<u8>>
    decreases layers.len(),
{
    if layers.len() == 0 {
        Some(c)
    } else {
        match aead_open_of(layers[0].0, layers[0].1, c) {
            Some(inner) => onion_open(layers.drop_first(), inner),
            None => None,
        }
    }
}

/// Peels three layers one after another: the first hop's, then the
/// second's, then the third's.
pub open spec fn peel_three(layers: Seq<(Seq<u8>, Seq<u8>)>, c: Seq<u8>) -> Option<Seq<u8>> {
    match aead_open_of(layers[0].0, layers[0].1, c) {
        Some(c1) => match aead_open_of(layers[1].0, layers[1].1, c1) {
            Some(c2) => aead_open_of(layers[2].0, layers[2].1, c2),
            None => None,
        },
        None => None,
    }
}

/// Onion layering over three hops: a payload wrapped for hops 3, 2, 1 in
/// turn (what `encrypt_onion` returns) comes back whole when hops 1, 2, 3
/// each peel their layer with the same key and nonce.
pub proof fn lemma_onion_layering(layers: Seq<(Seq<u8>, Seq<u8>)>, c: Seq<u8>, p: Seq<u8>)
    requires
        layers.len() == 3,
        onion_open(layers, c) == Some(p),
    ensures
        peel_three(layers, c) == Some(p),
{
    reveal_with_fuel(onion_open, 4);
    let l1 = layers.drop_first();
    let l2 = l1.drop_first();
    assert(l2.drop_first().len() == 0);
    assert(l1[0] == layers[1]);
    assert(l2[0] == layers[2]);
}

/// Key and next nonce of each layer.
pub open spec fn layer_views(layers: Seq<LayerCrypto>) -> Seq<(Seq<u8>, Seq<u8>)> {
    layers.map_values(|l: LayerCrypto| (l.key_view(), l.next_nonce_view()))
}

/// Layers that match the sealing ones hop for hop (the same key, nonce
/// base and counter, as both ends of a hop derive them from one shared
/// secret) open what the sealing layers sealed: peeling gives the plaintext
/// back.
pub proof fn lemma_matching_layers_open(sealing: Seq<LayerCrypto>, opening: Seq<LayerCrypto>, c: Seq<u8>, p: Seq<u8>)
    requires
        sealing.len() == opening.len(),
        forall|i: int| 0 <= i < sealing.len() ==> #[trigger] sealing[i].key_view() == opening[i].key_view()
            && sealing[i].base_view() == opening[i].base_view() && sealing[i].count() == opening[i].count(),
        onion_open(layer_views(sealing), c) == Some(p),
    ensures
        onion_open(layer_views(opening), c) == Some(p),
{
    assert(layer_views(sealing) =~= layer_views(opening)) by {
        assert forall|i: int| 0 <= i < sealing.len() implies #[trigger] layer_views(sealing)[i] == layer_views(opening)[i] by {
            assert(sealing[i].key_view() == opening[i].key_view());
        }
    }
}

/// Layered encryption over a circuit's hops.
pub struct OnionCrypto;

impl OnionCrypto {
    /// Wraps `plaintext` in one layer per hop, the last hop innermost, so
    /// that peeling the layers from the first hop on gives it back.
    pub fn encrypt_onion(layers: &mut Vec<LayerCrypto>, plaintext: &[u8]) -> (r: Result<Vec<u8>, CryptoError>)
        ensures
            final(layers)@.len() == old(layers)@.len(),
            (forall|i: int| 0 <= i < old(layers)@.len() ==> #[trigger] old(layers)@[i].count() < u64::MAX)
                && plaintext@.len() + 16 * old(layers)@.len() < AEAD_MAX_LEN ==> r is Ok,
            r matches Ok(c) ==> onion_open(layer_views(old(layers)@), c@) == Some(plaintext@),
            r matches Ok(c) ==> forall|i: int|
                0 <= i < old(layers)@.len() ==> #[trigger] final(layers)@[i].count() == old(layers)@[i].count()
                    + 1,
            r is Ok ==> forall|i: int|
                0 <= i < old(layers)@.len() ==> #[trigger] final(layers)@[i].key_view() == old(
                    layers,
                )@[i].key_view(),
            r is Ok ==> forall|i: int|
                0 <= i < old(layers)@.len() ==> #[trigger] final(layers)@[i].base_view() == old(
                    layers,
                )@[i].base_view(),
    {
        let ghost start = layers@;
        let mut data: Vec<u8> = crate::encoding::bytes_to_vec(plaintext);
        let mut i: usize = layers.len();
        let mut failure: Option<CryptoError> = None;
        assert(layer_views(start).subrange(i as int, start.len() as int) =~= Seq::<(Seq<u8>, Seq<u8>)>::empty());
        while i > 0 && failure.is_none()
            invariant
                0 <= i <= start.len(),
                layers@.len() == start.len(),
                failure is None ==> forall|j: int| 0 <= j < i ==> layers@[j] == start[j],
                forall|j: int|
                    i <= j < start.len() ==> #[trigger] layers@[j].count() == start[j].count() + 1,
                forall|j: int|
                    i <= j < start.len() ==> #[trigger] layers@[j].key_view() == start[j].key_view(),
                forall|j: int|
                    i <= j < start.len() ==> #[trigger] layers@[j].base_view() == start[j].base_view(),
                failure is None ==> onion_open(layer_views(start).subrange(i as int, start.len() as int), data@)
                    == Some(plaintext@),
                failure is None ==> data@.len() == plaintext@.len() + 16 * (start.len() - i),
                ((forall|j: int| 0 <= j < start.len() ==> #[trigger] start[j].count() < u64::MAX)
                    && plaintext@.len() + 16 * start.len() < AEAD_MAX_LEN) ==> failure is None,
            decreases i, (if failure is None { 1int } else { 0int }),
        {
            let next = layers[i - 1].encrypt(data.as_slice());
            match next {
                Ok(c) => {
                    proof {
                        let vs = layer_views(start);
                        assert(vs.subrange(i - 1, start.len() as int).drop_first() =~= vs.subrange(
                            i as int,
                            start.len() as int,
                        ));
                        assert(vs.subrange(i - 1, start.len() as int)[0] == vs[i - 1]);
                    }
                    data = c;
                    i = i - 1;
                },
                Err(e) => {
                    failure = Some(e);
                },
            }
        }
        if let Some(e) = failure {
            return Err(e);
        }
        assert(layer_views(start).subrange(0, start.len() as int) =~= layer_views(start));
        Ok(data)
    }

    /// Peels every layer in turn, the first one outermost: what the
    /// originator does to a reply that each hop wrapped going back. Fails
    /// where a layer does not open what is left.
    pub fn peel_all(layers: &mut Vec<LayerCrypto>, data: &[u8]) -> (r: Result<Vec<u8>, CryptoError>)
        ensures
            final(layers)@.len() == old(layers)@.len(),
            r matches Ok(p) ==> onion_open(layer_views(old(layers)@), data@) == Some(p@),
            (forall|i: int| 0 <= i < old(layers)@.len() ==> #[trigger] old(layers)@[i].count() < u64::MAX) && onion_open(
                layer_views(old(layers)@),
                data@,
            ) is Some ==> r is Ok,
            r is Ok ==> forall|i: int|
                0 <= i < old(layers)@.len() ==> #[trigger] final(layers)@[i].count() == old(layers)@[i].count() + 1
                    && final(layers)@[i].key_view() == old(layers)@[i].key_view()
                    && final(layers)@[i].base_view() == old(layers)@[i].base_view(),
    {
        let ghost start = layers@;
        let mut cur: Vec<u8> = crate::encoding::bytes_to_vec(data);
        let mut i: usize = 0;
        let mut failure: Option<CryptoError> = None;
        assert(layer_views(start).subrange(0, start.len() as int) =~= layer_views(start));
        while i < layers.len() && failure.is_none()
            invariant
                0 <= i <= start.len(),
                layers@.len() == start.len(),
                failure is None ==> forall|j: int| i <= j < start.len() ==> layers@[j] == start[j],
                forall|j: int| 0 <= j < i ==> #[trigger] layers@[j].count() == start[j].count() + 1,
                forall|j: int| 0 <= j < i ==> #[trigger] layers@[j].key_view() == start[j].key_view(),
                forall|j: int| 0 <= j < i ==> #[trigger] layers@[j].base_view() == start[j].base_view(),
                failure is None ==> onion_open(layer_views(start), data@) == onion_open(
                    layer_views(start).subrange(i as int, start.len() as int),
                    cur@,
                ),
                ((forall|j: int| 0 <= j < start.len() ==> #[trigger] start[j].count() < u64::MAX) && onion_open(
                    layer_views(start),
                    data@,
                ) is Some) ==> failure is None,
            decreases start.len() - i, (if failure is None { 1int } else { 0int }),
        {
            let next = layers[i].decrypt(cur.as_slice());
            proof {
                let vs = layer_views(start);
                assert(vs.subrange(i as int, start.len() as int).drop_first() =~= vs.subrange(i + 1, start.len() as int));
                assert(vs.subrange(i as int, start.len() as int)[0] == vs[i as int]);
            }
            match next {
                Ok(p) => {
                    cur = p;
                    i = i + 1;
                },
                Err(e) => {
                    failure = Some(e);
                },
            }
        }
        if let Some(e) = failure {
            return Err(e);
        }
        assert(layer_views(start).subrange(start.len() as int, start.len() as int) =~= Seq::<(Seq<u8>, Seq<u8>)>::empty());
        Ok(cur)
    }

    /// Peels one layer.
    pub fn decrypt_layer(layer: &mut LayerCrypto, ciphertext: &[u8]) -> (r: Result<Vec<u8>, CryptoError>)
        ensures
            final(layer).key_view() == old(layer).key_view(),
            final(layer).base_view() == old(layer).base_view(),
            old(layer).count() == u64::MAX ==> r == Err::<Vec<u8>, CryptoError>(CryptoError::NonceCounterExhausted)
                && final(layer).count() == u64::MAX,
            old(layer).count() < u64::MAX ==> final(layer).count() == old(layer).count() + 1,
            old(layer).count() < u64::MAX ==> (r is Ok <==> aead_open_of(
                old(layer).key_view(),
                old(layer).next_nonce_view(),
                ciphertext@,
            ) is Some),
            r matches Ok(p) ==> aead_open_of(old(layer).key_view(), old(layer).next_nonce_view(), ciphertext@)
                == Some(p@),
    {
        layer.decrypt(ciphertext)
    }

    /// The two layers of a hop from the DH secret it shares with the
    /// originator: `forward` keyed with `"ANONNET-CIRCUIT-FORWARD-V1"`,
    /// `backward` with `"ANONNET-CIRCUIT-BACKWARD-V1"`, over the given nonce bases.
    pub fn derive_bidirectional_keys_with_bases(
        shared_secret: &[u8; 32],
        forward_base: [u8; 12],
        backward_base: [u8; 12],
    ) -> (r: (LayerCrypto, LayerCrypto))
        ensures
            r.0.key_view() == blake3_keyed_of(shared_secret@, forward_label()),
            r.1.key_view() == blake3_keyed_of(shared_secret@, backward_label()),
            r.0.base_view() == forward_base@,
            r.1.base_view() == backward_base@,
            r.0.count() == 0,
            r.1.count() == 0,
    {
        let forward_label: &[u8] = "ANONNET-CIRCUIT-FORWARD-V1".as_bytes();
        let backward_label: &[u8] = "ANONNET-CIRCUIT-BACKWARD-V1".as_bytes();
        (
            LayerCrypto::derive(shared_secret, forward_label, forward_base),
            LayerCrypto::derive(shared_secret, backward_label, backward_base),
        )
    }
}

/// Cryptographic failures.
#[derive(Debug, Clone, Copy, PartialEq, Eq, Structural)]
pub enum CryptoError {
    EncryptionFailed,
    DecryptionFailed,
    InvalidKeyLength,
    NonceCounterExhausted,
    InvalidPublicKey,
}

/// An X25519 public key as 32 bytes.
#[derive(Debug, Clone, Copy, Eq)]
pub struct SerializableX25519Public(pub [u8; 32]);

impl PartialEq for SerializableX25519Public {
    fn eq(&self, other: &SerializableX25519Public) -> (r: bool) {
        crate::node_id::bytes32_equal(&self.0, &other.0)
    }
}

impl vstd::std_specs::cmp::PartialEqSpecImpl for SerializableX25519Public {
    open spec fn obeys_eq_spec() -> bool {
        true
    }

    open spec fn eq_spec(&self, other: &SerializableX25519Public) -> bool {
        *self == *other
    }
}

} // verus!
