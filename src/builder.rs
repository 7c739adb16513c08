use vstd::prelude::*;
use vstd::string::StringSliceAdditionalSpecFns;
use crate::circuit::{Circuit, CircuitId, CircuitNode, CircuitPurpose, CircuitState, RelayCell, RelayCellType};
use crate::cell_codec::cell_bytes;
use crate::crypto::{backward_label, forward_label, layer_views, onion_open, LayerCrypto, OnionCrypto};
use crate::encoding::blake3_keyed_of;
use crate::keys::PublicKey;
use crate::messages::{CircuitCreatedMessage, CreateCircuitMessage};
use crate::node_id::NodeId;

verus! {

/// X25519 of a scalar and a point, both 32 bytes.
pub uninterp spec fn x25519_of(k: Seq<u8>, u: Seq<u8>) -> Seq<u8>;

/// The X25519 base point: 9 followed by zeros.
pub open spec fn basepoint() -> Seq<u8> {
    Seq::new(32, |i: int| if i == 0 { 9u8 } else { 0u8 })
}

/// Relies on `x25519_dalek::x25519`, a function of its arguments. As its
/// documentation shows, two parties that exchange `x25519(secret,
/// basepoint)` and apply their own secret to the other's value agree.
#[verifier::external_body]
fn x25519(k: &[u8; 32], u: &[u8; 32]) -> (r: [u8; 32])
    ensures
        r@ == x25519_of(k@, u@),
        forall|b: Seq<u8>| b.len() == 32 && u@ == #[trigger] x25519_of(b, basepoint()) ==> r@ == x25519_of(b, x25519_of(k@, basepoint())),
{
    x25519_dalek::x25519(*k, *u)
}

fn basepoint_bytes() -> (r: [u8; 32])
    ensures
        r@ == basepoint(),
{
    let mut b = [0u8; 32];
    b[0] = 9;
    assert(b@ =~= basepoint());
    b
}

/// A one-shot X25519 key pair: `diffie_hellman` consumes it, and it is not
/// `Clone`, so the secret serves one exchange only.
#[derive(Debug)]
pub struct EphemeralKeyPair {
    secret: [u8; 32],
    public: [u8; 32],
}

impl EphemeralKeyPair {
    pub closed spec fn secret_view(&self) -> Seq<u8> {
        self.secret@
    }

    pub closed spec fn public_view(&self) -> Seq<u8> {
        self.public@
    }

    pub open spec fn wf(&self) -> bool {
        self.public_view() == x25519_of(self.secret_view(), basepoint())
    }

    /// A fresh key pair from random bytes.
    pub fn generate() -> (r: EphemeralKeyPair)
        ensures
            r.wf(),
    {
        let secret = crate::random::random_array::<32>();
        EphemeralKeyPair::from_secret(secret)
    }

    /// The key pair of a given secret.
    pub fn from_secret(secret: [u8; 32]) -> (r: EphemeralKeyPair)
        ensures
            r.wf(),
            r.secret_view() == secret@,
    {
        let base = basepoint_bytes();
        let public = x25519(&secret, &base);
        EphemeralKeyPair { secret, public }
    }

    pub fn public_key_bytes(&self) -> (r: [u8; 32])
        ensures
            r@ == self.public_view(),
    {
        self.public
    }

    /// The shared secret with `their_public`; the key pair is used up.
    pub fn diffie_hellman(self, their_public: &[u8; 32]) -> (r: [u8; 32])
        ensures
            r@ == x25519_of(self.secret_view(), their_public@),
            self.wf() ==> forall|b: Seq<u8>|
                b.len() == 32 && their_public@ == #[trigger] x25519_of(b, basepoint()) ==> r@ == x25519_of(b, self.public_view()),
    {
        x25519(&self.secret, their_public)
    }
}

/// Domain-separation label of the forward nonce base.
pub open spec fn forward_nonce_label() -> Seq<u8> {
    "ANONNET-CIRCUIT-FORWARD-NONCE-V1".spec_bytes()
}

/// Domain-separation label of the backward nonce base.
pub open spec fn backward_nonce_label() -> Seq<u8> {
    "ANONNET-CIRCUIT-BACKWARD-NONCE-V1".spec_bytes()
}

/// The first 12 bytes of a 32-byte digest.
fn first_twelve(d: &[u8; 32]) -> (r: [u8; 12])
    ensures
        r@ == d@.subrange(0, 12),
{
    let mut out = [0u8; 12];
    let mut i: usize = 0;
    while i < 12
        invariant
            0 <= i <= 12,
            forall|j: int| 0 <= j < i ==> out@[j] == d@[j],
        decreases 12 - i,
    {
        out[i] = d[i];
        i = i + 1;
    }
    assert(out@ =~= d@.subrange(0, 12));
    out
}

/// The layer pair of a hop from the DH secret it shares with the
/// originator. Keys and nonce bases both come from the secret, so the two
/// ends of the hop hold the same pair.
pub fn derive_hop_layers(shared: &[u8; 32]) -> (r: (LayerCrypto, LayerCrypto))
    ensures
        r.0.key_view() == blake3_keyed_of(shared@, forward_label()),
        r.1.key_view() == blake3_keyed_of(shared@, backward_label()),
        r.0.base_view() == blake3_keyed_of(shared@, forward_nonce_label()).subrange(0, 12),
        r.1.base_view() == blake3_keyed_of(shared@, backward_nonce_label()).subrange(0, 12),
        r.0.count() == 0,
        r.1.count() == 0,
{
    let fwd_nonce = crate::encoding::blake3_keyed_digest(shared, "ANONNET-CIRCUIT-FORWARD-NONCE-V1".as_bytes());
    let bwd_nonce = crate::encoding::blake3_keyed_digest(shared, "ANONNET-CIRCUIT-BACKWARD-NONCE-V1".as_bytes());
    OnionCrypto::derive_bidirectional_keys_with_bases(shared, first_twelve(&fwd_nonce), first_twelve(&bwd_nonce))
}

/// The payload of an `Extend` cell: the next hop's id, then the new key.
pub open spec fn extend_payload(next_hop: NodeId, key: Seq<u8>) -> Seq<u8> {
    next_hop.0@ + key
}

/// `c` is the `Extend` cell that asks for `next_hop` with key `key`.
pub open spec fn is_extend_cell(c: RelayCell, next_hop: NodeId, key: Seq<u8>) -> bool {
    &&& c.cell_type == RelayCellType::Extend
    &&& c.stream_id == 0
    &&& c.sequence == 0
    &&& c.payload@ == extend_payload(next_hop, key)
    &&& c.digest_ok()
}

/// An `Extend` payload splits back into the id and the key it was made of.
pub proof fn lemma_extend_payload_split(next_hop: NodeId, key: Seq<u8>)
    ensures
        extend_payload(next_hop, key).len() == 32 + key.len(),
        extend_payload(next_hop, key).subrange(0, 32) == next_hop.0@,
        extend_payload(next_hop, key).subrange(32, 32 + key.len() as int) == key,
{
    assert(extend_payload(next_hop, key).subrange(0, 32) =~= next_hop.0@);
    assert(extend_payload(next_hop, key).subrange(32, 32 + key.len() as int) =~= key);
}

/// The `Extend` cell that carries an extension request to the circuit's
/// current exit: the next hop's id and the new ephemeral key.
pub fn extend_cell(request: &CreateCircuitMessage) -> (r: Option<RelayCell>)
    ensures
        r is Some <==> (request.next_hop is Some && (request.encrypted_payload matches Some(p) && p@.len() == 32)),
        r matches Some(c) ==> is_extend_cell(c, request.next_hop.unwrap(), request.encrypted_payload.unwrap()@),
{
    let next_hop = match request.next_hop {
        Some(h) => h,
        None => {
            return None;
        },
    };
    let key = match &request.encrypted_payload {
        Some(p) => p,
        None => {
            return None;
        },
    };
    if key.len() != 32 {
        return None;
    }
    let mut payload = crate::encoding::bytes_to_vec(&next_hop.0);
    let mut i: usize = 0;
    let ghost head = payload@;
    while i < key.len()
        invariant
            0 <= i <= key@.len(),
            head == next_hop.0@,
            payload@ == head + key@.subrange(0, i as int),
        decreases key@.len() - i,
    {
        payload.push(key[i]);
        i = i + 1;
        proof {
            assert(head + key@.subrange(0, i as int) =~= (head + key@.subrange(0, i - 1)).push(key@[i - 1]));
        }
    }
    assert(key@.subrange(0, key@.len() as int) =~= key@);
    let mut cell = RelayCell::new(RelayCellType::Extend, 0, payload);
    cell.set_digest();
    Some(cell)
}

/// At the exit: the request that an `Extend` cell on `circuit_id` carries,
/// to be sent on to the next hop; `None` for any other cell.
pub fn request_from_extend(circuit_id: crate::messages::CircuitId, cell: &RelayCell) -> (r: Option<CreateCircuitMessage>)
    ensures
        r is Some <==> (cell.cell_type == RelayCellType::Extend && cell.payload@.len() == 64),
        r matches Some(m) ==> m.circuit_id == circuit_id && (m.next_hop matches Some(h) && h.0@ == cell.payload@.subrange(0, 32))
            && (m.encrypted_payload matches Some(p) && p@ == cell.payload@.subrange(32, 64)),
{
    if cell.cell_type != RelayCellType::Extend || cell.payload.len() != 64 {
        return None;
    }
    let mut id = [0u8; 32];
    let mut key: Vec<u8> = Vec::new();
    let mut i: usize = 0;
    while i < 32
        invariant
            0 <= i <= 32,
            cell.payload@.len() == 64,
            forall|j: int| 0 <= j < i ==> id@[j] == cell.payload@[j],
            key@ == cell.payload@.subrange(32, 32 + i),
        decreases 32 - i,
    {
        id[i] = cell.payload[i];
        key.push(cell.payload[32 + i]);
        i = i + 1;
        proof {
            assert(cell.payload@.subrange(32, 32 + i) =~= cell.payload@.subrange(32, 32 + i - 1).push(cell.payload@[32 + i - 1]));
        }
    }
    assert(id@ =~= cell.payload@.subrange(0, 32));
    Some(CreateCircuitMessage { circuit_id, next_hop: Some(NodeId(id)), encrypted_payload: Some(key) })
}

/// The forward layers of a circuit's hops, first hop first.
pub open spec fn forward_layers(nodes: Seq<CircuitNode>) -> Seq<LayerCrypto> {
    nodes.map_values(|n: CircuitNode| n.forward_crypto)
}

/// `b` is `a` but for the forward layers of its hops.
pub open spec fn same_but_forward(a: Circuit, b: Circuit) -> bool {
    &&& b == (Circuit { nodes: b.nodes, ..a })
    &&& b.nodes@.len() == a.nodes@.len()
    &&& forall|i: int| 0 <= i < a.nodes@.len() ==> #[trigger] b.nodes@[i] == (CircuitNode { forward_crypto: b.nodes@[i].forward_crypto, ..a.nodes@[i] })
}

/// Peeling `c` with `layers`, first one outermost, gives the `Extend` cell
/// for `next_hop` and `key`.
pub open spec fn carries_extend(layers: Seq<LayerCrypto>, c: Seq<u8>, next_hop: NodeId, key: Seq<u8>) -> bool {
    exists|cell: RelayCell|
        is_extend_cell(cell, next_hop, key) && onion_open(layer_views(layers), c) == Some(#[trigger] cell_bytes(cell))
}

/// A hop being added: who it is and the secret of our side of the exchange.
#[derive(Debug)]
pub struct PendingHop {
    pub node_id: NodeId,
    pub public_key: PublicKey,
    pub ephemeral: EphemeralKeyPair,
}

/// Failures of circuit construction.
#[derive(Debug, Clone, Copy, PartialEq, Eq, Structural)]
pub enum BuildError {
    /// An extension is already waiting for its reply.
    ExtensionPending,
    /// A reply came with no extension waiting.
    NoExtensionPending,
    /// The peer reported failure; the circuit is marked failed.
    PeerFailed,
    /// The reply carried no key.
    MissingKey,
    /// The node is already on the circuit.
    DuplicateHop,
    EmptyCircuit,
    /// A forward layer could not seal the cell.
    EncryptionFailed,
}

/// `msg` asks `node_id` (key `public_key`) to join circuit `c`, carrying the
/// public half of the key pair now waiting in `pending`.
pub open spec fn extension_begun(
    msg: CreateCircuitMessage,
    c: Circuit,
    pending: Option<PendingHop>,
    node_id: NodeId,
    public_key: PublicKey,
) -> bool {
    match pending {
        Some(p) => {
            &&& msg.circuit_id.0 == c.id.0
            &&& (msg.next_hop is None <==> c.nodes@.len() == 0)
            &&& p.node_id == node_id
            &&& p.public_key == public_key
            &&& p.ephemeral.wf()
            &&& match msg.encrypted_payload {
                Some(v) => v@ == p.ephemeral.public_view(),
                None => false,
            }
        },
        None => false,
    }
}

/// The waiting hop was appended to `before`, keyed from the exchange of its
/// secret with the key in `reply`.
pub open spec fn hop_added(before: Circuit, after: Circuit, pending: Option<PendingHop>, reply: CircuitCreatedMessage) -> bool {
    match (pending, reply.public_key) {
        (Some(p), Some(theirs)) => {
            &&& after.nodes@.len() == before.nodes@.len() + 1
            &&& after.nodes@.last().node_id == p.node_id
            &&& after.nodes@.last().public_key == p.public_key
            &&& after.nodes@.last().forward_crypto.key_view() == blake3_keyed_of(
                x25519_of(p.ephemeral.secret_view(), theirs@),
                forward_label(),
            )
            &&& after.nodes@.last().backward_crypto.key_view() == blake3_keyed_of(
                x25519_of(p.ephemeral.secret_view(), theirs@),
                backward_label(),
            )
        },
        _ => false,
    }
}

/// The responder's side of a hop handshake with secret `s`: `pk` is its
/// public key, and the layer pair comes from the secret shared with `theirs`.
pub open spec fn responder_layers(theirs: Seq<u8>, s: Seq<u8>, pk: Seq<u8>, l: (LayerCrypto, LayerCrypto)) -> bool {
    let shared = x25519_of(s, theirs);
    &&& pk == x25519_of(s, basepoint())
    &&& l.0.key_view() == blake3_keyed_of(shared, forward_label())
    &&& l.1.key_view() == blake3_keyed_of(shared, backward_label())
    &&& l.0.base_view() == blake3_keyed_of(shared, forward_nonce_label()).subrange(0, 12)
    &&& l.1.base_view() == blake3_keyed_of(shared, backward_nonce_label()).subrange(0, 12)
    &&& l.0.count() == 0
    &&& l.1.count() == 0
}

/// A successful answer to `m` with secret `s`: its key and layers are those
/// of `responder_layers`.
pub open spec fn responded_with(
    m: CreateCircuitMessage,
    r: (CircuitCreatedMessage, Option<(LayerCrypto, LayerCrypto)>),
    s: Seq<u8>,
) -> bool {
    match (m.encrypted_payload, r.0.public_key, r.1) {
        (Some(p), Some(pk), Some(l)) => responder_layers(p@, s, pk@, l),
        _ => false,
    }
}

/// A hop of `c` belongs to node `id`.
pub open spec fn on_circuit(c: Circuit, id: NodeId) -> bool {
    exists|i: int| 0 <= i < c.nodes@.len() && c.nodes@[i].node_id == id
}

/// Extends a circuit one hop at a time.
#[derive(Debug)]
pub struct CircuitBuilder {
    circuit: Circuit,
    pending: Option<PendingHop>,
}

impl CircuitBuilder {
    pub closed spec fn circuit_view(&self) -> Circuit {
        self.circuit
    }

    pub closed spec fn pending_view(&self) -> Option<PendingHop> {
        self.pending
    }

    pub open spec fn wf(&self) -> bool {
        &&& self.circuit_view().wf()
        &&& (self.pending_view() matches Some(p) ==> p.ephemeral.wf())
    }

    pub fn new(circuit_id: CircuitId, purpose: CircuitPurpose) -> (r: CircuitBuilder)
        ensures
            r.wf(),
            r.circuit_view().id == circuit_id,
            r.circuit_view().nodes@.len() == 0,
            r.circuit_view().state == CircuitState::Building,
            r.pending_view() is None,
    {
        CircuitBuilder { circuit: Circuit::new(circuit_id, purpose), pending: None }
    }

    pub fn circuit(&self) -> (r: &Circuit)
        ensures
            *r == self.circuit_view(),
    {
        &self.circuit
    }

    pub fn circuit_id(&self) -> (r: CircuitId)
        ensures
            r == self.circuit_view().id,
    {
        self.circuit.id
    }

    /// Starts adding `node_id`: a fresh key pair is made and its public half
    /// goes out in the request. The first hop gets it directly (`next_hop`
    /// empty); for a later hop, `extension_onion` wraps it as an `Extend`
    /// cell in the forward layers of the hops already there.
    pub fn begin_extend(&mut self, node_id: NodeId, public_key: PublicKey) -> (r: Result<CreateCircuitMessage, BuildError>)
        requires
            old(self).wf(),
        ensures
            final(self).wf(),
            final(self).circuit_view() == old(self).circuit_view(),
            old(self).pending_view() is Some ==> r == Err::<CreateCircuitMessage, BuildError>(BuildError::ExtensionPending)
                && final(self).pending_view() == old(self).pending_view(),
            old(self).pending_view() is None ==> (r matches Ok(msg) && extension_begun(
                msg,
                old(self).circuit_view(),
                final(self).pending_view(),
                node_id,
                public_key,
            )),
    {
        if self.pending.is_some() {
            return Err(BuildError::ExtensionPending);
        }
        let ephemeral = EphemeralKeyPair::generate();
        let ours = ephemeral.public_key_bytes();
        let payload = crate::encoding::bytes_to_vec(&ours);
        let next_hop = if self.circuit.nodes.len() == 0 { None } else { Some(node_id) };
        self.pending = Some(PendingHop { node_id, public_key, ephemeral });
        Ok(CreateCircuitMessage {
            circuit_id: crate::messages::CircuitId(self.circuit.id.0),
            next_hop,
            encrypted_payload: Some(payload),
        })
    }

    /// Wraps the `Extend` cell of `request` in the forward layers of the
    /// hops already on the circuit, first hop outermost, for the current
    /// exit to peel and pass on. Each forward layer uses one nonce; nothing
    /// else about the circuit changes.
    pub fn extension_onion(&mut self, request: &CreateCircuitMessage) -> (r: Result<Vec<u8>, BuildError>)
        requires
            old(self).wf(),
        ensures
            final(self).wf(),
            final(self).pending_view() == old(self).pending_view(),
            old(self).circuit_view().nodes@.len() == 0 ==> r == Err::<Vec<u8>, BuildError>(BuildError::EmptyCircuit)
                && final(self).circuit_view() == old(self).circuit_view(),
            old(self).circuit_view().nodes@.len() > 0 && !(request.next_hop is Some && (request.encrypted_payload matches Some(p)
                && p@.len() == 32)) ==> r == Err::<Vec<u8>, BuildError>(BuildError::MissingKey)
                && final(self).circuit_view() == old(self).circuit_view(),
            same_but_forward(old(self).circuit_view(), final(self).circuit_view()),
            r matches Ok(c) ==> carries_extend(
                forward_layers(old(self).circuit_view().nodes@),
                c@,
                request.next_hop.unwrap(),
                request.encrypted_payload.unwrap()@,
            ),
            r is Ok ==> forall|i: int|
                0 <= i < old(self).circuit_view().nodes@.len() ==> #[trigger] final(self).circuit_view().nodes@[i].forward_crypto.count()
                    == old(self).circuit_view().nodes@[i].forward_crypto.count() + 1
                    && final(self).circuit_view().nodes@[i].forward_crypto.key_view() == old(self).circuit_view().nodes@[i].forward_crypto.key_view()
                    && final(self).circuit_view().nodes@[i].forward_crypto.base_view() == old(self).circuit_view().nodes@[i].forward_crypto.base_view(),
    {
        if self.circuit.nodes.len() == 0 {
            return Err(BuildError::EmptyCircuit);
        }
        let cell = match extend_cell(request) {
            Some(c) => c,
            None => {
                return Err(BuildError::MissingKey);
            },
        };
        let ghost start = self.circuit.nodes@;
        let mut nodes: Vec<CircuitNode> = Vec::new();
        std::mem::swap(&mut nodes, &mut self.circuit.nodes);
        let mut fwd: Vec<LayerCrypto> = Vec::new();
        let mut rest: Vec<(NodeId, PublicKey, LayerCrypto, crate::types::Timestamp)> = Vec::new();
        while nodes.len() > 0
            invariant
                fwd@.len() == rest@.len(),
                fwd@.len() + nodes@.len() == start.len(),
                nodes@ == start.subrange(fwd@.len() as int, start.len() as int),
                forall|j: int| 0 <= j < fwd@.len() ==> #[trigger] fwd@[j] == start[j].forward_crypto,
                forall|j: int| 0 <= j < rest@.len() ==> #[trigger] rest@[j] == (start[j].node_id, start[j].public_key, start[j].backward_crypto, start[j].added_at),
            decreases nodes@.len(),
        {
            let ghost k = fwd@.len() as int;
            let n = nodes.remove(0);
            proof {
                assert(n == start[k]);
                assert(nodes@ =~= start.subrange(k + 1, start.len() as int));
            }
            fwd.push(n.forward_crypto);
            rest.push((n.node_id, n.public_key, n.backward_crypto, n.added_at));
        }
        assert(fwd@ =~= forward_layers(start));
        let ghost layers0 = fwd@;
        let sealed = OnionCrypto::encrypt_cell_for_circuit(&mut fwd, &cell);
        let ghost layers1 = fwd@;
        let mut out: Vec<CircuitNode> = Vec::new();
        let n = rest.len();
        let ghost rest0 = rest@;
        let mut k: usize = 0;
        proof {
            assert(rest@ =~= rest0.subrange(0, n as int));
            assert(fwd@ =~= layers1.subrange(0, n as int));
        }
        while k < n
            invariant
                n == start.len(),
                rest0.len() == n,
                layers1.len() == n,
                forall|j: int| 0 <= j < n ==> #[trigger] rest0[j] == (start[j].node_id, start[j].public_key, start[j].backward_crypto, start[j].added_at),
                0 <= k <= n,
                rest@ == rest0.subrange(k as int, n as int),
                fwd@ == layers1.subrange(k as int, n as int),
                out@.len() == k,
                forall|j: int| 0 <= j < k ==> #[trigger] out@[j] == (CircuitNode { forward_crypto: layers1[j], ..start[j] }),
            decreases n - k,
        {
            let (node_id, public_key, backward_crypto, added_at) = rest.remove(0);
            let forward_crypto = fwd.remove(0);
            proof {
                assert(rest0[k as int] == (node_id, public_key, backward_crypto, added_at));
                assert(forward_crypto == layers1[k as int]);
                assert(rest@ =~= rest0.subrange(k + 1, n as int));
                assert(fwd@ =~= layers1.subrange(k + 1, n as int));
            }
            out.push(CircuitNode { node_id, public_key, forward_crypto, backward_crypto, added_at });
            k = k + 1;
        }
        self.circuit.nodes = out;
        proof {
            assert forall|i: int| 0 <= i < start.len() implies #[trigger] self.circuit.nodes@[i] == (CircuitNode {
                forward_crypto: self.circuit.nodes@[i].forward_crypto,
                ..start[i]
            }) by {}
            assert forall|i: int, j: int| 0 <= i < j < self.circuit.nodes@.len() implies self.circuit.nodes@[i].node_id
                != self.circuit.nodes@[j].node_id by {
                assert(self.circuit.nodes@[i].node_id == start[i].node_id);
                assert(self.circuit.nodes@[j].node_id == start[j].node_id);
            }
            if sealed is Ok {
                assert(is_extend_cell(cell, request.next_hop.unwrap(), request.encrypted_payload.unwrap()@));
            }
        }
        match sealed {
            Ok(c) => Ok(c),
            Err(_) => Err(BuildError::EncryptionFailed),
        }
    }

    /// Completes the waiting extension with the peer's reply: on success the
    /// shared secret gives the hop's layers and the hop is appended (a
    /// building circuit becomes ready at `MIN_CIRCUIT_LENGTH` hops); on
    /// failure the circuit is marked failed.
    pub fn on_created(&mut self, reply: &CircuitCreatedMessage) -> (r: Result<(), BuildError>)
        requires
            old(self).wf(),
        ensures
            final(self).wf(),
            final(self).pending_view() is None || r == Err::<(), BuildError>(BuildError::NoExtensionPending),
            old(self).pending_view() is None ==> r == Err::<(), BuildError>(BuildError::NoExtensionPending)
                && final(self).circuit_view() == old(self).circuit_view(),
            old(self).pending_view() is Some && !reply.success ==> r == Err::<(), BuildError>(BuildError::PeerFailed)
                && final(self).circuit_view().state == (if old(self).circuit_view().state == CircuitState::Closed {
                CircuitState::Closed
            } else {
                CircuitState::Failed
            }),
            r is Ok ==> hop_added(old(self).circuit_view(), final(self).circuit_view(), old(self).pending_view(), *reply),
            old(self).pending_view() is Some && reply.success && reply.public_key is None ==> r == Err::<(), BuildError>(
                BuildError::MissingKey,
            ),
            (old(self).pending_view() matches Some(p) && reply.success && reply.public_key is Some
                && !on_circuit(old(self).circuit_view(), p.node_id)) ==> r is Ok,
            (old(self).pending_view() matches Some(p) && reply.success && reply.public_key is Some
                && on_circuit(old(self).circuit_view(), p.node_id)) ==> r == Err::<(), BuildError>(BuildError::DuplicateHop),
    {
        let pending = match self.pending.take() {
            None => {
                return Err(BuildError::NoExtensionPending);
            },
            Some(p) => p,
        };
        if !reply.success {
            self.circuit.mark_failed();
            return Err(BuildError::PeerFailed);
        }
        let theirs = match reply.public_key {
            None => {
                self.circuit.mark_failed();
                return Err(BuildError::MissingKey);
            },
            Some(k) => k,
        };
        let PendingHop { node_id, public_key, ephemeral } = pending;
        let shared = ephemeral.diffie_hellman(&theirs);
        let (forward, backward) = derive_hop_layers(&shared);
        let node = CircuitNode::new(node_id, public_key, forward, backward);
        match self.circuit.add_node(node) {
            Ok(()) => Ok(()),
            Err(_) => {
                self.circuit.mark_failed();
                Err(BuildError::DuplicateHop)
            },
        }
    }

    /// The peer did not answer in time or refused: the circuit is failed.
    pub fn on_failed(&mut self)
        requires
            old(self).wf(),
        ensures
            final(self).wf(),
            final(self).pending_view() is None,
            final(self).circuit_view().state == (if old(self).circuit_view().state == CircuitState::Closed {
                CircuitState::Closed
            } else {
                CircuitState::Failed
            }),
    {
        self.pending = None;
        self.circuit.mark_failed();
    }

    /// The built circuit; refused while it has no hop.
    pub fn build(self) -> (r: Result<Circuit, BuildError>)
        requires
            self.wf(),
        ensures
            r matches Ok(c) ==> c == self.circuit_view() && c.nodes@.len() > 0 && c.wf(),
            r is Err <==> self.circuit_view().nodes@.len() == 0,
    {
        if self.circuit.nodes.len() == 0 {
            return Err(BuildError::EmptyCircuit);
        }
        Ok(self.circuit)
    }
}

/// The responder's half of a hop handshake: a fresh key pair, the shared
/// secret with the initiator's key, and the layer pair from it. A request
/// without a 32-byte key is answered with failure.
pub fn handle_create_circuit(message: &CreateCircuitMessage) -> (r: (CircuitCreatedMessage, Option<(LayerCrypto, LayerCrypto)>))
    ensures
        r.0.circuit_id == message.circuit_id,
        r.0.success <==> (message.encrypted_payload matches Some(p) && p@.len() == 32),
        r.0.success ==> r.1 is Some && r.0.public_key is Some,
        !r.0.success ==> r.1 is None && r.0.public_key is None,
        r.0.success ==> exists|s: Seq<u8>| #[trigger] responded_with(*message, r, s),
{
    let theirs: [u8; 32] = match &message.encrypted_payload {
        Some(p) => {
            if p.len() != 32 {
                return (CircuitCreatedMessage { circuit_id: message.circuit_id, success: false, public_key: None }, None);
            }
            let mut b = [0u8; 32];
            let mut i: usize = 0;
            while i < 32
                invariant
                    0 <= i <= 32,
                    p@.len() == 32,
                    forall|j: int| 0 <= j < i ==> b@[j] == p@[j],
                decreases 32 - i,
            {
                b[i] = p[i];
                i = i + 1;
            }
            assert(b@ =~= p@);
            b
        },
        None => {
            return (CircuitCreatedMessage { circuit_id: message.circuit_id, success: false, public_key: None }, None);
        },
    };
    let ours = EphemeralKeyPair::generate();
    let ghost s = ours.secret_view();
    let our_public = ours.public_key_bytes();
    let shared = ours.diffie_hellman(&theirs);
    let layers = derive_hop_layers(&shared);
    assert(responder_layers(theirs@, s, our_public@, layers));
    let r = (CircuitCreatedMessage { circuit_id: message.circuit_id, success: true, public_key: Some(our_public) }, Some(layers));
    assert(responded_with(*message, r, s));
    r
}

} // verus!
