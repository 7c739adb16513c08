use vstd::prelude::*;
use crate::config::{CIRCUIT_LIFETIME_SECS, MIN_CIRCUIT_LENGTH};
use crate::crypto::LayerCrypto;
use crate::encoding::{blake3_digest, blake3_of};
use crate::keys::PublicKey;
use crate::node_id::NodeId;
use crate::random::random_u64;
use crate::types::{sat_add, sat_sub, Timestamp};

verus! {

/// Identifier of a circuit.
#[derive(Debug, Clone, Copy, PartialEq, Eq, Structural, Hash)]
pub struct CircuitId(pub u64);

impl CircuitId {
    /// A random identifier.
    pub fn generate() -> (r: CircuitId) {
        CircuitId(random_u64())
    }

    pub fn as_u64(&self) -> (r: u64)
        ensures
            r == self.0,
    {
        self.0
    }
}

/// Lifecycle of a circuit; it only moves toward `Closed`.
#[derive(Debug, Clone, Copy, PartialEq, Eq, Structural)]
pub enum CircuitState {
    Building,
    Ready,
    Closing,
    Failed,
    Closed,
}

#[derive(Debug, Clone, Copy, PartialEq, Eq, Structural, Hash)]
pub enum CircuitPurpose {
    General,
    Testing,
    Directory,
    Rendezvous,
    Introduction,
}

/// One hop of a circuit and the two layers that it shares with the originator.
#[derive(Debug)]
pub struct CircuitNode {
    pub node_id: NodeId,
    pub public_key: PublicKey,
    pub forward_crypto: LayerCrypto,
    pub backward_crypto: LayerCrypto,
    pub added_at: Timestamp,
}

impl CircuitNode {
    pub fn new_at(
        node_id: NodeId,
        public_key: PublicKey,
        forward_crypto: LayerCrypto,
        backward_crypto: LayerCrypto,
        now: Timestamp,
    ) -> (r: CircuitNode)
        ensures
            r.node_id == node_id,
            r.public_key == public_key,
            r.forward_crypto == forward_crypto,
            r.backward_crypto == backward_crypto,
            r.added_at == now,
    {
        CircuitNode { node_id, public_key, forward_crypto, backward_crypto, added_at: now }
    }

    pub fn new(
        node_id: NodeId,
        public_key: PublicKey,
        forward_crypto: LayerCrypto,
        backward_crypto: LayerCrypto,
    ) -> (r: CircuitNode)
        ensures
            r.node_id == node_id,
            r.public_key == public_key,
            r.forward_crypto == forward_crypto,
            r.backward_crypto == backward_crypto,
    {
        CircuitNode::new_at(node_id, public_key, forward_crypto, backward_crypto, Timestamp::now())
    }
}

/// The node ids of a list of hops.
pub open spec fn hop_ids(nodes: Seq<CircuitNode>) -> Seq<NodeId> {
    nodes.map_values(|n: CircuitNode| n.node_id)
}

/// No two hops share a node id.
pub open spec fn distinct_hops(nodes: Seq<CircuitNode>) -> bool {
    forall|i: int, j: int| 0 <= i < j < nodes.len() ==> nodes[i].node_id != nodes[j].node_id
}

/// The circuit after a failure: failed, unless it was closed already.
pub open spec fn failed_version(c: Circuit) -> Circuit {
    Circuit { state: if c.state == CircuitState::Closed { CircuitState::Closed } else { CircuitState::Failed }, ..c }
}

/// An ordered path of hops.
#[derive(Debug)]
pub struct Circuit {
    pub id: CircuitId,
    pub state: CircuitState,
    pub nodes: Vec<CircuitNode>,
    pub created_at: Timestamp,
    pub last_used: Timestamp,
    pub bytes_sent: u64,
    pub bytes_received: u64,
    pub purpose: CircuitPurpose,
}

impl Circuit {
    /// A ready circuit has at least `MIN_CIRCUIT_LENGTH` hops; hops are distinct.
    pub open spec fn wf(&self) -> bool {
        &&& (self.state == CircuitState::Ready ==> self.nodes@.len() >= MIN_CIRCUIT_LENGTH)
        &&& distinct_hops(self.nodes@)
    }

    /// A new circuit, building, with no hops, created at `now`.
    pub fn new_at(id: CircuitId, purpose: CircuitPurpose, now: Timestamp) -> (r: Circuit)
        ensures
            r.wf(),
            r.id == id,
            r.purpose == purpose,
            r.state == CircuitState::Building,
            r.nodes@.len() == 0,
            r.created_at == now,
            r.last_used == now,
            r.bytes_sent == 0,
            r.bytes_received == 0,
    {
        Circuit {
            id,
            state: CircuitState::Building,
            nodes: Vec::new(),
            created_at: now,
            last_used: now,
            bytes_sent: 0,
            bytes_received: 0,
            purpose,
        }
    }

    /// A new circuit, building, with no hops.
    pub fn new(id: CircuitId, purpose: CircuitPurpose) -> (r: Circuit)
        ensures
            r.wf(),
            r.id == id,
            r.purpose == purpose,
            r.state == CircuitState::Building,
            r.nodes@.len() == 0,
            r.bytes_sent == 0,
            r.bytes_received == 0,
            r.created_at == r.last_used,
    {
        Circuit::new_at(id, purpose, Timestamp::now())
    }

    pub fn length(&self) -> (r: usize)
        ensures
            r == self.nodes@.len(),
    {
        self.nodes.len()
    }

    /// Has enough hops to carry traffic.
    pub fn is_complete(&self) -> (r: bool)
        ensures
            r == (self.nodes@.len() >= MIN_CIRCUIT_LENGTH),
    {
        self.nodes.len() >= MIN_CIRCUIT_LENGTH
    }

    pub fn is_ready(&self) -> (r: bool)
        ensures
            r == (self.state == CircuitState::Ready && self.nodes@.len() >= MIN_CIRCUIT_LENGTH),
    {
        self.state == CircuitState::Ready && self.is_complete()
    }

    /// Older than the circuit lifetime at `now`.
    pub fn is_expired_at(&self, now: Timestamp) -> (r: bool)
        ensures
            r == (sat_sub(now.0 as int, self.created_at.0 as int) > CIRCUIT_LIFETIME_SECS),
    {
        self.created_at.elapsed_at(now) > CIRCUIT_LIFETIME_SECS
    }

    /// Older than the circuit lifetime by the system clock.
    pub fn is_expired(&self) -> bool {
        self.is_expired_at(Timestamp::now())
    }

    /// May carry a new stream: ready and not expired at `now`.
    pub fn can_serve_at(&self, now: Timestamp) -> (r: bool)
        ensures
            r == (self.state == CircuitState::Ready && self.nodes@.len() >= MIN_CIRCUIT_LENGTH
                && sat_sub(now.0 as int, self.created_at.0 as int) <= CIRCUIT_LIFETIME_SECS),
    {
        self.is_ready() && !self.is_expired_at(now)
    }

    pub fn entry_node(&self) -> (r: Option<&CircuitNode>)
        ensures
            self.nodes@.len() == 0 ==> r is None,
            self.nodes@.len() > 0 ==> r == Some(&self.nodes@[0]),
    {
        if self.nodes.len() == 0 {
            None
        } else {
            Some(&self.nodes[0])
        }
    }

    pub fn exit_node(&self) -> (r: Option<&CircuitNode>)
        ensures
            self.nodes@.len() == 0 ==> r is None,
            self.nodes@.len() > 0 ==> r == Some(&self.nodes@[self.nodes@.len() - 1]),
    {
        if self.nodes.len() == 0 {
            None
        } else {
            Some(&self.nodes[self.nodes.len() - 1])
        }
    }

    /// Whether a hop with `node_id` is on the circuit.
    pub fn contains_node(&self, node_id: &NodeId) -> (r: bool)
        ensures
            r == exists|i: int| 0 <= i < self.nodes@.len() && self.nodes@[i].node_id == *node_id,
    {
        let mut i: usize = 0;
        while i < self.nodes.len()
            invariant
                0 <= i <= self.nodes@.len(),
                forall|j: int| 0 <= j < i ==> self.nodes@[j].node_id != *node_id,
            decreases self.nodes@.len() - i,
        {
            if self.nodes[i].node_id == *node_id {
                return true;
            }
            i = i + 1;
        }
        false
    }

    /// Appends a hop whose node is not yet on the circuit; a building
    /// circuit becomes ready once it has `MIN_CIRCUIT_LENGTH` hops. A hop
    /// whose node is already there is refused and handed back.
    pub fn add_node(&mut self, node: CircuitNode) -> (r: Result<(), CircuitNode>)
        requires
            old(self).wf(),
        ensures
            final(self).wf(),
            final(self).id == old(self).id,
            final(self).purpose == old(self).purpose,
            (exists|i: int| 0 <= i < old(self).nodes@.len() && old(self).nodes@[i].node_id == node.node_id)
                ==> r == Err::<(), CircuitNode>(node) && final(self).nodes@ == old(self).nodes@
                && final(self).state == old(self).state,
            !(exists|i: int| 0 <= i < old(self).nodes@.len() && old(self).nodes@[i].node_id == node.node_id)
                ==> r is Ok && final(self).nodes@ == old(self).nodes@.push(node)
                && final(self).state == (if old(self).state == CircuitState::Building
                && old(self).nodes@.len() + 1 >= MIN_CIRCUIT_LENGTH {
                CircuitState::Ready
            } else {
                old(self).state
            }),
    {
        if self.contains_node(&node.node_id) {
            return Err(node);
        }
        self.nodes.push(node);
        if self.is_complete() && self.state == CircuitState::Building {
            self.state = CircuitState::Ready;
        }
        Ok(())
    }

    pub fn mark_used_at(&mut self, now: Timestamp)
        ensures
            *final(self) == (Circuit { last_used: now, ..*old(self) }),
            final(self).last_used == now,
            final(self).nodes == old(self).nodes,
            final(self).state == old(self).state,
            final(self).bytes_sent == old(self).bytes_sent,
            final(self).bytes_received == old(self).bytes_received,
    {
        self.last_used = now;
    }

    pub fn mark_used(&mut self)
        ensures
            *final(self) == (Circuit { last_used: final(self).last_used, ..*old(self) }),
            final(self).nodes == old(self).nodes,
            final(self).state == old(self).state,
            final(self).bytes_sent == old(self).bytes_sent,
            final(self).bytes_received == old(self).bytes_received,
    {
        self.mark_used_at(Timestamp::now());
    }

    /// Counts sent bytes, saturating.
    pub fn add_sent(&mut self, bytes: u64)
        ensures
            *final(self) == (Circuit { bytes_sent: final(self).bytes_sent, last_used: final(self).last_used, ..*old(self) }),
            final(self).bytes_sent == sat_add(old(self).bytes_sent as int, bytes as int),
            final(self).nodes == old(self).nodes,
            final(self).state == old(self).state,
    {
        self.bytes_sent = self.bytes_sent.saturating_add(bytes);
        self.mark_used();
    }

    /// Counts received bytes, saturating.
    pub fn add_received(&mut self, bytes: u64)
        ensures
            *final(self) == (Circuit { bytes_received: final(self).bytes_received, last_used: final(self).last_used, ..*old(self) }),
            final(self).bytes_received == sat_add(old(self).bytes_received as int, bytes as int),
            final(self).nodes == old(self).nodes,
            final(self).state == old(self).state,
    {
        self.bytes_received = self.bytes_received.saturating_add(bytes);
        self.mark_used();
    }

    /// Drops the hops after position `keep`, as a `Truncate` at `keep` asks.
    pub fn truncate_after(&mut self, keep: usize)
        requires
            old(self).wf(),
        ensures
            final(self).wf(),
            keep < old(self).nodes@.len() ==> final(self).nodes@ == old(self).nodes@.subrange(0, keep + 1),
            keep >= old(self).nodes@.len() ==> final(self).nodes@ == old(self).nodes@,
            final(self).state == (if old(self).state == CircuitState::Ready && keep + 1
                < MIN_CIRCUIT_LENGTH && keep < old(self).nodes@.len() {
                CircuitState::Building
            } else {
                old(self).state
            }),
    {
        if keep < self.nodes.len() {
            self.nodes.truncate(keep + 1);
            if self.state == CircuitState::Ready && keep + 1 < MIN_CIRCUIT_LENGTH {
                self.state = CircuitState::Building;
            }
        }
    }

    /// Marks the circuit failed, unless it is closed already.
    pub fn mark_failed(&mut self)
        ensures
            final(self).state == (if old(self).state == CircuitState::Closed {
                CircuitState::Closed
            } else {
                CircuitState::Failed
            }),
            final(self).nodes == old(self).nodes,
            final(self).id == old(self).id,
            final(self).purpose == old(self).purpose,
            final(self).created_at == old(self).created_at,
            *final(self) == failed_version(*old(self)),
    {
        if self.state != CircuitState::Closed {
            self.state = CircuitState::Failed;
        }
    }

    /// Starts closing a building or ready circuit.
    pub fn mark_closing(&mut self)
        ensures
            final(self).state == (if old(self).state == CircuitState::Building || old(self).state
                == CircuitState::Ready {
                CircuitState::Closing
            } else {
                old(self).state
            }),
            final(self).nodes == old(self).nodes,
            final(self).id == old(self).id,
            final(self).purpose == old(self).purpose,
    {
        if self.state == CircuitState::Building || self.state == CircuitState::Ready {
            self.state = CircuitState::Closing;
        }
    }

    pub fn mark_closed(&mut self)
        ensures
            final(self).state == CircuitState::Closed,
            final(self).nodes == old(self).nodes,
            final(self).id == old(self).id,
            final(self).purpose == old(self).purpose,
    {
        self.state = CircuitState::Closed;
    }
}

#[derive(Debug, Clone, Copy, PartialEq, Eq, Structural)]
pub enum RelayCellType {
    Begin,
    Data,
    End,
    Sendme,
    Extend,
    Extended,
    Truncate,
    Truncated,
    Drop,
}

impl RelayCellType {
    pub open spec fn code_spec(&self) -> u8 {
        match self {
            RelayCellType::Begin => 0,
            RelayCellType::Data => 1,
            RelayCellType::End => 2,
            RelayCellType::Sendme => 3,
            RelayCellType::Extend => 4,
            RelayCellType::Extended => 5,
            RelayCellType::Truncate => 6,
            RelayCellType::Truncated => 7,
            RelayCellType::Drop => 8,
        }
    }

    /// The one-byte code of the type.
    pub fn code(&self) -> (r: u8)
        ensures
            r == self.code_spec(),
    {
        match self {
            RelayCellType::Begin => 0,
            RelayCellType::Data => 1,
            RelayCellType::End => 2,
            RelayCellType::Sendme => 3,
            RelayCellType::Extend => 4,
            RelayCellType::Extended => 5,
            RelayCellType::Truncate => 6,
            RelayCellType::Truncated => 7,
            RelayCellType::Drop => 8,
        }
    }

    /// The type of a one-byte code.
    pub fn from_code(code: u8) -> (r: Option<RelayCellType>)
        ensures
            r matches Some(t) ==> t.code_spec() == code,
            code <= 8 ==> r is Some,
            code > 8 ==> r is None,
    {
        match code {
            0 => Some(RelayCellType::Begin),
            1 => Some(RelayCellType::Data),
            2 => Some(RelayCellType::End),
            3 => Some(RelayCellType::Sendme),
            4 => Some(RelayCellType::Extend),
            5 => Some(RelayCellType::Extended),
            6 => Some(RelayCellType::Truncate),
            7 => Some(RelayCellType::Truncated),
            8 => Some(RelayCellType::Drop),
            _ => None,
        }
    }
}

/// Big-endian bytes of a `u16`.
pub open spec fn be16(x: u16) -> Seq<u8> {
    seq![(x / 256) as u8, (x % 256) as u8]
}

/// Big-endian bytes of a `u32`.
pub open spec fn be32(x: u32) -> Seq<u8> {
    seq![(x / 0x1000000) as u8, ((x / 0x10000) % 256) as u8, ((x / 256) % 256) as u8, (x % 256) as u8]
}

/// The bytes that a cell's digest covers.
pub open spec fn digest_input(t: RelayCellType, stream_id: u16, sequence: u32, payload: Seq<u8>) -> Seq<u8> {
    seq![t.code_spec()] + be16(stream_id) + be32(sequence) + payload
}

/// The first four bytes of the BLAKE3 digest of the cell's fields.
pub open spec fn cell_digest(t: RelayCellType, stream_id: u16, sequence: u32, payload: Seq<u8>) -> Seq<u8> {
    blake3_of(digest_input(t, stream_id, sequence, payload)).subrange(0, 4)
}

/// The unit of relay traffic.
#[derive(Debug, Clone)]
pub struct RelayCell {
    pub cell_type: RelayCellType,
    pub stream_id: u16,
    pub sequence: u32,
    pub payload: Vec<u8>,
    pub digest: [u8; 4],
}

impl RelayCell {
    /// The digest matches the contents.
    pub open spec fn digest_ok(&self) -> bool {
        self.digest@ == cell_digest(self.cell_type, self.stream_id, self.sequence, self.payload@)
    }

    /// A cell at sequence 0 with a zero digest.
    pub fn new(cell_type: RelayCellType, stream_id: u16, payload: Vec<u8>) -> (r: RelayCell)
        ensures
            r.cell_type == cell_type,
            r.stream_id == stream_id,
            r.sequence == 0,
            r.payload@ == payload@,
            r.digest@ == seq![0u8, 0u8, 0u8, 0u8],
    {
        let r = RelayCell { cell_type, stream_id, sequence: 0, payload, digest: [0;4] };
        assert(r.digest@ =~= seq![0u8, 0u8, 0u8, 0u8]);
        r
    }

    /// The digest of the cell's current fields.
    pub fn calculate_digest(&self) -> (r: [u8; 4])
        ensures
            r@ == cell_digest(self.cell_type, self.stream_id, self.sequence, self.payload@),
    {
        let mut input: Vec<u8> = Vec::new();
        input.push(self.cell_type.code());
        input.push((self.stream_id / 256) as u8);
        input.push((self.stream_id % 256) as u8);
        input.push((self.sequence / 0x1000000) as u8);
        input.push(((self.sequence / 0x10000) % 256) as u8);
        input.push(((self.sequence / 256) % 256) as u8);
        input.push((self.sequence % 256) as u8);
        let mut i: usize = 0;
        while i < self.payload.len()
            invariant
                0 <= i <= self.payload@.len(),
                input@ == seq![self.cell_type.code_spec()] + be16(self.stream_id) + be32(self.sequence)
                    + self.payload@.subrange(0, i as int),
            decreases self.payload@.len() - i,
        {
            input.push(self.payload[i]);
            i = i + 1;
            proof {
                assert(self.payload@.subrange(0, i as int) =~= self.payload@.subrange(0, i - 1).push(
                    self.payload@[i - 1],
                ));
            }
        }
        assert(self.payload@.subrange(0, self.payload@.len() as int) =~= self.payload@);
        let hash = blake3_digest(input.as_slice());
        let digest: [u8; 4] = [hash[0], hash[1], hash[2], hash[3]];
        assert(digest@ =~= hash@.subrange(0, 4));
        digest
    }

    /// Sets the digest to match the contents.
    pub fn set_digest(&mut self)
        ensures
            final(self).digest_ok(),
            final(self).cell_type == old(self).cell_type,
            final(self).stream_id == old(self).stream_id,
            final(self).sequence == old(self).sequence,
            final(self).payload == old(self).payload,
    {
        self.digest = self.calculate_digest();
    }

    /// Whether the digest matches the contents.
    pub fn verify_digest(&self) -> (r: bool)
        ensures
            r == self.digest_ok(),
    {
        let d = self.calculate_digest();
        let ok = self.digest[0] == d[0] && self.digest[1] == d[1] && self.digest[2] == d[2]
            && self.digest[3] == d[3];
        proof {
            if ok {
                assert(self.digest@ =~= d@);
            }
        }
        ok
    }
}

} // verus!
