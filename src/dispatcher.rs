use vstd::prelude::*;
use crate::builder::{handle_create_circuit, responded_with, responder_layers};
use crate::config::K_BUCKET_SIZE;
use crate::crypto::{aead_open_of, LayerCrypto, OnionCrypto};
use crate::dht_node::{stored_by, DhtNode, FindValueReply, FoundPeer};
use crate::encoding::bytes_to_vec;
use crate::kbucket::{clone_addresses, BucketEntry};
use crate::messages::{
    CircuitCreatedMessage, CircuitFailedMessage, CircuitId, CreateCircuitMessage, ErrorMessage, FindNodeMessage,
    FindValueMessage, PingMessage, PongMessage, RelayDataMessage, StoreMessage, StoreResponseMessage, StoredValueMessage,
};
use crate::node_id::NodeId;
use crate::storage::StoredValue;
use crate::types::Timestamp;

verus! {

/// Peers closest to a lookup's target, as a `FindNode` answer.
#[derive(Debug, Clone)]
pub struct NodesFoundMessage {
    pub target: NodeId,
    pub nodes: Vec<FoundPeer>,
}

/// The answer to `FindValue`: the values, or the closest peers.
#[derive(Debug, Clone)]
pub struct ValueFoundMessage {
    pub found: bool,
    pub values: Vec<StoredValueMessage>,
    pub closest_nodes: Vec<FoundPeer>,
}

/// The core messages a node receives.
#[derive(Debug, Clone)]
pub enum MessagePayload {
    Ping(PingMessage),
    Pong(PongMessage),
    FindNode(FindNodeMessage),
    NodesFound(NodesFoundMessage),
    Store(StoreMessage),
    StoreResponse(StoreResponseMessage),
    FindValue(FindValueMessage),
    ValueFound(ValueFoundMessage),
    CreateCircuit(CreateCircuitMessage),
    CircuitCreated(CircuitCreatedMessage),
    CircuitFailed(CircuitFailedMessage),
    RelayData(RelayDataMessage),
    Error(ErrorMessage),
}

/// The value a `Store` request asks for, stored at `now`.
pub open spec fn requested_value(s: StoreMessage, now: Timestamp, v: StoredValue) -> bool {
    &&& v.data == s.value
    &&& v.publisher == s.publisher
    &&& v.stored_at == now
    &&& v.ttl == s.ttl
    &&& (v.signature is Some <==> s.signature is Some)
}

/// A `FindValue` answer: the unexpired values where there are any, else
/// the `K` closest peers known.
pub open spec fn found_reply(node: DhtNode, key: [u8; 32], now: Timestamp, vf: ValueFoundMessage) -> bool {
    let live = crate::storage::live_values(node.storage.values_of(key), now);
    &&& vf.found <==> live.len() > 0
    &&& vf.found ==> vf.values@.len() == live.len()
    &&& !vf.found ==> vf.closest_nodes@.len() == (if K_BUCKET_SIZE < node.routing_table.all_entries().len() {
        K_BUCKET_SIZE as int
    } else {
        node.routing_table.all_entries().len() as int
    })
}

/// Hop `i` is the first of `hops` kept for circuit `id`.
pub open spec fn first_hop(hops: Seq<RelayHop>, id: CircuitId, i: int) -> bool {
    &&& 0 <= i < hops.len()
    &&& hops[i].circuit_id == id
    &&& forall|j: int| 0 <= j < i ==> hops[j].circuit_id != id
}

/// The first hop kept for `m`'s circuit can take one more nonce and its
/// forward layer opens `m`'s payload.
pub open spec fn opens_at(hops: Seq<RelayHop>, m: RelayDataMessage, i: int) -> bool {
    &&& first_hop(hops, m.circuit_id, i)
    &&& hops[i].forward.count() < u64::MAX
    &&& aead_open_of(hops[i].forward.key_view(), hops[i].forward.next_nonce_view(), m.payload@) is Some
}

/// `x` passes on `m` with one forward layer removed.
pub open spec fn relayed(hops: Seq<RelayHop>, m: RelayDataMessage, x: MessagePayload) -> bool {
    match x {
        MessagePayload::RelayData(out) => {
            &&& out.circuit_id == m.circuit_id
            &&& out.sequence == m.sequence
            &&& exists|i: int|
                #[trigger] opens_at(hops, m, i) && aead_open_of(hops[i].forward.key_view(), hops[i].forward.next_nonce_view(), m.payload@)
                    == Some(out.payload@)
        },
        _ => false,
    }
}

/// The hop kept after answering `c` with `reply`: its circuit, and layers
/// from the secret behind the key in the reply.
pub open spec fn kept_hop(c: CreateCircuitMessage, reply: CircuitCreatedMessage, hop: RelayHop) -> bool {
    &&& hop.circuit_id == c.circuit_id
    &&& match (c.encrypted_payload, reply.public_key) {
        (Some(p), Some(pk)) => exists|s: Seq<u8>| #[trigger] responder_layers(p@, s, pk@, (hop.forward, hop.backward)),
        _ => false,
    }
}

/// The layers this node holds as a hop of someone else's circuit.
#[derive(Debug)]
pub struct RelayHop {
    pub circuit_id: CircuitId,
    pub forward: LayerCrypto,
    pub backward: LayerCrypto,
}

fn to_found_peers(entries: &Vec<BucketEntry>) -> (r: Vec<FoundPeer>)
    ensures
        r@.len() == entries@.len(),
        forall|i: int| 0 <= i < r@.len() ==> (#[trigger] r@[i]).node_id == entries@[i].node_id && r@[i].public_key == entries@[i].public_key,
{
    let mut out: Vec<FoundPeer> = Vec::new();
    let mut i: usize = 0;
    while i < entries.len()
        invariant
            0 <= i <= entries@.len(),
            out@.len() == i,
            forall|k: int| 0 <= k < i ==> (#[trigger] out@[k]).node_id == entries@[k].node_id && out@[k].public_key == entries@[k].public_key,
        decreases entries@.len() - i,
    {
        let e = &entries[i];
        out.push(FoundPeer { node_id: e.node_id, public_key: e.public_key, addresses: clone_addresses(&e.addresses) });
        i = i + 1;
    }
    out
}

fn to_value_messages(values: &Vec<StoredValue>) -> (r: Vec<StoredValueMessage>)
    ensures
        r@.len() == values@.len(),
{
    let mut out: Vec<StoredValueMessage> = Vec::new();
    let mut i: usize = 0;
    while i < values.len()
        invariant
            0 <= i <= values@.len(),
            out@.len() == i,
        decreases values@.len() - i,
    {
        let v = &values[i];
        out.push(StoredValueMessage {
            data: bytes_to_vec(v.data.as_slice()),
            publisher: v.publisher,
            stored_at: v.stored_at.0,
            ttl: v.ttl,
            signature: None,
        });
        i = i + 1;
    }
    out
}

/// The single entry point for received core messages.
#[derive(Debug)]
pub struct MessageDispatcher {
    pub dht: DhtNode,
    pub relay_hops: Vec<RelayHop>,
}

impl MessageDispatcher {
    pub open spec fn wf(&self) -> bool {
        self.dht.wf()
    }

    pub fn new(dht: DhtNode) -> (r: MessageDispatcher)
        requires
            dht.wf(),
        ensures
            r.wf(),
            r.relay_hops@.len() == 0,
    {
        MessageDispatcher { dht, relay_hops: Vec::new() }
    }

    /// The first hop kept for `id`.
    fn hop_position(&self, id: CircuitId) -> (r: Option<usize>)
        ensures
            r matches Some(i) ==> first_hop(self.relay_hops@, id, i as int),
            r is None ==> forall|i: int| 0 <= i < self.relay_hops@.len() ==> self.relay_hops@[i].circuit_id != id,
    {
        let mut i: usize = 0;
        while i < self.relay_hops.len()
            invariant
                0 <= i <= self.relay_hops@.len(),
                forall|j: int| 0 <= j < i ==> self.relay_hops@[j].circuit_id != id,
            decreases self.relay_hops@.len() - i,
        {
            if self.relay_hops[i].circuit_id == id {
                return Some(i);
            }
            i = i + 1;
        }
        None
    }

    /// Relay data for a circuit this node serves: one forward layer comes
    /// off, and the rest goes on along the circuit.
    fn relay_at_hop(&mut self, m: RelayDataMessage) -> (r: Option<MessagePayload>)
        requires
            old(self).wf(),
        ensures
            final(self).wf(),
            final(self).dht == old(self).dht,
            final(self).relay_hops@.len() == old(self).relay_hops@.len(),
            r is Some <==> exists|i: int| #[trigger] opens_at(old(self).relay_hops@, m, i),
            r matches Some(x) ==> relayed(old(self).relay_hops@, m, x),
    {
        match self.hop_position(m.circuit_id) {
            Some(i) => {
                let ghost hops = self.relay_hops@;
                let mut hop = self.relay_hops.remove(i);
                let peeled = OnionCrypto::decrypt_layer(&mut hop.forward, m.payload.as_slice());
                self.relay_hops.insert(i, hop);
                proof {
                    assert(hops[i as int] == old(self).relay_hops@[i as int]);
                    assert forall|j: int| #[trigger] opens_at(hops, m, j) implies j == i by {
                        if j < i {
                            assert(hops[j].circuit_id != m.circuit_id);
                        } else if j > i {
                            assert(hops[i as int].circuit_id != m.circuit_id);
                        }
                    }
                }
                match peeled {
                    Ok(p) => {
                        let out = RelayDataMessage { circuit_id: m.circuit_id, payload: p, sequence: m.sequence };
                        assert(opens_at(hops, m, i as int));
                        Some(MessagePayload::RelayData(out))
                    },
                    Err(_) => None,
                }
            },
            None => None,
        }
    }

    /// Handles `payload` from peer `from` at `now`, returning the reply to
    /// send, if any. Requests are answered; `NodesFound` feeds the table
    /// and the lookup; messages out of context are dropped without reply.
    pub fn dispatch_at(&mut self, from: NodeId, payload: MessagePayload, now: Timestamp) -> (r: Option<MessagePayload>)
        requires
            old(self).wf(),
        ensures
            final(self).wf(),
            payload matches MessagePayload::Ping(p) ==> r matches Some(MessagePayload::Pong(q)) && q.nonce == p.nonce,
            payload matches MessagePayload::FindNode(f) ==> r matches Some(MessagePayload::NodesFound(n)) && n.target == f.target
                && n.nodes@.len() == {
                let want = if f.count < K_BUCKET_SIZE { f.count as int } else { K_BUCKET_SIZE as int };
                let have = old(self).dht.routing_table.all_entries().len() as int;
                if want < have { want } else { have }
            },
            payload matches MessagePayload::Store(s) ==> (r matches Some(MessagePayload::StoreResponse(resp)) && exists|v: StoredValue|
                #[trigger] requested_value(s, now, v) && stored_by(old(self).dht, final(self).dht, s.key, v, resp.success)),
            payload matches MessagePayload::FindValue(f) ==> (r matches Some(MessagePayload::ValueFound(vf)) && found_reply(
                old(self).dht,
                f.key,
                now,
                vf,
            ) && final(self).dht == old(self).dht),
            payload matches MessagePayload::NodesFound(n) ==> final(self).dht.storage == old(self).dht.storage
                && final(self).dht.routing_table.local() == old(self).dht.routing_table.local()
                && final(self).dht.lookups.lookups_spec().len() == old(self).dht.lookups.lookups_spec().len(),
            payload matches MessagePayload::NodesFound(n) ==> forall|i: int|
                0 <= i < old(self).dht.lookups.lookups_spec().len() && (#[trigger] old(self).dht.lookups.lookups_spec()[i]).target_spec()
                    != n.target ==> final(self).dht.lookups.lookups_spec()[i] == old(self).dht.lookups.lookups_spec()[i],
            payload matches MessagePayload::CreateCircuit(c) ==> r matches Some(MessagePayload::CircuitCreated(reply))
                && reply.circuit_id == c.circuit_id,
            payload matches MessagePayload::CreateCircuit(c) ==> (r matches Some(MessagePayload::CircuitCreated(reply)) ==> (if reply.success {
                final(self).relay_hops@.len() == old(self).relay_hops@.len() + 1 && final(self).relay_hops@.drop_last()
                    == old(self).relay_hops@ && kept_hop(c, reply, final(self).relay_hops@.last())
            } else {
                final(self).relay_hops@ == old(self).relay_hops@
            })),
            payload matches MessagePayload::RelayData(m) ==> (r is Some <==> exists|i: int| #[trigger] opens_at(old(self).relay_hops@, m, i)),
            payload matches MessagePayload::RelayData(m) ==> (r matches Some(x) ==> relayed(old(self).relay_hops@, m, x)),
            payload is RelayData ==> final(self).relay_hops@.len() == old(self).relay_hops@.len() && final(self).dht == old(self).dht,
            (payload is Pong || payload is NodesFound || payload is StoreResponse || payload is ValueFound
                || payload is CircuitCreated || payload is CircuitFailed || payload is Error) ==> r is None,
    {
        match payload {
            MessagePayload::Ping(p) => Some(MessagePayload::Pong(self.dht.handle_ping(&p))),
            MessagePayload::FindNode(f) => {
                let closest = self.dht.handle_find_node(&f.target, f.count);
                Some(MessagePayload::NodesFound(NodesFoundMessage { target: f.target, nodes: to_found_peers(&closest) }))
            },
            MessagePayload::NodesFound(n) => {
                self.dht.handle_nodes_found_at(from, n.target, n.nodes, now);
                None
            },
            MessagePayload::Store(s) => {
                let ghost req = s;
                let mut value = StoredValue::new_at(s.value, s.publisher, now).with_ttl(s.ttl);
                if let Some(sig) = s.signature {
                    value = value.with_signature(bytes_to_vec(&sig.0));
                }
                let ghost v = value;
                assert(requested_value(req, now, v));
                Some(MessagePayload::StoreResponse(self.dht.handle_store(s.key, value)))
            },
            MessagePayload::FindValue(f) => {
                let reply = match self.dht.handle_find_value_at(&f.key, now) {
                    FindValueReply::ValueFound(values) => ValueFoundMessage {
                        found: true,
                        values: to_value_messages(&values),
                        closest_nodes: Vec::new(),
                    },
                    FindValueReply::Closest(peers) => ValueFoundMessage {
                        found: false,
                        values: Vec::new(),
                        closest_nodes: to_found_peers(&peers),
                    },
                };
                Some(MessagePayload::ValueFound(reply))
            },
            MessagePayload::CreateCircuit(c) => {
                let (reply, layers) = handle_create_circuit(&c);
                let ghost answer = (reply, layers);
                if let Some((forward, backward)) = layers {
                    let ghost before = self.relay_hops@;
                    self.relay_hops.push(RelayHop { circuit_id: c.circuit_id, forward, backward });
                    proof {
                        assert(self.relay_hops@.drop_last() =~= before);
                        let w = choose|w: Seq<u8>| #[trigger] responded_with(c, answer, w);
                        let last = self.relay_hops@.last();
                        assert(last.forward == forward && last.backward == backward);
                        assert((last.forward, last.backward) == (forward, backward));
                        assert(responder_layers(c.encrypted_payload.unwrap()@, w, reply.public_key.unwrap()@, (last.forward, last.backward)));
                        assert(kept_hop(c, reply, last));
                    }
                }
                Some(MessagePayload::CircuitCreated(reply))
            },
            MessagePayload::RelayData(m) => self.relay_at_hop(m),
            _ => None,
        }
    }
}

} // verus!
