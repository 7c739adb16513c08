use vstd::prelude::*;
use crate::closest::{closer, dist};
use crate::config::K_BUCKET_SIZE;
use crate::kbucket::{clone_addresses, BucketEntry};
use crate::keys::PublicKey;
use crate::lookup::{finished_with, lookup_state, LookupManager};
use crate::messages::{PingMessage, PongMessage, StoreResponseMessage};
use crate::node_id::NodeId;
use crate::routing_table::{bucket_of, evicted_entries, id_matches_key, refresh_due, InsertError, RoutingTable, BUCKET_COUNT};
use crate::closest::closest_selection;
use crate::kbucket::entry_ids;
use crate::storage::store_outcome;
use crate::stats::MaintenanceActions;
use crate::storage::{DHTStorage, StoredValue};
use crate::types::{NetworkAddress, Timestamp};

verus! {

/// How many entries of `entries` are strictly closer to `key` than `local`.
pub open spec fn closer_count(entries: Seq<BucketEntry>, local: NodeId, key: NodeId) -> nat
    decreases entries.len(),
{
    if entries.len() == 0 {
        0
    } else {
        closer_count(entries.drop_last(), local, key) + if dist(entries.last().node_id, key) < dist(local, key) {
            1nat
        } else {
            0nat
        }
    }
}

/// The effect of a `Store` of `value` under `key`: where the node is among
/// the `K` closest it knows, the store's own outcome, reported by `success`;
/// elsewhere a refusal with the store unchanged.
pub open spec fn stored_by(old: DhtNode, new: DhtNode, key: [u8; 32], value: StoredValue, success: bool) -> bool {
    &&& new.routing_table == old.routing_table
    &&& new.lookups == old.lookups
    &&& !(closer_count(old.routing_table.all_entries(), old.routing_table.local(), NodeId(key)) < K_BUCKET_SIZE)
        ==> !success && new.storage.slot_seq() == old.storage.slot_seq()
    &&& closer_count(old.routing_table.all_entries(), old.routing_table.local(), NodeId(key)) < K_BUCKET_SIZE
        ==> store_outcome(old.storage, new.storage, key, value, success)
}

/// The bucket indices of a refresh plan.
pub open spec fn refresh_targets(v: Seq<(usize, NodeId)>) -> Seq<usize> {
    v.map_values(|p: (usize, NodeId)| p.0)
}

/// How many of `peers` pass the Sybil gate and are not the local node.
pub open spec fn admissible_count(peers: Seq<FoundPeer>, local: NodeId) -> nat
    decreases peers.len(),
{
    if peers.len() == 0 {
        0
    } else {
        admissible_count(peers.drop_last(), local) + if peers.last().node_id != local && id_matches_key(
            peers.last().node_id,
            peers.last().public_key,
        ) {
            1nat
        } else {
            0nat
        }
    }
}

/// A peer as a `NodesFound` reply reports it.
#[derive(Debug, Clone)]
pub struct FoundPeer {
    pub node_id: NodeId,
    pub public_key: PublicKey,
    pub addresses: Vec<NetworkAddress>,
}

/// What a node answers to a `FindValue`.
#[derive(Debug)]
pub enum FindValueReply {
    ValueFound(Vec<StoredValue>),
    Closest(Vec<BucketEntry>),
}

/// The DHT side of a node: its routing table, its store and its lookups.
#[derive(Debug)]
pub struct DhtNode {
    pub routing_table: RoutingTable,
    pub storage: DHTStorage,
    pub lookups: LookupManager,
}

impl DhtNode {
    pub open spec fn wf(&self) -> bool {
        &&& self.routing_table.wf()
        &&& self.storage.wf()
        &&& self.lookups.wf()
    }

    /// A node with an empty table, a store of `max_keys` keys and no lookups.
    pub fn new(local_id: NodeId, max_keys: usize) -> (r: DhtNode)
        ensures
            r.wf(),
            r.routing_table.local() == local_id,
    {
        DhtNode { routing_table: RoutingTable::new(local_id), storage: DHTStorage::new(max_keys), lookups: LookupManager::new() }
    }

    /// Starts a lookup for `target`, seeded with the `K` closest peers known.
    pub fn start_lookup(&mut self, target: NodeId) -> (r: NodeId)
        requires
            old(self).wf(),
        ensures
            final(self).wf(),
            r == target,
            final(self).lookups.has_target(target),
            final(self).routing_table == old(self).routing_table,
    {
        let seeds = crate::lookup::find_closest_nodes(&self.routing_table, &target, K_BUCKET_SIZE);
        self.lookups.start_lookup(target, seeds);
        target
    }

    /// Ends the lookup for `target`: its closest nodes where it completed.
    pub fn finish_lookup(&mut self, target: &NodeId) -> (r: Option<Vec<NodeId>>)
        requires
            old(self).wf(),
        ensures
            final(self).wf(),
            !final(self).lookups.has_target(*target),
            r is Some <==> lookup_state(old(self).lookups.lookups_spec(), *target, true),
            r matches Some(v) ==> finished_with(old(self).lookups.lookups_spec(), *target, v@),
            final(self).routing_table == old(self).routing_table,
            final(self).storage == old(self).storage,
    {
        let ghost before = self.lookups.lookups_spec();
        match self.lookups.remove_lookup(target) {
            Some(lookup) => {
                let ghost q = choose|q: int| 0 <= q < before.len() && before[q] == lookup;
                if lookup.is_complete() {
                    let found = lookup.closest_nodes();
                    let mut out: Vec<NodeId> = Vec::new();
                    let mut i: usize = 0;
                    while i < found.len()
                        invariant
                            0 <= i <= found@.len(),
                            out@ == found@.subrange(0, i as int),
                        decreases found@.len() - i,
                    {
                        out.push(found[i]);
                        i = i + 1;
                        proof {
                            assert(found@.subrange(0, i as int) =~= found@.subrange(0, i - 1).push(found@[i - 1]));
                        }
                    }
                    proof {
                        assert(found@.subrange(0, found@.len() as int) =~= found@);
                        assert(before[q].target_spec() == *target && before[q].complete_spec());
                        assert(finished_with(before, *target, out@));
                    }
                    Some(out)
                } else {
                    proof {
                        if lookup_state(before, *target, true) {
                            let p = choose|p: int| 0 <= p < before.len() && #[trigger] before[p].target_spec() == *target && before[p].complete_spec() == true;
                            if p != q {
                                if p < q {
                                    assert(before[p].target_spec() != before[q].target_spec());
                                } else {
                                    assert(before[q].target_spec() != before[p].target_spec());
                                }
                            }
                        }
                    }
                    None
                }
            },
            None => {
                proof {
                    if lookup_state(before, *target, true) {
                        let p = choose|p: int| 0 <= p < before.len() && #[trigger] before[p].target_spec() == *target && before[p].complete_spec() == true;
                        assert(old(self).lookups.has_target(*target));
                    }
                }
                None
            },
        }
    }

    /// Periodic upkeep at `now`: stale and dead peers leave, buckets due for
    /// refresh get a random target in their range, finished lookups go.
    pub fn maintenance_at(&mut self, now: Timestamp) -> (r: MaintenanceActions)
        requires
            old(self).wf(),
        ensures
            final(self).wf(),
            final(self).routing_table.local() == old(self).routing_table.local(),
            forall|i: int| 0 <= i < BUCKET_COUNT ==> #[trigger] final(self).routing_table.bucket_entries(i) == old(self).routing_table.bucket_entries(
                i,
            ).filter(|e: BucketEntry| !e.evictable_at(now)),
            r.removed_stale == evicted_entries(old(self).routing_table.bucket_seq(), now).len(),
            forall|i: int| 0 <= i < r.buckets_to_refresh@.len() ==> (#[trigger] r.buckets_to_refresh@[i]).0 < BUCKET_COUNT
                && bucket_of(final(self).routing_table.local(), r.buckets_to_refresh@[i].1) == r.buckets_to_refresh@[i].0,
            forall|a: int, b: int| 0 <= a < b < r.buckets_to_refresh@.len() ==> r.buckets_to_refresh@[a].0 < r.buckets_to_refresh@[b].0,
            forall|i: int|
                0 <= i < BUCKET_COUNT ==> (refresh_targets(r.buckets_to_refresh@).contains(i as usize) <==> refresh_due(
                    #[trigger] final(self).routing_table.bucket_seq()[i],
                    now,
                )),
            final(self).storage == old(self).storage,
            forall|t: NodeId| #[trigger] final(self).lookups.has_target(t) <==> lookup_state(old(self).lookups.lookups_spec(), t, false),
            r.completed_lookups == old(self).lookups.lookups_spec().len() - final(self).lookups.lookups_spec().len(),
    {
        let removed = self.routing_table.remove_stale_nodes_at(now);
        let due = self.routing_table.buckets_needing_refresh_at(now);
        let mut refresh: Vec<(usize, NodeId)> = Vec::new();
        let mut i: usize = 0;
        while i < due.len()
            invariant
                0 <= i <= due@.len(),
                self.wf(),
                        forall|j: int| 0 <= j < due@.len() ==> #[trigger] due@[j] < BUCKET_COUNT,
                refresh@.len() == i,
                forall|j: int| 0 <= j < i ==> (#[trigger] refresh@[j]).0 == due@[j],
                forall|j: int| 0 <= j < refresh@.len() ==> (#[trigger] refresh@[j]).0 < BUCKET_COUNT
                    && bucket_of(self.routing_table.local(), refresh@[j].1) == refresh@[j].0,
            decreases due@.len() - i,
        {
            let index = due[i];
            let id = self.routing_table.random_id_for_bucket(index);
            let ghost r0 = refresh@;
            refresh.push((index, id));
            proof {
                assert forall|j: int| 0 <= j < refresh@.len() implies (#[trigger] refresh@[j]).0 < BUCKET_COUNT
                    && bucket_of(self.routing_table.local(), refresh@[j].1) == refresh@[j].0 by {
                    if j < r0.len() {
                        assert(refresh@[j] == r0[j]);
                    }
                }
                assert forall|j: int| 0 <= j < i + 1 implies (#[trigger] refresh@[j]).0 == due@[j] by {
                    if j < r0.len() {
                        assert(refresh@[j] == r0[j]);
                    }
                }
            }
            i = i + 1;
        }
        assert(refresh_targets(refresh@) =~= due@);
        let completed = self.lookups.cleanup_completed();
        MaintenanceActions { removed_stale: removed.len(), buckets_to_refresh: refresh, completed_lookups: completed.len() }
    }

    /// `Ping` is answered with a `Pong` that echoes the nonce.
    pub fn handle_ping(&self, ping: &PingMessage) -> (r: PongMessage)
        ensures
            r.nonce == ping.nonce,
    {
        ping.reply()
    }

    /// `FindNode`: the `min(count, K)` peers closest to `target`.
    pub fn handle_find_node(&self, target: &NodeId, count: usize) -> (r: Vec<BucketEntry>)
        requires
            self.wf(),
        ensures
            r@.len() == {
                let want = if count < K_BUCKET_SIZE { count as int } else { K_BUCKET_SIZE as int };
                if want < self.routing_table.all_entries().len() { want } else { self.routing_table.all_entries().len() as int }
            },
            exists|picked: Seq<usize>|
                #[trigger] closest_selection(entry_ids(self.routing_table.all_entries()), *target, picked)
                    && r@ == picked.map_values(|p: usize| self.routing_table.all_entries()[p as int]),
    {
        let want = if count < K_BUCKET_SIZE { count } else { K_BUCKET_SIZE };
        self.routing_table.closest_nodes(target, want)
    }

    /// Whether this node is among the `K` nodes closest to `key` that it knows of.
    pub fn is_responsible(&self, key: &NodeId) -> (r: bool)
        requires
            self.wf(),
        ensures
            r == (closer_count(self.routing_table.all_entries(), self.routing_table.local(), *key) < K_BUCKET_SIZE),
    {
        let all = self.routing_table.all_nodes();
        let local = self.routing_table.local_id();
        let mut count: usize = 0;
        let mut i: usize = 0;
        while i < all.len()
            invariant
                0 <= i <= all@.len(),
                all@ == self.routing_table.all_entries(),
                local == self.routing_table.local(),
                count == closer_count(all@.subrange(0, i as int), local, *key),
                count <= i,
            decreases all@.len() - i,
        {
            proof {
                assert(all@.subrange(0, i + 1).drop_last() =~= all@.subrange(0, i as int));
            }
            if closer(&all[i].node_id, &local, key) {
                count = count + 1;
            }
            i = i + 1;
        }
        assert(all@.subrange(0, all@.len() as int) =~= all@);
        count < K_BUCKET_SIZE
    }

    /// `Store`: kept where this node is responsible for the key, refused otherwise.
    pub fn handle_store(&mut self, key: [u8; 32], value: StoredValue) -> (r: StoreResponseMessage)
        requires
            old(self).wf(),
        ensures
            final(self).wf(),
            final(self).routing_table == old(self).routing_table,
            final(self).lookups == old(self).lookups,
            !(closer_count(old(self).routing_table.all_entries(), old(self).routing_table.local(), NodeId(key)) < K_BUCKET_SIZE)
                ==> !r.success && final(self).storage.slot_seq() == old(self).storage.slot_seq(),
            closer_count(old(self).routing_table.all_entries(), old(self).routing_table.local(), NodeId(key)) < K_BUCKET_SIZE
                ==> store_outcome(old(self).storage, final(self).storage, key, value, r.success),
            stored_by(*old(self), *final(self), key, value, r.success),
    {
        if !self.is_responsible(&NodeId(key)) {
            return StoreResponseMessage { success: false, error: Some("not responsible for key".to_string()) };
        }
        match self.storage.store(key, value) {
            Ok(()) => StoreResponseMessage { success: true, error: None },
            Err(_) => StoreResponseMessage { success: false, error: Some("storage full".to_string()) },
        }
    }

    /// `FindValue`: the unexpired values under `key` at `now`, else the
    /// peers closest to it.
    pub fn handle_find_value_at(&self, key: &[u8; 32], now: Timestamp) -> (r: FindValueReply)
        requires
            self.wf(),
        ensures
            r matches FindValueReply::ValueFound(v) ==> v@.len() > 0 && forall|j: int| 0 <= j < v@.len() ==> !(#[trigger] v@[j]).expired_at(now),
            r matches FindValueReply::ValueFound(v) ==> self.storage.read_result(*key, now, Some(v)),
            r is Closest ==> self.storage.read_result(*key, now, None),
            r matches FindValueReply::Closest(c) ==> c@.len() == (if K_BUCKET_SIZE < self.routing_table.all_entries().len() {
                K_BUCKET_SIZE as int
            } else {
                self.routing_table.all_entries().len() as int
            }) && exists|picked: Seq<usize>|
                #[trigger] closest_selection(entry_ids(self.routing_table.all_entries()), NodeId(*key), picked)
                    && c@ == picked.map_values(|p: usize| self.routing_table.all_entries()[p as int]),
    {
        match self.storage.get_at(key, now) {
            Some(values) => FindValueReply::ValueFound(values),
            None => FindValueReply::Closest(self.routing_table.closest_nodes(&NodeId(*key), K_BUCKET_SIZE)),
        }
    }

    /// `NodesFound` for a lookup of `target`: each reported peer passes the
    /// Sybil gate before it joins the table, and the admitted ones go to the
    /// lookup. Returns how many were admitted.
    pub fn handle_nodes_found_at(&mut self, from: NodeId, target: NodeId, peers: Vec<FoundPeer>, now: Timestamp) -> (r: usize)
        requires
            old(self).wf(),
        ensures
            final(self).wf(),
            r <= peers@.len(),
            r == admissible_count(peers@, old(self).routing_table.local()),
            final(self).routing_table.local() == old(self).routing_table.local(),
            final(self).storage == old(self).storage,
            final(self).lookups.lookups_spec().len() == old(self).lookups.lookups_spec().len(),
            forall|i: int|
                0 <= i < old(self).lookups.lookups_spec().len() && (#[trigger] old(self).lookups.lookups_spec()[i]).target_spec() != target
                    ==> final(self).lookups.lookups_spec()[i] == old(self).lookups.lookups_spec()[i],
    {
        let mut admitted: Vec<NodeId> = Vec::new();
        let mut i: usize = 0;
        while i < peers.len()
            invariant
                self.wf(),
                self.routing_table.local() == old(self).routing_table.local(),
                0 <= i <= peers@.len(),
                admitted@.len() <= i,
                admitted@.len() == admissible_count(peers@.subrange(0, i as int), old(self).routing_table.local()),
                self.storage == old(self).storage,
                self.lookups == old(self).lookups,
            decreases peers@.len() - i,
        {
            let p = &peers[i];
            proof {
                assert(peers@.subrange(0, i + 1).drop_last() =~= peers@.subrange(0, i as int));
            }
            let addresses = clone_addresses(&p.addresses);
            let outcome = self.routing_table.insert_at(p.node_id, p.public_key, addresses, now);
            let ok = match outcome {
                Ok(_) => true,
                Err(InsertError::BucketFull { .. }) => true,
                Err(_) => false,
            };
            if ok {
                admitted.push(p.node_id);
            }
            i = i + 1;
        }
        assert(peers@.subrange(0, peers@.len() as int) =~= peers@);
        let n = admitted.len();
        self.lookups.process_response(&target, from, admitted);
        n
    }
}

} // verus!
