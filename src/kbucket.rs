use vstd::prelude::*;
use crate::config::{MAX_NODE_AGE_SECS, REFRESH_INTERVAL_SECS};
use crate::keys::PublicKey;
use crate::node_id::NodeId;
use crate::types::{sat_sub, NetworkAddress, Reputation, Timestamp};

verus! {

/// Failed contacts after which an entry is dead.
pub const DEAD_AFTER_FAILURES: u32 = 3;

/// A peer in a bucket.
#[derive(Debug, Clone)]
pub struct BucketEntry {
    pub node_id: NodeId,
    pub public_key: PublicKey,
    pub addresses: Vec<NetworkAddress>,
    pub last_seen: Timestamp,
    pub failed_attempts: u32,
    pub pending_ping: bool,
    pub reputation: Reputation,
    pub accepts_relay: bool,
}

impl BucketEntry {
    /// A fresh entry, seen at `now`.
    pub fn new_at(node_id: NodeId, public_key: PublicKey, addresses: Vec<NetworkAddress>, now: Timestamp) -> (r: BucketEntry)
        ensures
            r.node_id == node_id,
            r.public_key == public_key,
            r.addresses == addresses,
            r.last_seen == now,
            r.failed_attempts == 0,
            !r.pending_ping,
            r.reputation == Reputation(100),
            r.accepts_relay,
    {
        BucketEntry {
            node_id,
            public_key,
            addresses,
            last_seen: now,
            failed_attempts: 0,
            pending_ping: false,
            reputation: Reputation::initial(),
            accepts_relay: true,
        }
    }

    /// A fresh entry, seen now.
    pub fn new(node_id: NodeId, public_key: PublicKey, addresses: Vec<NetworkAddress>) -> (r: BucketEntry)
        ensures
            r.node_id == node_id,
            r.public_key == public_key,
            r.addresses == addresses,
            r.failed_attempts == 0,
    {
        BucketEntry::new_at(node_id, public_key, addresses, Timestamp::now())
    }

    pub fn mark_seen_at(&mut self, now: Timestamp)
        ensures
            *final(self) == (BucketEntry { last_seen: now, failed_attempts: 0, pending_ping: false, ..*old(self) }),
    {
        self.last_seen = now;
        self.failed_attempts = 0;
        self.pending_ping = false;
    }

    pub fn mark_seen(&mut self)
        ensures
            final(self).failed_attempts == 0,
            final(self).node_id == old(self).node_id,
            final(self).public_key == old(self).public_key,
    {
        self.mark_seen_at(Timestamp::now());
    }

    /// Counts a failed contact, saturating.
    pub fn mark_failed(&mut self)
        ensures
            *final(self) == (BucketEntry {
                failed_attempts: if old(self).failed_attempts == u32::MAX {
                    u32::MAX
                } else {
                    (old(self).failed_attempts + 1) as u32
                },
                pending_ping: false,
                ..*old(self)
            }),
    {
        self.failed_attempts = self.failed_attempts.saturating_add(1);
        self.pending_ping = false;
    }

    pub open spec fn stale_at(&self, now: Timestamp) -> bool {
        sat_sub(now.0 as int, self.last_seen.0 as int) > MAX_NODE_AGE_SECS
    }

    /// Stale at `now`, or dead.
    pub open spec fn evictable_at(&self, now: Timestamp) -> bool {
        self.stale_at(now) || self.failed_attempts >= DEAD_AFTER_FAILURES
    }

    /// Not seen for longer than `MAX_NODE_AGE_SECS` at `now`.
    pub fn is_stale_at(&self, now: Timestamp) -> (r: bool)
        ensures
            r == self.stale_at(now),
    {
        self.last_seen.elapsed_at(now) > MAX_NODE_AGE_SECS
    }

    pub fn is_stale(&self) -> bool {
        self.is_stale_at(Timestamp::now())
    }

    /// Failed `DEAD_AFTER_FAILURES` times or more.
    pub fn is_dead(&self) -> (r: bool)
        ensures
            r == (self.failed_attempts >= DEAD_AFTER_FAILURES),
    {
        self.failed_attempts >= DEAD_AFTER_FAILURES
    }
}

/// The node ids of a list of entries.
pub open spec fn entry_ids(nodes: Seq<BucketEntry>) -> Seq<NodeId> {
    nodes.map_values(|e: BucketEntry| e.node_id)
}

/// No node id occurs twice.
pub open spec fn distinct_entries(nodes: Seq<BucketEntry>) -> bool {
    forall|i: int, j: int| 0 <= i < j < nodes.len() ==> nodes[i].node_id != nodes[j].node_id
}

/// Position of `id` among the entries, or -1.
pub open spec fn position_of(nodes: Seq<BucketEntry>, id: NodeId) -> int {
    if exists|i: int| 0 <= i < nodes.len() && nodes[i].node_id == id {
        choose|i: int| 0 <= i < nodes.len() && nodes[i].node_id == id
    } else {
        -1
    }
}

/// Up to `capacity` peers, least recently seen first.
#[derive(Debug)]
pub struct KBucket {
    nodes: Vec<BucketEntry>,
    capacity: usize,
    last_refreshed: Timestamp,
}

impl KBucket {
    pub closed spec fn entries(&self) -> Seq<BucketEntry> {
        self.nodes@
    }

    pub closed spec fn cap(&self) -> nat {
        self.capacity as nat
    }

    pub closed spec fn refreshed_at(&self) -> Timestamp {
        self.last_refreshed
    }

    /// Distinct entries, at most `capacity` of them, room for at least one.
    pub open spec fn wf(&self) -> bool {
        &&& distinct_entries(self.entries())
        &&& self.entries().len() <= self.cap()
        &&& self.cap() > 0
    }

    pub fn new_at(capacity: usize, now: Timestamp) -> (r: KBucket)
        requires
            capacity > 0,
        ensures
            r.wf(),
            r.entries().len() == 0,
            r.cap() == capacity,
            r.refreshed_at() == now,
    {
        KBucket { nodes: Vec::new(), capacity, last_refreshed: now }
    }

    pub fn new(capacity: usize) -> (r: KBucket)
        requires
            capacity > 0,
        ensures
            r.wf(),
            r.entries().len() == 0,
            r.cap() == capacity,
    {
        KBucket::new_at(capacity, Timestamp::now())
    }

    pub fn len(&self) -> (r: usize)
        ensures
            r == self.entries().len(),
    {
        self.nodes.len()
    }

    pub fn is_empty(&self) -> (r: bool)
        ensures
            r == (self.entries().len() == 0),
    {
        self.nodes.len() == 0
    }

    pub fn is_full(&self) -> (r: bool)
        ensures
            r == (self.entries().len() >= self.cap()),
    {
        self.nodes.len() >= self.capacity
    }

    pub fn capacity(&self) -> (r: usize)
        ensures
            r == self.cap(),
    {
        self.capacity
    }

    /// The entries, least recently seen first.
    pub fn nodes(&self) -> (r: &Vec<BucketEntry>)
        ensures
            r@ == self.entries(),
    {
        &self.nodes
    }

    /// Index of the entry with `node_id`.
    pub fn position(&self, node_id: &NodeId) -> (r: Option<usize>)
        ensures
            r matches Some(i) ==> i < self.entries().len() && self.entries()[i as int].node_id == *node_id,
            r is None ==> forall|i: int| 0 <= i < self.entries().len() ==> self.entries()[i].node_id != *node_id,
    {
        let mut i: usize = 0;
        while i < self.nodes.len()
            invariant
                0 <= i <= self.nodes@.len(),
                forall|j: int| 0 <= j < i ==> self.nodes@[j].node_id != *node_id,
            decreases self.nodes@.len() - i,
        {
            if self.nodes[i].node_id == *node_id {
                return Some(i);
            }
            i = i + 1;
        }
        None
    }

    pub fn find_node(&self, node_id: &NodeId) -> (r: Option<&BucketEntry>)
        ensures
            r matches Some(e) ==> e.node_id == *node_id && self.entries().contains(*e),
            r is None ==> forall|i: int| 0 <= i < self.entries().len() ==> self.entries()[i].node_id != *node_id,
    {
        match self.position(node_id) {
            Some(i) => Some(&self.nodes[i]),
            None => None,
        }
    }

    /// Admits a peer. A known peer has its addresses replaced, is marked
    /// seen at `now` and moves to the most-recent end: `Ok(false)`. A new
    /// peer is appended at that end where there is room: `Ok(true)`. Else
    /// the bucket is unchanged and the least recent peer is named: `Err`.
    pub fn insert_at(
        &mut self,
        node_id: NodeId,
        public_key: PublicKey,
        addresses: Vec<NetworkAddress>,
        now: Timestamp,
    ) -> (r: Result<bool, NodeId>)
        requires
            old(self).wf(),
        ensures
            final(self).wf(),
            final(self).cap() == old(self).cap(),
            final(self).refreshed_at() == old(self).refreshed_at(),
            r is Err ==> *final(self) == *old(self),
            ({
                let old_nodes = old(self).entries();
                let new_nodes = final(self).entries();
                let known = exists|i: int| 0 <= i < old_nodes.len() && old_nodes[i].node_id == node_id;
                &&& known ==> {
                    let p = position_of(old_nodes, node_id);
                    &&& r == Ok::<bool, NodeId>(false)
                    &&& new_nodes == old_nodes.remove(p).push(
                        BucketEntry {
                            addresses,
                            last_seen: now,
                            failed_attempts: 0,
                            pending_ping: false,
                            ..old_nodes[p]
                        },
                    )
                }
                &&& (!known && old_nodes.len() >= old(self).cap()) ==> r == Err::<bool, NodeId>(
                    old_nodes[0].node_id,
                ) && new_nodes == old_nodes
                &&& (!known && old_nodes.len() < old(self).cap()) ==> r == Ok::<bool, NodeId>(true)
                    && new_nodes == old_nodes.push(
                    BucketEntry {
                        node_id,
                        public_key,
                        addresses,
                        last_seen: now,
                        failed_attempts: 0,
                        pending_ping: false,
                        reputation: Reputation(100),
                        accepts_relay: true,
                    },
                )
            }),
    {
        let ghost old_nodes = self.nodes@;
        match self.position(&node_id) {
            Some(index) => {
                proof {
                    let p = position_of(old_nodes, node_id);
                    assert(0 <= p < old_nodes.len() && old_nodes[p].node_id == node_id);
                    if p != index {
                        if p < index {
                            assert(old_nodes[p].node_id != old_nodes[index as int].node_id);
                        } else {
                            assert(old_nodes[index as int].node_id != old_nodes[p].node_id);
                        }
                    }
                }
                let mut entry = self.nodes.remove(index);
                entry.addresses = addresses;
                entry.mark_seen_at(now);
                self.nodes.push(entry);
                proof {
                    let rest = old_nodes.remove(index as int);
                    assert forall|i: int, j: int| 0 <= i < j < self.nodes@.len() implies self.nodes@[i].node_id
                        != self.nodes@[j].node_id by {
                        if j == self.nodes@.len() - 1 {
                            let oi = if i < index { i } else { i + 1 };
                            assert(self.nodes@[i] == old_nodes[oi]);
                            assert(old_nodes[oi].node_id != old_nodes[index as int].node_id);
                        } else {
                            let oi = if i < index { i } else { i + 1 };
                            let oj = if j < index { j } else { j + 1 };
                            assert(self.nodes@[i] == old_nodes[oi]);
                            assert(self.nodes@[j] == old_nodes[oj]);
                        }
                    }
                }
                Ok(false)
            },
            None => {
                if self.nodes.len() >= self.capacity {
                    return Err(self.nodes[0].node_id);
                }
                self.nodes.push(BucketEntry::new_at(node_id, public_key, addresses, now));
                Ok(true)
            },
        }
    }

    /// `insert_at` at the current time.
    pub fn insert(&mut self, node_id: NodeId, public_key: PublicKey, addresses: Vec<NetworkAddress>) -> (r: Result<bool, NodeId>)
        requires
            old(self).wf(),
        ensures
            final(self).wf(),
            final(self).cap() == old(self).cap(),
            r == Ok::<bool, NodeId>(false) <==> exists|i: int|
                0 <= i < old(self).entries().len() && old(self).entries()[i].node_id == node_id,
    {
        self.insert_at(node_id, public_key, addresses, Timestamp::now())
    }

    /// Removes the entry with `node_id`, keeping the order of the others.
    pub fn remove(&mut self, node_id: &NodeId) -> (r: Option<BucketEntry>)
        requires
            old(self).wf(),
        ensures
            final(self).wf(),
            final(self).cap() == old(self).cap(),
            r is Some ==> exists|i: int| 0 <= i < old(self).entries().len() && old(self).entries()[i].node_id == *node_id,
            r matches Some(e) ==> e.node_id == *node_id && final(self).entries() == old(self).entries().remove(
                position_of(old(self).entries(), *node_id),
            ),
            r is None ==> final(self).entries() == old(self).entries() && forall|i: int|
                0 <= i < old(self).entries().len() ==> old(self).entries()[i].node_id != *node_id,
    {
        let ghost old_nodes = self.nodes@;
        match self.position(node_id) {
            Some(index) => {
                proof {
                    let p = position_of(old_nodes, *node_id);
                    if p != index {
                        if p < index {
                            assert(old_nodes[p].node_id != old_nodes[index as int].node_id);
                        } else {
                            assert(old_nodes[index as int].node_id != old_nodes[p].node_id);
                        }
                    }
                }
                let e = self.nodes.remove(index);
                proof {
                    assert forall|i: int, j: int| 0 <= i < j < self.nodes@.len() implies self.nodes@[i].node_id
                        != self.nodes@[j].node_id by {
                        let oi = if i < index { i } else { i + 1 };
                        let oj = if j < index { j } else { j + 1 };
                        assert(self.nodes@[i] == old_nodes[oi]);
                        assert(self.nodes@[j] == old_nodes[oj]);
                    }
                }
                Some(e)
            },
            None => None,
        }
    }

    /// Removes and returns the entries that are stale at `now` or dead,
    /// keeping the others in order.
    pub fn remove_stale_at(&mut self, now: Timestamp) -> (r: Vec<BucketEntry>)
        requires
            old(self).wf(),
        ensures
            final(self).wf(),
            final(self).cap() == old(self).cap(),
            final(self).entries() == old(self).entries().filter(
                |e: BucketEntry| !e.evictable_at(now),
            ),
            r@ == old(self).entries().filter(
                |e: BucketEntry| e.evictable_at(now),
            ),
    {
        let ghost old_nodes = self.nodes@;
        let mut keep: Vec<BucketEntry> = Vec::new();
        let mut removed: Vec<BucketEntry> = Vec::new();
        let mut i: usize = 0;
        while i < self.nodes.len()
            invariant
                self.nodes@ == old_nodes,
                0 <= i <= old_nodes.len(),
                keep@ == old_nodes.subrange(0, i as int).filter(|e: BucketEntry| !e.evictable_at(now)),
                removed@ == old_nodes.subrange(0, i as int).filter(|e: BucketEntry| e.evictable_at(now)),
                self.capacity == old(self).capacity,
                self.last_refreshed == old(self).last_refreshed,
            decreases old_nodes.len() - i,
        {
            let e = self.nodes[i].clone_entry();
            proof {
                assert(old_nodes.subrange(0, i + 1) =~= old_nodes.subrange(0, i as int).push(old_nodes[i as int]));
                old_nodes.subrange(0, i as int).lemma_filter_push(old_nodes[i as int], |e: BucketEntry| !e.evictable_at(now));
                old_nodes.subrange(0, i as int).lemma_filter_push(old_nodes[i as int], |e: BucketEntry| e.evictable_at(now));
            }
            if e.is_stale_at(now) || e.is_dead() {
                assert(e.evictable_at(now));
                removed.push(e);
            } else {
                assert(!e.evictable_at(now));
                keep.push(e);
            }
            i = i + 1;
        }
        assert(old_nodes.subrange(0, old_nodes.len() as int) =~= old_nodes);
        self.nodes = keep;
        proof {
            assert forall|a: int, b: int| 0 <= a < b < self.nodes@.len() implies self.nodes@[a].node_id
                != self.nodes@[b].node_id by {
                lemma_filter_keeps_distinct(old_nodes, |e: BucketEntry| !e.evictable_at(now), a, b);
            }
            old_nodes.lemma_filter_len(|e: BucketEntry| !e.evictable_at(now));
        }
        removed
    }

    /// The `count` entries closest to `target`, closest first.
    pub fn closest_nodes(&self, target: &NodeId, count: usize) -> (r: Vec<BucketEntry>)
        ensures
            exists|picked: Seq<usize>|
                #[trigger] crate::closest::closest_selection(entry_ids(self.entries()), *target, picked)
                    && r@ == picked.map_values(|p: usize| self.entries()[p as int]),
            r@.len() == if count < self.entries().len() { count as int } else { self.entries().len() as int },
    {
        let ids = crate::routing_table::entry_ids_of(&self.nodes);
        let picked = crate::closest::select_closest(&ids, target, count);
        let mut out: Vec<BucketEntry> = Vec::new();
        let mut i: usize = 0;
        while i < picked.len()
            invariant
                0 <= i <= picked@.len(),
                ids@ == entry_ids(self.nodes@),
                crate::closest::closest_selection(ids@, *target, picked@),
                out@ == picked@.subrange(0, i as int).map_values(|p: usize| self.nodes@[p as int]),
            decreases picked@.len() - i,
        {
            out.push(self.nodes[picked[i]].clone_entry());
            i = i + 1;
            proof {
                assert(picked@.subrange(0, i as int).map_values(|p: usize| self.nodes@[p as int]) =~= picked@.subrange(
                    0,
                    i - 1,
                ).map_values(|p: usize| self.nodes@[p as int]).push(self.nodes@[picked@[i - 1] as int]));
            }
        }
        assert(picked@.subrange(0, picked@.len() as int) =~= picked@);
        assert(crate::closest::closest_selection(entry_ids(self.entries()), *target, picked@));
        out
    }

    pub fn least_recent(&self) -> (r: Option<&BucketEntry>)
        ensures
            self.entries().len() == 0 ==> r is None,
            self.entries().len() > 0 ==> r == Some(&self.entries()[0]),
    {
        if self.nodes.len() == 0 {
            None
        } else {
            Some(&self.nodes[0])
        }
    }

    pub fn most_recent(&self) -> (r: Option<&BucketEntry>)
        ensures
            self.entries().len() == 0 ==> r is None,
            self.entries().len() > 0 ==> r == Some(&self.entries()[self.entries().len() - 1]),
    {
        if self.nodes.len() == 0 {
            None
        } else {
            Some(&self.nodes[self.nodes.len() - 1])
        }
    }

    /// Not refreshed for longer than `REFRESH_INTERVAL_SECS` at `now`.
    pub fn needs_refresh_at(&self, now: Timestamp) -> (r: bool)
        ensures
            r == (sat_sub(now.0 as int, self.refreshed_at().0 as int) > REFRESH_INTERVAL_SECS),
    {
        self.last_refreshed.elapsed_at(now) > REFRESH_INTERVAL_SECS
    }

    pub fn mark_refreshed_at(&mut self, now: Timestamp)
        ensures
            final(self).refreshed_at() == now,
            final(self).entries() == old(self).entries(),
            final(self).cap() == old(self).cap(),
            old(self).wf() ==> final(self).wf(),
    {
        self.last_refreshed = now;
    }
}

impl BucketEntry {
    /// A field-by-field copy.
    pub fn clone_entry(&self) -> (r: BucketEntry)
        ensures
            r == *self,
    {
        BucketEntry {
            node_id: self.node_id,
            public_key: self.public_key,
            addresses: clone_addresses(&self.addresses),
            last_seen: self.last_seen,
            failed_attempts: self.failed_attempts,
            pending_ping: self.pending_ping,
            reputation: self.reputation,
            accepts_relay: self.accepts_relay,
        }
    }
}

/// Relies on std's `Clone` for `Vec<NetworkAddress>`: an equal vector.
#[verifier::external_body]
pub(crate) fn clone_addresses(a: &Vec<NetworkAddress>) -> (r: Vec<NetworkAddress>)
    ensures
        r == *a,
{
    a.clone()
}

/// Filtering keeps the entries' relative order, so distinct ids stay distinct.
proof fn lemma_filter_keeps_distinct(s: Seq<BucketEntry>, p: spec_fn(BucketEntry) -> bool, a: int, b: int)
    requires
        distinct_entries(s),
        0 <= a < b < s.filter(p).len(),
    ensures
        s.filter(p)[a].node_id != s.filter(p)[b].node_id,
    decreases s.len(),
{
    reveal(Seq::filter);
    if s.len() > 0 {
        let rest = s.drop_last();
        assert(distinct_entries(rest));
        if p(s.last()) {
            assert(s.filter(p) == rest.filter(p).push(s.last()));
            if b == s.filter(p).len() - 1 {
                let x = s.filter(p)[a];
                assert(rest.filter(p).contains(x));
                rest.lemma_filter_contains_rev(p, x);
                let k = choose|k: int| 0 <= k < rest.len() && rest[k] == x;
                assert(s[k] == x);
                assert(s[s.len() - 1] == s.last());
            } else {
                lemma_filter_keeps_distinct(rest, p, a, b);
            }
        } else {
            assert(s.filter(p) == rest.filter(p));
            lemma_filter_keeps_distinct(rest, p, a, b);
        }
    }
}

} // verus!
