use vstd::prelude::*;
use crate::closest::{closest_selection, select_closest};
use crate::config::{K_BUCKET_SIZE, REFRESH_INTERVAL_SECS};
use crate::encoding::blake3_of;
use crate::kbucket::{entry_ids, position_of, BucketEntry, KBucket};
use crate::keys::PublicKey;
use crate::node_id::{leading_zero_bits, leading_zero_bits_from, xor_bytes, NodeId};
use vstd::std_specs::bits::{axiom_u8_leading_zeros, u8_leading_zeros};
use crate::types::{sat_sub, NetworkAddress, Reputation, Timestamp};

verus! {

broadcast use vstd::array::axiom_array_ext_equal;

pub const BUCKET_COUNT: usize = 256;

/// Bucket of `id` seen from `local`: the leading zero bits of their XOR
/// distance, at most 255.
pub open spec fn bucket_of(local: NodeId, id: NodeId) -> int {
    let z = leading_zero_bits(xor_bytes(local.0@, id.0@));
    if z > 255 {
        255
    } else {
        z as int
    }
}

/// Setting bit `7 - b` and clearing the bits above it.
proof fn lemma_top_bit_set(x: u8, b: u8)
    requires
        b < 8,
    ensures
        ((((x & ((0xffu8 >> b) >> 1u8)) | (0x80u8 >> b)) >> vstd::prelude::sub(7u8, b)) & 1u8) == 1u8,
        (((x & ((0xffu8 >> b) >> 1u8)) | (0x80u8 >> b)) >> vstd::prelude::sub(8u8, b)) == 0u8,
{
    assert(((((x & ((0xffu8 >> b) >> 1u8)) | (0x80u8 >> b)) >> vstd::prelude::sub(7u8, b)) & 1u8) == 1u8) by (bit_vector)
        requires b < 8u8;
    assert((((x & ((0xffu8 >> b) >> 1u8)) | (0x80u8 >> b)) >> vstd::prelude::sub(8u8, b)) == 0u8) by (bit_vector)
        requires b < 8u8;
}

/// A byte whose highest set bit is bit `7 - b` has `b` leading zeros.
proof fn lemma_leading_zeros_of_top(v: u8, b: u8)
    requires
        b < 8,
        ((v >> vstd::prelude::sub(7u8, b)) & 1u8) == 1u8,
        (v >> vstd::prelude::sub(8u8, b)) == 0u8,
    ensures
        u8_leading_zeros(v) == b as u32,
{
    let z = u8_leading_zeros(v);
    axiom_u8_leading_zeros(v);
    assert(v != 0) by (bit_vector)
        requires ((v >> vstd::prelude::sub(7u8, b)) & 1u8) == 1u8;
    let zz = z as u8;
    assert(zz < 8);
    if zz < b {
        assert(((v >> vstd::prelude::sub(7u8, zz)) & 1u8) == 0u8) by (bit_vector)
            requires zz < b, b < 8u8, (v >> vstd::prelude::sub(8u8, b)) == 0u8;
    } else if zz > b {
        assert(((v >> vstd::prelude::sub(7u8, b)) & 1u8) == 0u8) by (bit_vector)
            requires zz > b, zz < 8u8, (v >> vstd::prelude::sub(8u8, zz)) == 0u8;
    }
}

/// Leading zero bits of a string whose first `w` bytes are zero.
proof fn lemma_prefix_zero_bits(s: Seq<u8>, i: int, w: int)
    requires
        0 <= i <= w < s.len(),
        forall|m: int| 0 <= m < w ==> s[m] == 0,
        s[w] != 0,
    ensures
        leading_zero_bits_from(s, i) == 8 * (w - i) + u8_leading_zeros(s[w]),
    decreases w - i,
{
    if i < w {
        lemma_prefix_zero_bits(s, i + 1, w);
    }
}

/// The entries of `buckets` that are evictable at `now`, bucket by bucket.
pub open spec fn evicted_entries(buckets: Seq<KBucket>, now: Timestamp) -> Seq<BucketEntry> {
    buckets.map_values(|b: KBucket| b.entries().filter(|e: BucketEntry| e.evictable_at(now))).flatten()
}

/// The bucket was last refreshed more than `REFRESH_INTERVAL_SECS` before `now`.
pub open spec fn refresh_due(b: KBucket, now: Timestamp) -> bool {
    sat_sub(now.0 as int, b.refreshed_at().0 as int) > REFRESH_INTERVAL_SECS
}

/// The Sybil gate: the id is the digest of the key.
pub open spec fn id_matches_key(id: NodeId, key: PublicKey) -> bool {
    id.0@ == blake3_of(key.bytes@)
}

/// An entry may stand in bucket `index` of the table of `local`.
pub open spec fn admitted(local: NodeId, index: int, e: BucketEntry) -> bool {
    &&& id_matches_key(e.node_id, e.public_key)
    &&& e.node_id != local
    &&& bucket_of(local, e.node_id) == index
}

/// What admitting a peer does to a table, the peer seen at `now`: the local
/// id and an id that is not the digest of the key are refused with the
/// table unchanged; a known peer is refreshed and moved to the most-recent
/// end; a new one is appended where its bucket has room; else the least
/// recent peer of the bucket is named and nothing changes.
pub open spec fn admission_outcome(
    old_t: RoutingTable,
    new_t: RoutingTable,
    node_id: NodeId,
    public_key: PublicKey,
    addresses: Vec<NetworkAddress>,
    now: Timestamp,
    r: Result<InsertResult, InsertError>,
) -> bool {
    &&& node_id == old_t.local() ==> r == Err::<InsertResult, InsertError>(InsertError::SelfInsert)
                && new_t.bucket_seq() == old_t.bucket_seq()
    &&& node_id != old_t.local() && !id_matches_key(node_id, public_key) ==> r == Err::<
                InsertResult,
                InsertError,
            >(InsertError::InvalidNodeId) && new_t.bucket_seq() == old_t.bucket_seq()
    &&& ({
                let i = bucket_of(old_t.local(), node_id);
                let old_nodes = old_t.bucket_entries(i);
                let new_nodes = new_t.bucket_entries(i);
                let known = exists|j: int| 0 <= j < old_nodes.len() && old_nodes[j].node_id == node_id;
                node_id != old_t.local() && id_matches_key(node_id, public_key) ==> {
                    &&& forall|b: int| 0 <= b < BUCKET_COUNT && b != i ==> #[trigger] new_t.bucket_seq()[b]
                        == old_t.bucket_seq()[b]
                    &&& known ==> r == Ok::<InsertResult, InsertError>(InsertResult::Updated)
                        && new_nodes == old_nodes.remove(position_of(old_nodes, node_id)).push(
                        BucketEntry {
                            addresses,
                            last_seen: now,
                            failed_attempts: 0,
                            pending_ping: false,
                            ..old_nodes[position_of(old_nodes, node_id)]
                        },
                    )
                    &&& (!known && old_nodes.len() >= old_t.k_spec()) ==> r == Err::<
                        InsertResult,
                        InsertError,
                    >(InsertError::BucketFull { eviction_candidate: old_nodes[0].node_id })
                        && new_nodes == old_nodes && new_t.bucket_seq() == old_t.bucket_seq()
                    &&& (!known && old_nodes.len() < old_t.k_spec()) ==> r == Ok::<
                        InsertResult,
                        InsertError,
                    >(InsertResult::Inserted) && new_nodes == old_nodes.push(
                        BucketEntry {
                            node_id,
                            public_key,
                            addresses,
                            last_seen: now,
                            failed_attempts: 0,
                            pending_ping: false,
                            reputation: Reputation(100),
                            accepts_relay: true,
                        },
                    )
                }
            })
}

/// Outcome of admitting a peer.
#[derive(Debug, Clone, Copy, PartialEq, Eq, Structural)]
pub enum InsertResult {
    Inserted,
    Updated,
}

/// Refusals of admitting a peer.
#[derive(Debug, Clone, Copy, PartialEq, Eq)]
pub enum InsertError {
    SelfInsert,
    BucketFull { eviction_candidate: NodeId },
    InvalidNodeId,
}

/// Counts over the table.
#[derive(Debug, Clone, Copy, PartialEq, Eq, Structural)]
pub struct RoutingTableStats {
    pub total_nodes: usize,
    pub non_empty_buckets: usize,
    pub full_buckets: usize,
    pub bucket_capacity: usize,
}

/// 256 buckets of peers, bucket `i` holding those whose distance from the
/// local id has `i` leading zero bits.
#[derive(Debug)]
pub struct RoutingTable {
    local_id: NodeId,
    buckets: Vec<KBucket>,
    k: usize,
}

impl RoutingTable {
    pub closed spec fn local(&self) -> NodeId {
        self.local_id
    }

    pub closed spec fn bucket_seq(&self) -> Seq<KBucket> {
        self.buckets@
    }

    pub closed spec fn k_spec(&self) -> nat {
        self.k as nat
    }

    /// The entries of bucket `i`.
    pub open spec fn bucket_entries(&self, i: int) -> Seq<BucketEntry> {
        self.bucket_seq()[i].entries()
    }

    /// Every entry, bucket by bucket.
    pub open spec fn all_entries(&self) -> Seq<BucketEntry> {
        self.bucket_seq().map_values(|b: KBucket| b.entries()).flatten()
    }

    /// 256 well-formed buckets of capacity `k`, every entry admitted where it stands.
    pub open spec fn wf(&self) -> bool {
        &&& self.bucket_seq().len() == BUCKET_COUNT
        &&& self.k_spec() > 0
        &&& forall|i: int| 0 <= i < BUCKET_COUNT ==> #[trigger] self.bucket_seq()[i].wf()
        &&& forall|i: int| 0 <= i < BUCKET_COUNT ==> #[trigger] self.bucket_seq()[i].cap() == self.k_spec()
        &&& forall|i: int, j: int|
            0 <= i < BUCKET_COUNT && 0 <= j < self.bucket_entries(i).len() ==> admitted(
                self.local(),
                i,
                #[trigger] self.bucket_entries(i)[j],
            )
    }

    /// An empty table with buckets of `K_BUCKET_SIZE`.
    pub fn new(local_id: NodeId) -> (r: RoutingTable)
        ensures
            r.wf(),
            r.local() == local_id,
            r.k_spec() == K_BUCKET_SIZE,
            forall|i: int| 0 <= i < BUCKET_COUNT ==> r.bucket_entries(i).len() == 0,
    {
        RoutingTable::with_capacity(local_id, K_BUCKET_SIZE)
    }

    /// An empty table with buckets of `k`.
    pub fn with_capacity(local_id: NodeId, k: usize) -> (r: RoutingTable)
        requires
            k > 0,
        ensures
            r.wf(),
            r.local() == local_id,
            r.k_spec() == k,
            forall|i: int| 0 <= i < BUCKET_COUNT ==> r.bucket_entries(i).len() == 0,
    {
        let mut buckets: Vec<KBucket> = Vec::new();
        let mut i: usize = 0;
        while i < BUCKET_COUNT
            invariant
                0 <= i <= BUCKET_COUNT,
                k > 0,
                buckets@.len() == i,
                forall|j: int| 0 <= j < i ==> #[trigger] buckets@[j].wf(),
                forall|j: int| 0 <= j < i ==> #[trigger] buckets@[j].cap() == k,
                forall|j: int| 0 <= j < i ==> #[trigger] buckets@[j].entries().len() == 0,
            decreases BUCKET_COUNT - i,
        {
            buckets.push(KBucket::new(k));
            i = i + 1;
        }
        RoutingTable { local_id, buckets, k }
    }

    pub fn local_id(&self) -> (r: NodeId)
        ensures
            r == self.local(),
    {
        self.local_id
    }

    /// Bucket index of `node_id`.
    pub fn bucket_index(&self, node_id: &NodeId) -> (r: usize)
        ensures
            r == bucket_of(self.local(), *node_id),
            r < BUCKET_COUNT,
    {
        let distance = self.local_id.distance(node_id);
        let zeros = distance.leading_zeros();
        if zeros > 255 {
            255
        } else {
            zeros as usize
        }
    }

    /// Admits a peer: refuses the local id, then an id that is not the
    /// digest of the key (the Sybil gate), then hands the peer to its
    /// bucket, which refreshes a known peer, appends a new one where there
    /// is room, or names its least recent peer.
    pub fn insert_at(
        &mut self,
        node_id: NodeId,
        public_key: PublicKey,
        addresses: Vec<NetworkAddress>,
        now: Timestamp,
    ) -> (r: Result<InsertResult, InsertError>)
        requires
            old(self).wf(),
        ensures
            final(self).wf(),
            final(self).local() == old(self).local(),
            final(self).k_spec() == old(self).k_spec(),
            admission_outcome(*old(self), *final(self), node_id, public_key, addresses, now, r),
    {
        if node_id == self.local_id {
            return Err(InsertError::SelfInsert);
        }
        let expected = NodeId::from_public_key(&public_key);
        if node_id != expected {
            proof {
                if id_matches_key(node_id, public_key) {
                    assert(node_id.0 =~= expected.0);
                }
            }
            return Err(InsertError::InvalidNodeId);
        }
        let index = self.bucket_index(&node_id);
        let ghost old_buckets = self.buckets@;
        let ghost old_nodes = old_buckets[index as int].entries();
        let result = self.buckets[index].insert_at(node_id, public_key, addresses, now);
        proof {
            let new_nodes = self.buckets@[index as int].entries();
            assert(self.buckets@ == old_buckets.update(index as int, self.buckets@[index as int]));
            assert forall|i: int, j: int|
                0 <= i < BUCKET_COUNT && 0 <= j < self.bucket_entries(i).len() implies admitted(
                self.local(),
                i,
                #[trigger] self.bucket_entries(i)[j],
            ) by {
                if i == index {
                    let e = new_nodes[j];
                    if exists|q: int| 0 <= q < old_nodes.len() && old_nodes[q].node_id == node_id {
                        let p = position_of(old_nodes, node_id);
                        if j < new_nodes.len() - 1 {
                            let oj = if j < p { j } else { j + 1 };
                            assert(e == old_nodes[oj]);
                            assert(admitted(self.local(), i, old(self).bucket_entries(i)[oj]));
                        } else {
                            assert(admitted(self.local(), i, old(self).bucket_entries(i)[p]));
                        }
                    } else if j < old_nodes.len() {
                        assert(e == old_nodes[j]);
                        assert(admitted(self.local(), i, old(self).bucket_entries(i)[j]));
                    }
                } else {
                    assert(self.bucket_seq()[i] == old(self).bucket_seq()[i]);
                    assert(admitted(self.local(), i, old(self).bucket_entries(i)[j]));
                }
            }
            assert forall|i: int| 0 <= i < BUCKET_COUNT implies #[trigger] self.bucket_seq()[i].wf() by {
                if i != index {
                    assert(self.bucket_seq()[i] == old(self).bucket_seq()[i]);
                }
            }
            assert forall|i: int| 0 <= i < BUCKET_COUNT implies #[trigger] self.bucket_seq()[i].cap() == self.k_spec() by {
                if i != index {
                    assert(self.bucket_seq()[i] == old(self).bucket_seq()[i]);
                }
            }
        }
        proof {
            if result is Err {
                assert(self.buckets@ =~= old_buckets);
            }
        }
        match result {
            Ok(true) => Ok(InsertResult::Inserted),
            Ok(false) => Ok(InsertResult::Updated),
            Err(eviction_candidate) => Err(InsertError::BucketFull { eviction_candidate }),
        }
    }

    /// `insert_at` at the current time.
    pub fn insert(&mut self, node_id: NodeId, public_key: PublicKey, addresses: Vec<NetworkAddress>) -> (r: Result<InsertResult, InsertError>)
        requires
            old(self).wf(),
        ensures
            final(self).wf(),
            final(self).local() == old(self).local(),
            final(self).k_spec() == old(self).k_spec(),
            exists|now: Timestamp| admission_outcome(*old(self), *final(self), node_id, public_key, addresses, now, r),
    {
        let now = Timestamp::now();
        self.insert_at(node_id, public_key, addresses, now)
    }

    /// Removes the peer with `node_id`.
    pub fn remove(&mut self, node_id: &NodeId) -> (r: Option<BucketEntry>)
        requires
            old(self).wf(),
        ensures
            final(self).wf(),
            final(self).local() == old(self).local(),
            r matches Some(e) ==> e.node_id == *node_id,
    {
        let index = self.bucket_index(node_id);
        let ghost old_buckets = self.buckets@;
        let ghost old_nodes = old_buckets[index as int].entries();
        let r = self.buckets[index].remove(node_id);
        proof {
            let new_nodes = self.buckets@[index as int].entries();
            assert(self.buckets@ == old_buckets.update(index as int, self.buckets@[index as int]));
            assert forall|i: int, j: int|
                0 <= i < BUCKET_COUNT && 0 <= j < self.bucket_entries(i).len() implies admitted(
                self.local(),
                i,
                #[trigger] self.bucket_entries(i)[j],
            ) by {
                if i == index {
                    if r is Some {
                        let p = position_of(old_nodes, *node_id);
                        let oj = if j < p { j } else { j + 1 };
                        assert(new_nodes[j] == old_nodes[oj]);
                        assert(admitted(self.local(), i, old(self).bucket_entries(i)[oj]));
                    } else {
                        assert(admitted(self.local(), i, old(self).bucket_entries(i)[j]));
                    }
                } else {
                    assert(self.bucket_seq()[i] == old(self).bucket_seq()[i]);
                    assert(admitted(self.local(), i, old(self).bucket_entries(i)[j]));
                }
            }
            assert forall|i: int| 0 <= i < BUCKET_COUNT implies #[trigger] self.bucket_seq()[i].wf() by {
                if i != index {
                    assert(self.bucket_seq()[i] == old(self).bucket_seq()[i]);
                }
            }
            assert forall|i: int| 0 <= i < BUCKET_COUNT implies #[trigger] self.bucket_seq()[i].cap() == self.k_spec() by {
                if i != index {
                    assert(self.bucket_seq()[i] == old(self).bucket_seq()[i]);
                }
            }
        }
        r
    }

    /// The entry of `node_id`, looked up in its bucket.
    pub fn find_node(&self, node_id: &NodeId) -> (r: Option<&BucketEntry>)
        requires
            self.wf(),
        ensures
            r matches Some(e) ==> e.node_id == *node_id && self.bucket_entries(
                bucket_of(self.local(), *node_id),
            ).contains(*e),
            r is None ==> forall|i: int, j: int|
                0 <= i < BUCKET_COUNT && 0 <= j < self.bucket_entries(i).len() ==> #[trigger] self.bucket_entries(
                    i,
                )[j].node_id != *node_id,
    {
        let index = self.bucket_index(node_id);
        let r = self.buckets[index].find_node(node_id);
        proof {
            if r is None {
                assert forall|i: int, j: int|
                    0 <= i < BUCKET_COUNT && 0 <= j < self.bucket_entries(i).len() implies #[trigger] self.bucket_entries(
                    i,
                )[j].node_id != *node_id by {
                    assert(admitted(self.local(), i, self.bucket_entries(i)[j]));
                }
            }
        }
        r
    }

    /// Number of peers in the table.
    pub fn node_count(&self) -> (r: usize)
        requires
            self.wf(),
        ensures
            r == self.all_entries().len(),
    {
        let all = self.all_nodes();
        all.len()
    }

    /// Copies of all entries, bucket by bucket.
    pub fn all_nodes(&self) -> (r: Vec<BucketEntry>)
        requires
            self.wf(),
        ensures
            r@ == self.all_entries(),
    {
        let mut out: Vec<BucketEntry> = Vec::new();
        let mut i: usize = 0;
        while i < self.buckets.len()
            invariant
                0 <= i <= self.buckets@.len(),
                out@ == self.buckets@.subrange(0, i as int).map_values(|b: KBucket| b.entries()).flatten(),
            decreases self.buckets@.len() - i,
        {
            let entries = self.buckets[i].nodes();
            let ghost before = out@;
            let mut j: usize = 0;
            while j < entries.len()
                invariant
                    0 <= j <= entries@.len(),
                    out@ == before + entries@.subrange(0, j as int),
                decreases entries@.len() - j,
            {
                out.push(entries[j].clone_entry());
                j = j + 1;
                proof {
                    assert(entries@.subrange(0, j as int) =~= entries@.subrange(0, j - 1).push(entries@[j - 1]));
                }
            }
            proof {
                assert(entries@.subrange(0, entries@.len() as int) =~= entries@);
                let front = self.buckets@.subrange(0, i as int);
                let grown = self.buckets@.subrange(0, i + 1);
                assert(grown =~= front.push(self.buckets@[i as int]));
                assert(grown.map_values(|b: KBucket| b.entries()) =~= front.map_values(|b: KBucket| b.entries()).push(
                    self.buckets@[i as int].entries(),
                ));
                front.map_values(|b: KBucket| b.entries()).lemma_flatten_push(self.buckets@[i as int].entries());
            }
            i = i + 1;
        }
        assert(self.buckets@.subrange(0, self.buckets@.len() as int) =~= self.buckets@);
        out
    }

    /// The `count` peers closest to `target`, closest first.
    pub fn closest_nodes(&self, target: &NodeId, count: usize) -> (r: Vec<BucketEntry>)
        requires
            self.wf(),
        ensures
            exists|picked: Seq<usize>|
                #[trigger] closest_selection(entry_ids(self.all_entries()), *target, picked)
                    && r@ == picked.map_values(|p: usize| self.all_entries()[p as int]),
            r@.len() == if count < self.all_entries().len() { count as int } else { self.all_entries().len() as int },
    {
        let all = self.all_nodes();
        let ids = entry_ids_of(&all);
        let picked = select_closest(&ids, target, count);
        let mut out: Vec<BucketEntry> = Vec::new();
        let mut i: usize = 0;
        while i < picked.len()
            invariant
                0 <= i <= picked@.len(),
                ids@ == all@.map_values(|e: BucketEntry| e.node_id),
                closest_selection(ids@, *target, picked@),
                out@ == picked@.subrange(0, i as int).map_values(|p: usize| all@[p as int]),
            decreases picked@.len() - i,
        {
            out.push(all[picked[i]].clone_entry());
            i = i + 1;
            proof {
                assert(picked@.subrange(0, i as int).map_values(|p: usize| all@[p as int]) =~= picked@.subrange(
                    0,
                    i - 1,
                ).map_values(|p: usize| all@[p as int]).push(all@[picked@[i - 1] as int]));
            }
        }
        assert(picked@.subrange(0, picked@.len() as int) =~= picked@);
        assert(closest_selection(entry_ids(self.all_entries()), *target, picked@));
        out
    }

    /// Removes the peers that are stale at `now` or dead, bucket by bucket.
    pub fn remove_stale_nodes_at(&mut self, now: Timestamp) -> (r: Vec<BucketEntry>)
        requires
            old(self).wf(),
        ensures
            final(self).wf(),
            final(self).local() == old(self).local(),
            forall|i: int| 0 <= i < BUCKET_COUNT ==> #[trigger] final(self).bucket_entries(i) == old(self).bucket_entries(
                i,
            ).filter(|e: BucketEntry| !e.evictable_at(now)),
            r@ == evicted_entries(old(self).bucket_seq(), now),
    {
        let mut removed: Vec<BucketEntry> = Vec::new();
        let mut i: usize = 0;
        let ghost start = self.buckets@;
        while i < BUCKET_COUNT
            invariant
                self.wf(),
                self.local() == old(self).local(),
                self.k_spec() == old(self).k_spec(),
                start == old(self).bucket_seq(),
                0 <= i <= BUCKET_COUNT,
                forall|b: int| 0 <= b < i ==> #[trigger] self.bucket_entries(b) == start[b].entries().filter(
                    |e: BucketEntry| !e.evictable_at(now),
                ),
                forall|b: int| i <= b < BUCKET_COUNT ==> #[trigger] self.bucket_seq()[b] == start[b],
                removed@ == evicted_entries(start.take(i as int), now),
                start.len() == BUCKET_COUNT,
            decreases BUCKET_COUNT - i,
        {
            let ghost before = self.buckets@;
            let ghost old_nodes = before[i as int].entries();
            proof {
                assert forall|q: int| 0 <= q < old_nodes.len() implies admitted(self.local(), i as int, old_nodes[q]) by {
                    assert(self.bucket_entries(i as int)[q] == old_nodes[q]);
                }
                assert forall|b: int, j: int| 0 <= b < BUCKET_COUNT && 0 <= j < before[b].entries().len() implies admitted(
                    self.local(),
                    b,
                    #[trigger] before[b].entries()[j],
                ) by {
                    assert(self.bucket_entries(b)[j] == before[b].entries()[j]);
                }
                assert forall|b: int| 0 <= b < i implies #[trigger] before[b].entries() == start[b].entries().filter(
                    |e: BucketEntry| !e.evictable_at(now),
                ) by {
                    assert(self.bucket_entries(b) == before[b].entries());
                }
            }
            let ghost r0 = removed@;
            let mut gone = self.buckets[i].remove_stale_at(now);
            let ghost g = gone@;
            removed.append(&mut gone);
            proof {
                let f = |b: KBucket| b.entries().filter(|e: BucketEntry| e.evictable_at(now));
                assert(start.take(i + 1) =~= start.take(i as int).push(start[i as int]));
                assert(start.take(i + 1).map_values(f) =~= start.take(i as int).map_values(f).push(f(start[i as int])));
                start.take(i as int).map_values(f).lemma_flatten_push(f(start[i as int]));
                assert(before[i as int] == start[i as int]);
                assert(removed@ =~= r0 + g);
                assert(self.buckets@ == before.update(i as int, self.buckets@[i as int]));
                assert forall|b: int, j: int|
                    0 <= b < BUCKET_COUNT && 0 <= j < self.bucket_entries(b).len() implies admitted(
                    self.local(),
                    b,
                    #[trigger] self.bucket_entries(b)[j],
                ) by {
                    if b == i {
                        let e = self.bucket_entries(b)[j];
                        assert(old_nodes.filter(|e: BucketEntry| !e.evictable_at(now)).contains(e));
                        old_nodes.lemma_filter_contains_rev(|e: BucketEntry| !e.evictable_at(now), e);
                        let q = choose|q: int| 0 <= q < old_nodes.len() && old_nodes[q] == e;
                        assert(admitted(self.local(), b, old_nodes[q]));
                    } else {
                        assert(self.bucket_seq()[b] == before[b]);
                        assert(self.bucket_entries(b)[j] == before[b].entries()[j]);
                    }
                }
                assert forall|b: int| 0 <= b < i + 1 implies #[trigger] self.bucket_entries(b) == start[b].entries().filter(
                    |e: BucketEntry| !e.evictable_at(now),
                ) by {
                    if b != i {
                        assert(self.bucket_seq()[b] == before[b]);
                        assert(before[b].entries() == start[b].entries().filter(|e: BucketEntry| !e.evictable_at(now)));
                    }
                }
                assert forall|b: int| 0 <= b < BUCKET_COUNT implies #[trigger] self.bucket_seq()[b].wf() by {
                    if b != i {
                        assert(self.bucket_seq()[b] == before[b]);
                    }
                }
                assert forall|b: int| 0 <= b < BUCKET_COUNT implies #[trigger] self.bucket_seq()[b].cap() == self.k_spec() by {
                    if b != i {
                        assert(self.bucket_seq()[b] == before[b]);
                    }
                }
            }
            i = i + 1;
        }
        assert(start.take(BUCKET_COUNT as int) =~= start);
        removed
    }

    /// Indices of the buckets not refreshed for `REFRESH_INTERVAL_SECS` at `now`.
    pub fn buckets_needing_refresh_at(&self, now: Timestamp) -> (r: Vec<usize>)
        requires
            self.wf(),
        ensures
            forall|j: int| 0 <= j < r@.len() ==> #[trigger] r@[j] < BUCKET_COUNT,
            forall|a: int, b: int| 0 <= a < b < r@.len() ==> r@[a] < r@[b],
            forall|i: int| 0 <= i < BUCKET_COUNT ==> (r@.contains(i as usize) <==> refresh_due(#[trigger] self.bucket_seq()[i], now)),
    {
        let mut out: Vec<usize> = Vec::new();
        let mut i: usize = 0;
        while i < self.buckets.len()
            invariant
                0 <= i <= self.buckets@.len(),
                self.buckets@.len() == BUCKET_COUNT,
                forall|j: int| 0 <= j < out@.len() ==> #[trigger] out@[j] < i,
                forall|a: int, b: int| 0 <= a < b < out@.len() ==> out@[a] < out@[b],
                forall|k: int| 0 <= k < i ==> (out@.contains(k as usize) <==> refresh_due(#[trigger] self.bucket_seq()[k], now)),
            decreases self.buckets@.len() - i,
        {
            let ghost o0 = out@;
            if self.buckets[i].needs_refresh_at(now) {
                out.push(i);
            }
            proof {
                assert forall|k: int| 0 <= k < i + 1 implies (out@.contains(k as usize) <==> refresh_due(#[trigger] self.bucket_seq()[k], now)) by {
                    if out@.len() > o0.len() {
                        assert(out@[o0.len() as int] == i);
                        if o0.contains(k as usize) {
                            let w = choose|w: int| 0 <= w < o0.len() && o0[w] == k as usize;
                            assert(out@[w] == k as usize);
                        }
                        if out@.contains(k as usize) && k < i {
                            let w = choose|w: int| 0 <= w < out@.len() && out@[w] == k as usize;
                            assert(w < o0.len());
                            assert(o0[w] == k as usize);
                        }
                    } else {
                        assert(out@ == o0);
                        if k == i {
                            if o0.contains(i) {
                                let w = choose|w: int| 0 <= w < o0.len() && o0[w] == i;
                            }
                        }
                    }
                    if k == i && out@.len() > o0.len() {
                        assert(out@.contains(i));
                    }
                    if k == i && out@.len() == o0.len() && o0.contains(i) {
                        let w = choose|w: int| 0 <= w < o0.len() && o0[w] == i;
                        assert(o0[w] < i);
                    }
                }
            }
            i = i + 1;
        }
        out
    }

    /// Records a refresh of bucket `bucket_index` at `now`; other indices are ignored.
    pub fn mark_bucket_refreshed_at(&mut self, bucket_index: usize, now: Timestamp)
        requires
            old(self).wf(),
        ensures
            final(self).wf(),
            final(self).local() == old(self).local(),
            forall|i: int| 0 <= i < BUCKET_COUNT ==> #[trigger] final(self).bucket_entries(i) == old(self).bucket_entries(i),
    {
        if bucket_index < BUCKET_COUNT {
            let ghost before = self.buckets@;
            self.buckets[bucket_index].mark_refreshed_at(now);
            proof {
                assert(self.buckets@ == before.update(bucket_index as int, self.buckets@[bucket_index as int]));
                assert forall|i: int| 0 <= i < BUCKET_COUNT implies #[trigger] self.bucket_seq()[i].wf() by {
                    if i != bucket_index {
                        assert(self.bucket_seq()[i] == before[i]);
                    }
                }
                assert forall|i: int| 0 <= i < BUCKET_COUNT implies #[trigger] self.bucket_seq()[i].cap() == self.k_spec() by {
                    if i != bucket_index {
                        assert(self.bucket_seq()[i] == before[i]);
                    }
                }
                assert forall|i: int| 0 <= i < BUCKET_COUNT implies #[trigger] self.bucket_entries(i) == old(self).bucket_entries(i) by {
                    if i != bucket_index {
                        assert(self.bucket_seq()[i] == before[i]);
                    }
                }
            }
        }
    }

    /// A random id for refreshing bucket `bucket_index`: random bytes XORed
    /// onto the local id after the first `bucket_index` bits are cleared and
    /// the next one set, so that the id falls in that bucket.
    pub fn random_id_for_bucket(&self, bucket_index: usize) -> (r: NodeId)
        requires
            bucket_index < BUCKET_COUNT,
        ensures
            forall|j: int| 0 <= j < bucket_index / 8 ==> #[trigger] r.0@[j] == self.local().0@[j],
            bucket_of(self.local(), r) == bucket_index,
    {
        let mut d = crate::random::random_array::<32>();
        let whole = bucket_index / 8;
        let bit = (bucket_index % 8) as u32;
        let mut j: usize = 0;
        while j < whole
            invariant
                0 <= j <= whole,
                whole == bucket_index / 8,
                whole < 32,
                forall|k: int| 0 <= k < j ==> d@[k] == 0,
            decreases whole - j,
        {
            d[j] = 0;
            j = j + 1;
        }
        let mask: u8 = (0xffu8 >> bit) >> 1u32;
        let top: u8 = 0x80u8 >> bit;
        let ghost d0w = d@[whole as int];
        d[whole] = (d[whole] & mask) | top;
        assert(d@[whole as int] == (d0w & ((0xffu8 >> (bit as u8)) >> 1u8)) | (0x80u8 >> (bit as u8))) by {
            assert(bit < 8);
            let b8 = bit as u8;
            assert((0xffu8 >> bit) == (0xffu8 >> b8)) by (bit_vector)
                requires bit < 8, b8 == bit as u8;
            assert((0x80u8 >> bit) == (0x80u8 >> b8)) by (bit_vector)
                requires bit < 8, b8 == bit as u8;
        }
        let mut out = [0u8; 32];
        let mut k: usize = 0;
        while k < 32
            invariant
                0 <= k <= 32,
                whole < 32,
                whole == bucket_index / 8,
                forall|m: int| 0 <= m < whole ==> d@[m] == 0,
                forall|m: int| 0 <= m < k ==> out@[m] == self.local_id.0@[m] ^ d@[m],
            decreases 32 - k,
        {
            out[k] = self.local_id.0[k] ^ d[k];
            k = k + 1;
        }
        proof {
            assert forall|m: int| 0 <= m < whole implies #[trigger] out@[m] == self.local_id.0@[m] by {
                let x = self.local_id.0@[m];
                assert(x ^ 0u8 == x) by (bit_vector);
            }
            let x = xor_bytes(self.local_id.0@, out@);
            assert forall|m: int| 0 <= m < 32 implies #[trigger] x[m] == d@[m] by {
                let a = self.local_id.0@[m];
                let b = d@[m];
                assert(a ^ (a ^ b) == b) by (bit_vector);
            }
            let v = d@[whole as int];
            let b8 = bit as u8;
            assert(b8 < 8);
            lemma_top_bit_set(d0w, b8);
            lemma_leading_zeros_of_top(v, b8);
            lemma_prefix_zero_bits(x, 0, whole as int);
        }
        NodeId(out)
    }

    /// Counts of peers, non-empty and full buckets.
    pub fn stats(&self) -> (r: RoutingTableStats)
        requires
            self.wf(),
        ensures
            r.total_nodes == self.all_entries().len(),
            r.bucket_capacity == self.k_spec(),
            r.non_empty_buckets <= BUCKET_COUNT,
            r.full_buckets <= BUCKET_COUNT,
    {
        let total_nodes = self.node_count();
        let mut non_empty_buckets: usize = 0;
        let mut full_buckets: usize = 0;
        let mut i: usize = 0;
        while i < self.buckets.len()
            invariant
                0 <= i <= self.buckets@.len(),
                self.buckets@.len() == BUCKET_COUNT,
                non_empty_buckets <= i,
                full_buckets <= i,
            decreases self.buckets@.len() - i,
        {
            if !self.buckets[i].is_empty() {
                non_empty_buckets = non_empty_buckets + 1;
            }
            if self.buckets[i].is_full() {
                full_buckets = full_buckets + 1;
            }
            i = i + 1;
        }
        RoutingTableStats { total_nodes, non_empty_buckets, full_buckets, bucket_capacity: self.k }
    }
}

/// The node ids of a list of entries, in order.
pub fn entry_ids_of(entries: &Vec<BucketEntry>) -> (r: Vec<NodeId>)
    ensures
        r@ == entries@.map_values(|e: BucketEntry| e.node_id),
{
    let mut out: Vec<NodeId> = Vec::new();
    let mut i: usize = 0;
    while i < entries.len()
        invariant
            0 <= i <= entries@.len(),
            out@ == entries@.subrange(0, i as int).map_values(|e: BucketEntry| e.node_id),
        decreases entries@.len() - i,
    {
        out.push(entries[i].node_id);
        i = i + 1;
        proof {
            assert(entries@.subrange(0, i as int).map_values(|e: BucketEntry| e.node_id) =~= entries@.subrange(
                0,
                i - 1,
            ).map_values(|e: BucketEntry| e.node_id).push(entries@[i - 1].node_id));
        }
    }
    assert(entries@.subrange(0, entries@.len() as int) =~= entries@);
    out
}

/// Admitting the same peer twice leaves its bucket's size unchanged and the
/// peer at the most-recent end.
pub proof fn lemma_reinsert_keeps_size(old_nodes: Seq<BucketEntry>, new_nodes: Seq<BucketEntry>, id: NodeId, refreshed: BucketEntry)
    requires
        exists|j: int| 0 <= j < old_nodes.len() && old_nodes[j].node_id == id,
        refreshed.node_id == id,
        new_nodes == old_nodes.remove(position_of(old_nodes, id)).push(refreshed),
    ensures
        new_nodes.len() == old_nodes.len(),
        new_nodes.last().node_id == id,
{
}

} // verus!
