use vstd::prelude::*;
use crate::config::{DEFAULT_CIRCUIT_LENGTH, MAX_CIRCUIT_LENGTH, MIN_CIRCUIT_LENGTH};
use crate::kbucket::BucketEntry;
use crate::lookup::contains_id;
use crate::node_id::NodeId;
use crate::routing_table::RoutingTable;
use crate::types::{Reputation, Timestamp};
use crate::random::{coin_flip, random_below, random_u64};

verus! {

/// Reputation at which a peer is of the high tier.
pub const HIGH_TIER: u32 = 200;

/// Reputation at which a peer is of the medium tier.
pub const MEDIUM_TIER: u32 = 100;

/// Least reputation of an exit.
pub const EXIT_MIN_REPUTATION: u32 = 150;

/// Least reputation of an entry guard.
pub const ENTRY_MIN_REPUTATION: u32 = 200;

/// What a path must satisfy.
#[derive(Debug, Clone)]
pub struct PathSelectionCriteria {
    pub min_reputation: Reputation,
    pub require_relay: bool,
    pub excluded_nodes: Vec<NodeId>,
    pub circuit_length: usize,
}

impl PathSelectionCriteria {
    /// Reputation 50 or more, relays only, nothing excluded, the default length.
    pub fn new() -> (r: PathSelectionCriteria)
        ensures
            r.min_reputation == Reputation(50),
            r.require_relay,
            r.excluded_nodes@.len() == 0,
            r.circuit_length == DEFAULT_CIRCUIT_LENGTH,
    {
        PathSelectionCriteria {
            min_reputation: Reputation::new(50),
            require_relay: true,
            excluded_nodes: Vec::new(),
            circuit_length: DEFAULT_CIRCUIT_LENGTH,
        }
    }

    pub fn with_min_reputation(self, reputation: Reputation) -> (r: PathSelectionCriteria)
        ensures
            r == (PathSelectionCriteria { min_reputation: reputation, ..self }),
    {
        PathSelectionCriteria { min_reputation: reputation, ..self }
    }

    /// Sets the length, clamped to `MIN_CIRCUIT_LENGTH..=MAX_CIRCUIT_LENGTH`.
    pub fn with_circuit_length(self, length: usize) -> (r: PathSelectionCriteria)
        ensures
            r == (PathSelectionCriteria {
                circuit_length: if length < MIN_CIRCUIT_LENGTH {
                    MIN_CIRCUIT_LENGTH
                } else if length > MAX_CIRCUIT_LENGTH {
                    MAX_CIRCUIT_LENGTH
                } else {
                    length
                },
                ..self
            }),
    {
        let clamped = if length < MIN_CIRCUIT_LENGTH {
            MIN_CIRCUIT_LENGTH
        } else if length > MAX_CIRCUIT_LENGTH {
            MAX_CIRCUIT_LENGTH
        } else {
            length
        };
        PathSelectionCriteria { circuit_length: clamped, ..self }
    }

    /// Adds `node_id` to the excluded nodes.
    pub fn exclude_node(self, node_id: NodeId) -> (r: PathSelectionCriteria)
        ensures
            r.min_reputation == self.min_reputation,
            r.require_relay == self.require_relay,
            r.circuit_length == self.circuit_length,
            r.excluded_nodes@.contains(node_id),
            forall|x: NodeId| self.excluded_nodes@.contains(x) ==> r.excluded_nodes@.contains(x),
            forall|x: NodeId| #[trigger] r.excluded_nodes@.contains(x) ==> x == node_id || self.excluded_nodes@.contains(x),
    {
        let mut excluded = self.excluded_nodes;
        let ghost before = excluded@;
        excluded.push(node_id);
        proof {
            assert(excluded@[excluded@.len() - 1] == node_id);
            assert forall|x: NodeId| before.contains(x) implies excluded@.contains(x) by {
                let i = choose|i: int| 0 <= i < before.len() && before[i] == x;
                assert(excluded@[i] == x);
            }
            assert forall|x: NodeId| #[trigger] excluded@.contains(x) implies x == node_id || before.contains(x) by {
                let i = choose|i: int| 0 <= i < excluded@.len() && excluded@[i] == x;
                if i < before.len() {
                    assert(before[i] == x);
                }
            }
        }
        PathSelectionCriteria { excluded_nodes: excluded, ..self }
    }

    /// Adds each of `nodes` to the excluded nodes.
    pub fn exclude_nodes(self, nodes: &[NodeId]) -> (r: PathSelectionCriteria)
        ensures
            r.min_reputation == self.min_reputation,
            r.require_relay == self.require_relay,
            r.circuit_length == self.circuit_length,
            forall|x: NodeId| self.excluded_nodes@.contains(x) ==> r.excluded_nodes@.contains(x),
            forall|i: int| 0 <= i < nodes@.len() ==> r.excluded_nodes@.contains(#[trigger] nodes@[i]),
    {
        let mut c = self;
        let mut i: usize = 0;
        while i < nodes.len()
            invariant
                0 <= i <= nodes@.len(),
                c.min_reputation == self.min_reputation,
                c.require_relay == self.require_relay,
                c.circuit_length == self.circuit_length,
                forall|x: NodeId| self.excluded_nodes@.contains(x) ==> c.excluded_nodes@.contains(x),
                forall|j: int| 0 <= j < i ==> c.excluded_nodes@.contains(#[trigger] nodes@[j]),
            decreases nodes@.len() - i,
        {
            c = c.exclude_node(nodes[i]);
            i = i + 1;
        }
        c
    }
}

/// Whether a peer may serve on a path at `now`.
pub open spec fn eligible(e: BucketEntry, c: PathSelectionCriteria, now: Timestamp) -> bool {
    &&& !c.excluded_nodes@.contains(e.node_id)
    &&& e.reputation.0 >= c.min_reputation.0
    &&& (c.require_relay ==> e.accepts_relay)
    &&& !e.stale_at(now)
}

/// Some eligible entry has id `id`.
pub open spec fn eligible_id(entries: Seq<BucketEntry>, c: PathSelectionCriteria, now: Timestamp, id: NodeId) -> bool {
    exists|j: int| 0 <= j < entries.len() && eligible(entries[j], c, now) && entries[j].node_id == id
}

/// Some relay peer of the table with id `id` has at least `min_rep` and is
/// not stale at `now`.
pub open spec fn qualified(entries: Seq<BucketEntry>, now: Timestamp, id: NodeId, min_rep: u32) -> bool {
    exists|j: int|
        0 <= j < entries.len() && #[trigger] entries[j].node_id == id && entries[j].reputation.0 >= min_rep
            && entries[j].accepts_relay && !entries[j].stale_at(now)
}

/// Some eligible entry has id `id` and reputation `rep`.
pub open spec fn eligible_entry(entries: Seq<BucketEntry>, c: PathSelectionCriteria, now: Timestamp, id: NodeId, rep: Reputation) -> bool {
    exists|j: int| 0 <= j < entries.len() && eligible(entries[j], c, now) && entries[j].node_id == id && entries[j].reputation == rep
}

/// Some eligible entry has id `id` and a reputation in `lo..hi`.
pub open spec fn ranked(entries: Seq<BucketEntry>, c: PathSelectionCriteria, now: Timestamp, id: NodeId, lo: int, hi: int) -> bool {
    exists|j: int|
        0 <= j < entries.len() && eligible(entries[j], c, now) && entries[j].node_id == id && lo <= entries[j].reputation.0 < hi
}

/// How many distinct peers are eligible at `now`.
pub open spec fn eligible_count(entries: Seq<BucketEntry>, c: PathSelectionCriteria, now: Timestamp) -> nat {
    Set::new(|id: NodeId| eligible_id(entries, c, now, id)).len()
}

/// The ids of a candidate list.
pub open spec fn ids_of(s: Seq<(NodeId, Reputation)>) -> Seq<NodeId> {
    s.map_values(|p: (NodeId, Reputation)| p.0)
}

/// The members of `pool` that are not in `used`, in order.
pub open spec fn unused_of(pool: Seq<NodeId>, used: Seq<NodeId>) -> Seq<NodeId> {
    pool.filter(|x: NodeId| !used.contains(x))
}

/// The tier (0 high, 1 medium, 2 low) a hop draws from, given how many
/// unused high and medium peers are left. Entry and exit prefer the high
/// tier; a middle hop flips a coin where both are left; the low tier is
/// used only where neither is.
pub open spec fn tier_choice(high_left: nat, medium_left: nat, end: bool, flip: bool) -> nat {
    if high_left > 0 && medium_left > 0 {
        if end || flip { 0 } else { 1 }
    } else if high_left > 0 {
        0
    } else if medium_left > 0 {
        1
    } else {
        2
    }
}

pub open spec fn tier_pool(high: Seq<NodeId>, medium: Seq<NodeId>, low: Seq<NodeId>, t: nat) -> Seq<NodeId> {
    if t == 0 { high } else if t == 1 { medium } else { low }
}

/// The tier of hop `i` of `path`, from the hops before it.
pub open spec fn hop_tier(high: Seq<NodeId>, medium: Seq<NodeId>, low: Seq<NodeId>, path: Seq<NodeId>, length: int, flips: Seq<bool>, i: int) -> nat {
    let used = path.take(i);
    tier_choice(unused_of(high, used).len(), unused_of(medium, used).len(), i == 0 || i == length - 1, flips[i])
}

/// Hop `i` of `path` is the peer at `draws[i]`, modulo their number, among
/// the unused peers of its tier.
pub open spec fn hop_drawn(
    high: Seq<NodeId>,
    medium: Seq<NodeId>,
    low: Seq<NodeId>,
    path: Seq<NodeId>,
    length: int,
    flips: Seq<bool>,
    draws: Seq<u64>,
    i: int,
) -> bool {
    let pool = unused_of(tier_pool(high, medium, low, hop_tier(high, medium, low, path, length, flips, i)), path.take(i));
    pool.len() > 0 && path[i] == pool[(draws[i] % (pool.len() as u64)) as int]
}

/// Hop `i` of `path` came from the low tier.
pub open spec fn low_hop(high: Seq<NodeId>, medium: Seq<NodeId>, low: Seq<NodeId>, path: Seq<NodeId>, length: int, flips: Seq<bool>, i: int) -> bool {
    hop_tier(high, medium, low, path, length, flips, i) == 2
}

/// Hop `i` of `path` is a member of its tier.
spec fn hop_in_tier(high: Seq<NodeId>, medium: Seq<NodeId>, low: Seq<NodeId>, path: Seq<NodeId>, length: int, flips: Seq<bool>, i: int) -> bool {
    tier_pool(high, medium, low, hop_tier(high, medium, low, path, length, flips, i)).contains(path[i])
}

/// Some hop of `hops` is an eligible peer of reputation under `MEDIUM_TIER`.
pub open spec fn has_low_hop(entries: Seq<BucketEntry>, c: PathSelectionCriteria, now: Timestamp, hops: Seq<NodeId>) -> bool {
    exists|a: int| 0 <= a < hops.len() && ranked(entries, c, now, #[trigger] hops[a], 0, MEDIUM_TIER as int)
}

/// A hop from the low tier is a peer of reputation under `MEDIUM_TIER`.
proof fn lemma_low_hop_ranked(
    entries: Seq<BucketEntry>,
    c: PathSelectionCriteria,
    now: Timestamp,
    high: Seq<NodeId>,
    medium: Seq<NodeId>,
    low: Seq<NodeId>,
    hops: Seq<NodeId>,
    length: int,
    flips: Seq<bool>,
)
    requires
        hops.len() == length,
        exists|a: int| 0 <= a < length && #[trigger] low_hop(high, medium, low, hops, length, flips, a),
        forall|a: int| 0 <= a < hops.len() ==> #[trigger] hop_in_tier(high, medium, low, hops, length, flips, a),
        forall|k: int| 0 <= k < low.len() ==> ranked(entries, c, now, #[trigger] low[k], 0, MEDIUM_TIER as int),
    ensures
        has_low_hop(entries, c, now, hops),
{
    let a = choose|a: int| 0 <= a < length && #[trigger] low_hop(high, medium, low, hops, length, flips, a);
    assert(hop_in_tier(high, medium, low, hops, length, flips, a));
    let w = choose|w: int| 0 <= w < low.len() && low[w] == hops[a];
    assert(ranked(entries, c, now, low[w], 0, MEDIUM_TIER as int));
    assert(ranked(entries, c, now, hops[a], 0, MEDIUM_TIER as int));
}

/// Three tiers with no peer twice, within or across them.
pub open spec fn separate_tiers(high: Seq<NodeId>, medium: Seq<NodeId>, low: Seq<NodeId>) -> bool {
    (high + medium + low).no_duplicates()
}

/// Fewer hops taken than peers in the tiers leave an unused peer in one.
proof fn lemma_some_unused(high: Seq<NodeId>, medium: Seq<NodeId>, low: Seq<NodeId>, used: Seq<NodeId>)
    requires
        separate_tiers(high, medium, low),
        used.len() < high.len() + medium.len() + low.len(),
    ensures
        unused_of(high, used).len() > 0 || unused_of(medium, used).len() > 0 || unused_of(low, used).len() > 0,
{
    broadcast use vstd::seq_lib::group_filter_ensures;
    let all = high + medium + low;
    if unused_of(high, used).len() == 0 && unused_of(medium, used).len() == 0 && unused_of(low, used).len() == 0 {
        assert forall|x: NodeId| all.to_set().contains(x) implies used.to_set().contains(x) by {
            let j = choose|j: int| 0 <= j < all.len() && all[j] == x;
            if !used.contains(x) {
                if j < high.len() {
                    assert(high[j] == x);
                    assert(unused_of(high, used).contains(x));
                } else if j < high.len() + medium.len() {
                    assert(medium[j - high.len()] == x);
                    assert(unused_of(medium, used).contains(x));
                } else {
                    assert(low[j - high.len() - medium.len()] == x);
                    assert(unused_of(low, used).contains(x));
                }
            }
        }
        all.unique_seq_to_set();
        used.lemma_cardinality_of_set();
        vstd::seq_lib::seq_to_set_is_finite(used);
        vstd::set_lib::lemma_len_subset(all.to_set(), used.to_set());
    }
}

/// Inserting a peer not yet present keeps the tiers free of repeats.
proof fn lemma_tiers_insert(before: Seq<NodeId>, after: Seq<NodeId>, pos: int, x: NodeId)
    requires
        before.no_duplicates(),
        !before.contains(x),
        0 <= pos <= before.len(),
        after =~= before.insert(pos, x),
    ensures
        after.no_duplicates(),
        forall|y: NodeId| after.contains(y) ==> y == x || before.contains(y),
{
    assert forall|a: int, b: int| 0 <= a < b < after.len() implies after[a] != after[b] by {
        let oa = if a < pos { a } else { a - 1 };
        let ob = if b < pos { b } else { b - 1 };
        if a == pos {
            assert(before.contains(before[ob]));
        } else if b == pos {
            assert(before.contains(before[oa]));
        }
    }
    assert forall|y: NodeId| after.contains(y) implies y == x || before.contains(y) by {
        let w = choose|w: int| 0 <= w < after.len() && after[w] == y;
        if w < pos {
            assert(before[w] == y);
        } else if w > pos {
            assert(before[w - 1] == y);
        }
    }
}

/// What `select_path_at` gives at `now`: the error exactly where too few
/// distinct peers are eligible, else a path of distinct eligible peers of
/// the asked length.
pub open spec fn path_outcome(
    entries: Seq<BucketEntry>,
    c: PathSelectionCriteria,
    now: Timestamp,
    r: Result<Vec<NodeId>, PathSelectionError>,
) -> bool {
    match r {
        Ok(path) => {
            &&& eligible_count(entries, c, now) >= c.circuit_length
            &&& path@.len() == c.circuit_length
            &&& forall|a: int, b: int| 0 <= a < b < path@.len() ==> path@[a] != path@[b]
            &&& forall|a: int| 0 <= a < path@.len() ==> eligible_id(entries, c, now, #[trigger] path@[a])
        },
        Err(e) => {
            &&& eligible_count(entries, c, now) < c.circuit_length
            &&& e == PathSelectionError::InsufficientNodes {
                available: eligible_count(entries, c, now) as usize,
                required: c.circuit_length,
            }
        },
    }
}

/// `path_outcome` at some moment.
pub open spec fn outcome_at_some_time(entries: Seq<BucketEntry>, c: PathSelectionCriteria, r: Result<Vec<NodeId>, PathSelectionError>) -> bool {
    exists|now: Timestamp| #[trigger] path_outcome(entries, c, now, r)
}

/// A chosen path, and whether it had to use peers of the low tier.
#[derive(Debug, Clone)]
pub struct SelectedPath {
    pub hops: Vec<NodeId>,
    pub reduced_trust: bool,
}

/// Failures of path selection.
#[derive(Debug, Clone, Copy, PartialEq, Eq, Structural)]
pub enum PathSelectionError {
    InsufficientNodes { available: usize, required: usize },
    InsufficientQualityNodes,
    InsufficientUniqueNodes,
    NoSuitableExit,
    NoSuitableEntry,
}

/// Chooses hops among the peers of a routing table.
pub struct PathSelector;

impl PathSelector {
    /// Whether an id occurs among `v`'s first components.
    fn has_id(v: &Vec<(NodeId, Reputation)>, id: &NodeId) -> (r: bool)
        ensures
            r == ids_of(v@).contains(*id),
    {
        let mut i: usize = 0;
        while i < v.len()
            invariant
                0 <= i <= v@.len(),
                forall|j: int| 0 <= j < i ==> v@[j].0 != *id,
            decreases v@.len() - i,
        {
            if v[i].0 == *id {
                assert(ids_of(v@)[i as int] == *id);
                return true;
            }
            i = i + 1;
        }
        proof {
            if ids_of(v@).contains(*id) {
                let j = choose|j: int| 0 <= j < ids_of(v@).len() && ids_of(v@)[j] == *id;
                assert(v@[j].0 == *id);
            }
        }
        false
    }

    /// The eligible peers of the table at `now`, as ids and reputations,
    /// each id once.
    pub fn candidates_at(routing_table: &RoutingTable, criteria: &PathSelectionCriteria, now: Timestamp) -> (r: Vec<(NodeId, Reputation)>)
        requires
            routing_table.wf(),
        ensures
            forall|i: int| 0 <= i < r@.len() ==> eligible_id(routing_table.all_entries(), *criteria, now, (#[trigger] r@[i]).0),
            forall|i: int| 0 <= i < r@.len() ==> eligible_entry(routing_table.all_entries(), *criteria, now, (#[trigger] r@[i]).0, r@[i].1),
            ids_of(r@).no_duplicates(),
            forall|j: int| 0 <= j < routing_table.all_entries().len() && eligible(routing_table.all_entries()[j], *criteria, now)
                ==> ids_of(r@).contains(#[trigger] routing_table.all_entries()[j].node_id),
            r@.len() == eligible_count(routing_table.all_entries(), *criteria, now),
    {
        let all = routing_table.all_nodes();
        let mut out: Vec<(NodeId, Reputation)> = Vec::new();
        let mut i: usize = 0;
        while i < all.len()
            invariant
                0 <= i <= all@.len(),
                all@ == routing_table.all_entries(),
                forall|k: int| 0 <= k < out@.len() ==> eligible_entry(all@, *criteria, now, (#[trigger] out@[k]).0, out@[k].1),
                ids_of(out@).no_duplicates(),
                forall|j: int| 0 <= j < i && eligible(all@[j], *criteria, now) ==> ids_of(out@).contains(#[trigger] all@[j].node_id),
            decreases all@.len() - i,
        {
            let e = &all[i];
            let ok = !contains_id(&criteria.excluded_nodes, &e.node_id) && e.reputation.0 >= criteria.min_reputation.0
                && (!criteria.require_relay || e.accepts_relay) && !e.is_stale_at(now);
            let ghost o0 = out@;
            if ok && !PathSelector::has_id(&out, &e.node_id) {
                out.push((e.node_id, e.reputation));
                proof {
                    assert(ids_of(out@) =~= ids_of(o0).push(e.node_id));
                    assert(eligible(all@[i as int], *criteria, now) && all@[i as int].node_id == e.node_id);
                    assert forall|k: int| 0 <= k < out@.len() implies eligible_entry(all@, *criteria, now, (#[trigger] out@[k]).0, out@[k].1) by {
                        if k < o0.len() {
                            assert(out@[k] == o0[k]);
                        }
                    }
                    assert forall|a: int, b: int| 0 <= a < b < ids_of(out@).len() implies ids_of(out@)[a] != ids_of(out@)[b] by {
                        if b == o0.len() {
                            assert(ids_of(o0).contains(ids_of(o0)[a]));
                        } else {
                            assert(ids_of(o0)[a] != ids_of(o0)[b]);
                        }
                    }
                    assert forall|j: int| 0 <= j < i + 1 && eligible(all@[j], *criteria, now) implies ids_of(out@).contains(
                        #[trigger] all@[j].node_id,
                    ) by {
                        if j < i {
                            let w = choose|w: int| 0 <= w < ids_of(o0).len() && ids_of(o0)[w] == all@[j].node_id;
                            assert(ids_of(out@)[w] == all@[j].node_id);
                        } else {
                            assert(ids_of(out@)[o0.len() as int] == all@[j].node_id);
                        }
                    }
                }
            }
            i = i + 1;
        }
        proof {
            let ids = ids_of(out@);
            let el = Set::new(|id: NodeId| eligible_id(all@, *criteria, now, id));
            assert forall|x: NodeId| ids.to_set().contains(x) <==> el.contains(x) by {
                if ids.contains(x) {
                    let k = choose|k: int| 0 <= k < ids.len() && ids[k] == x;
                    assert(eligible_entry(all@, *criteria, now, out@[k].0, out@[k].1));
                }
                if eligible_id(all@, *criteria, now, x) {
                    let j = choose|j: int| 0 <= j < all@.len() && eligible(all@[j], *criteria, now) && all@[j].node_id == x;
                    assert(ids.contains(all@[j].node_id));
                }
            }
            assert(ids.to_set() =~= el);
            ids.unique_seq_to_set();
            assert forall|k: int| 0 <= k < out@.len() implies eligible_id(all@, *criteria, now, (#[trigger] out@[k]).0) by {
                assert(eligible_entry(all@, *criteria, now, out@[k].0, out@[k].1));
            }
        }
        out
    }

    /// The members of `pool` not among `selected`, in order.
    fn unused(pool: &Vec<NodeId>, selected: &Vec<NodeId>) -> (r: Vec<NodeId>)
        ensures
            r@ == unused_of(pool@, selected@),
    {
        let mut out: Vec<NodeId> = Vec::new();
        let mut i: usize = 0;
        proof {
            assert(pool@.subrange(0, 0) =~= Seq::<NodeId>::empty());
            assert(Seq::<NodeId>::empty().filter(|x: NodeId| !selected@.contains(x)) =~= Seq::<NodeId>::empty()) by {
                reveal(Seq::filter);
            }
        }
        while i < pool.len()
            invariant
                0 <= i <= pool@.len(),
                out@ == unused_of(pool@.subrange(0, i as int), selected@),
            decreases pool@.len() - i,
        {
            proof {
                pool@.subrange(0, i as int).lemma_filter_push(pool@[i as int], |x: NodeId| !selected@.contains(x));
                assert(pool@.subrange(0, i as int).push(pool@[i as int]) =~= pool@.subrange(0, i + 1));
            }
            if !contains_id(selected, &pool[i]) {
                out.push(pool[i]);
            }
            i = i + 1;
        }
        assert(pool@.subrange(0, pool@.len() as int) =~= pool@);
        out
    }

    /// Draws a path of `length` hops from three tiers of peers, hop by hop:
    /// hop `i` takes the tier that `hop_tier` gives for the hops before it
    /// and `flips[i]`, and from that tier's unused peers the one at
    /// `draws[i]` modulo their number. The flag tells whether a hop came
    /// from the low tier.
    pub fn choose_path(
        high: &Vec<NodeId>,
        medium: &Vec<NodeId>,
        low: &Vec<NodeId>,
        length: usize,
        flips: &Vec<bool>,
        draws: &Vec<u64>,
    ) -> (r: (Vec<NodeId>, bool))
        requires
            separate_tiers(high@, medium@, low@),
            length <= high@.len() + medium@.len() + low@.len(),
            length <= flips@.len(),
            length <= draws@.len(),
        ensures
            r.0@.len() == length,
            forall|i: int| 0 <= i < length ==> #[trigger] hop_drawn(high@, medium@, low@, r.0@, length as int, flips@, draws@, i),
            r.1 <==> exists|i: int| 0 <= i < length && #[trigger] low_hop(high@, medium@, low@, r.0@, length as int, flips@, i),
            forall|a: int, b: int| 0 <= a < b < length ==> r.0@[a] != r.0@[b],
    {
        let mut path: Vec<NodeId> = Vec::new();
        let mut reduced = false;
        let mut i: usize = 0;
        while i < length
            invariant
                0 <= i <= length,
                length <= high@.len() + medium@.len() + low@.len(),
                length <= flips@.len(),
                length <= draws@.len(),
                separate_tiers(high@, medium@, low@),
                path@.len() == i,
                forall|k: int| 0 <= k < i ==> #[trigger] hop_drawn(high@, medium@, low@, path@, length as int, flips@, draws@, k),
                reduced <==> exists|k: int| 0 <= k < i && #[trigger] low_hop(high@, medium@, low@, path@, length as int, flips@, k),
                forall|a: int, b: int| 0 <= a < b < i ==> path@[a] != path@[b],
            decreases length - i,
        {
            let uh = PathSelector::unused(high, &path);
            let um = PathSelector::unused(medium, &path);
            let ul = PathSelector::unused(low, &path);
            let end = i == 0 || i == length - 1;
            let tier: u8 = if uh.len() > 0 && um.len() > 0 {
                if end || flips[i] {
                    0
                } else {
                    1
                }
            } else if uh.len() > 0 {
                0
            } else if um.len() > 0 {
                1
            } else {
                2
            };
            proof {
                assert(path@.take(i as int) =~= path@);
                lemma_some_unused(high@, medium@, low@, path@);
            }
            let pool = if tier == 0 {
                uh
            } else if tier == 1 {
                um
            } else {
                ul
            };
            let pick = pool[(draws[i] % (pool.len() as u64)) as usize];
            let ghost p0 = path@;
            path.push(pick);
            if tier == 2 {
                reduced = true;
            }
            proof {
                assert(p0.take(i as int) =~= p0);
                assert forall|k: int| 0 <= k <= i implies path@.take(k) =~= p0.take(k) by {}
                assert(hop_drawn(high@, medium@, low@, path@, length as int, flips@, draws@, i as int));
                assert(low_hop(high@, medium@, low@, path@, length as int, flips@, i as int) <==> tier == 2);
                assert forall|k: int| 0 <= k < i + 1 implies #[trigger] hop_drawn(high@, medium@, low@, path@, length as int, flips@, draws@, k) by {
                    if k < i {
                        assert(hop_drawn(high@, medium@, low@, p0, length as int, flips@, draws@, k));
                    }
                }
                assert forall|k: int| 0 <= k < i implies #[trigger] low_hop(high@, medium@, low@, path@, length as int, flips@, k)
                    == low_hop(high@, medium@, low@, p0, length as int, flips@, k) by {}
                let q = (draws@[i as int] % (pool@.len() as u64)) as int;
                tier_pool(high@, medium@, low@, tier as nat).lemma_filter_pred(|x: NodeId| !p0.contains(x), q);
                if reduced {
                    if tier != 2 {
                        let k = choose|k: int| 0 <= k < i && #[trigger] low_hop(high@, medium@, low@, p0, length as int, flips@, k);
                        assert(low_hop(high@, medium@, low@, path@, length as int, flips@, k));
                    }
                } else {
                    assert forall|k: int| 0 <= k < i + 1 implies !#[trigger] low_hop(high@, medium@, low@, path@, length as int, flips@, k) by {
                        if k < i {
                            assert(!low_hop(high@, medium@, low@, p0, length as int, flips@, k));
                        }
                    }
                }
                assert forall|a: int, b: int| 0 <= a < b < i + 1 implies path@[a] != path@[b] by {
                    if b == i {
                        assert(p0.contains(p0[a]));
                    }
                }
            }
            i = i + 1;
        }
        (path, reduced)
    }

    /// Picks `circuit_length` distinct eligible peers at `now`, and tells
    /// whether the path had to use the low tier. Peers are split by
    /// reputation into high (200 or more), medium (100 to 199) and low
    /// tiers, and `choose_path` draws the hops with random coin flips and
    /// draws. Fails exactly where fewer distinct peers are eligible than
    /// the path needs.
    pub fn select_path_with_trust_at(
        routing_table: &RoutingTable,
        criteria: &PathSelectionCriteria,
        now: Timestamp,
    ) -> (r: Result<SelectedPath, PathSelectionError>)
        requires
            routing_table.wf(),
        ensures
            r is Err <==> eligible_count(routing_table.all_entries(), *criteria, now) < criteria.circuit_length,
            r is Err ==> (r matches Err(PathSelectionError::InsufficientNodes { available, required })
                && available == eligible_count(routing_table.all_entries(), *criteria, now)
                && required == criteria.circuit_length),
            r matches Ok(p) ==> p.hops@.len() == criteria.circuit_length,
            r matches Ok(p) ==> forall|a: int, b: int| 0 <= a < b < p.hops@.len() ==> p.hops@[a] != p.hops@[b],
            r matches Ok(p) ==> forall|a: int|
                0 <= a < p.hops@.len() ==> eligible_id(routing_table.all_entries(), *criteria, now, #[trigger] p.hops@[a]),
            r matches Ok(p) ==> (p.reduced_trust ==> has_low_hop(routing_table.all_entries(), *criteria, now, p.hops@)),
            r matches Ok(p) ==> (!p.reduced_trust ==> forall|a: int|
                0 <= a < p.hops@.len() ==> ranked(routing_table.all_entries(), *criteria, now, #[trigger] p.hops@[a], MEDIUM_TIER as int, u32::MAX + 1)),
    {
        let ghost entries = routing_table.all_entries();
        let candidates = PathSelector::candidates_at(routing_table, criteria, now);
        let length = criteria.circuit_length;
        if candidates.len() < length {
            return Err(PathSelectionError::InsufficientNodes { available: candidates.len(), required: length });
        }
        let ghost cids = ids_of(candidates@);
        let mut high: Vec<NodeId> = Vec::new();
        let mut medium: Vec<NodeId> = Vec::new();
        let mut low: Vec<NodeId> = Vec::new();
        let mut i: usize = 0;
        proof {
            assert(high@ + medium@ + low@ =~= Seq::<NodeId>::empty());
        }
        while i < candidates.len()
            invariant
                0 <= i <= candidates@.len(),
                cids == ids_of(candidates@),
                cids.no_duplicates(),
                forall|k: int| 0 <= k < candidates@.len() ==> eligible_entry(entries, *criteria, now, (#[trigger] candidates@[k]).0, candidates@[k].1),
                separate_tiers(high@, medium@, low@),
                high@.len() + medium@.len() + low@.len() == i,
                forall|x: NodeId| (high@ + medium@ + low@).contains(x) ==> #[trigger] cids.take(i as int).contains(x),
                forall|k: int| 0 <= k < high@.len() ==> ranked(entries, *criteria, now, #[trigger] high@[k], HIGH_TIER as int, u32::MAX + 1),
                forall|k: int| 0 <= k < medium@.len() ==> ranked(entries, *criteria, now, #[trigger] medium@[k], MEDIUM_TIER as int, HIGH_TIER as int),
                forall|k: int| 0 <= k < low@.len() ==> ranked(entries, *criteria, now, #[trigger] low@[k], 0, MEDIUM_TIER as int),
            decreases candidates@.len() - i,
        {
            let (id, rep) = candidates[i];
            let ghost (h0, m0, l0) = (high@, medium@, low@);
            proof {
                assert(cids[i as int] == id);
                assert(eligible_entry(entries, *criteria, now, candidates@[i as int].0, candidates@[i as int].1));
                assert(!(h0 + m0 + l0).contains(id)) by {
                    if (h0 + m0 + l0).contains(id) {
                        assert(cids.take(i as int).contains(id));
                        let w = choose|w: int| 0 <= w < i && cids.take(i as int)[w] == id;
                        assert(cids[w] == cids[i as int]);
                    }
                }
                assert forall|x: NodeId| cids.take(i as int).contains(x) implies #[trigger] cids.take(i + 1).contains(x) by {
                    let w = choose|w: int| 0 <= w < i && cids.take(i as int)[w] == x;
                    assert(cids.take(i + 1)[w] == x);
                }
                assert(cids.take(i + 1)[i as int] == id);
            }
            if rep.0 >= HIGH_TIER {
                high.push(id);
                proof {
                    lemma_tiers_insert(h0 + m0 + l0, high@ + medium@ + low@, h0.len() as int, id);
                    assert forall|k: int| 0 <= k < high@.len() implies ranked(entries, *criteria, now, #[trigger] high@[k], HIGH_TIER as int, u32::MAX + 1) by {
                        if k < h0.len() {
                            assert(high@[k] == h0[k]);
                        }
                    }
                }
            } else if rep.0 >= MEDIUM_TIER {
                medium.push(id);
                proof {
                    lemma_tiers_insert(h0 + m0 + l0, high@ + medium@ + low@, (h0.len() + m0.len()) as int, id);
                    assert forall|k: int| 0 <= k < medium@.len() implies ranked(entries, *criteria, now, #[trigger] medium@[k], MEDIUM_TIER as int, HIGH_TIER as int) by {
                        if k < m0.len() {
                            assert(medium@[k] == m0[k]);
                        }
                    }
                }
            } else {
                low.push(id);
                proof {
                    lemma_tiers_insert(h0 + m0 + l0, high@ + medium@ + low@, (h0.len() + m0.len() + l0.len()) as int, id);
                    assert forall|k: int| 0 <= k < low@.len() implies ranked(entries, *criteria, now, #[trigger] low@[k], 0, MEDIUM_TIER as int) by {
                        if k < l0.len() {
                            assert(low@[k] == l0[k]);
                        }
                    }
                }
            }
            i = i + 1;
        }
        let mut flips: Vec<bool> = Vec::new();
        let mut draws: Vec<u64> = Vec::new();
        let mut k: usize = 0;
        while k < length
            invariant
                0 <= k <= length,
                flips@.len() == k,
                draws@.len() == k,
            decreases length - k,
        {
            flips.push(coin_flip());
            draws.push(random_u64());
            k = k + 1;
        }
        let (hops, reduced_trust) = PathSelector::choose_path(&high, &medium, &low, length, &flips, &draws);
        proof {
            assert forall|a: int| 0 <= a < hops@.len() implies #[trigger] hop_in_tier(high@, medium@, low@, hops@, length as int, flips@, a) by {
                assert(hop_drawn(high@, medium@, low@, hops@, length as int, flips@, draws@, a));
                let t = hop_tier(high@, medium@, low@, hops@, length as int, flips@, a);
                let pool = unused_of(tier_pool(high@, medium@, low@, t), hops@.take(a));
                let q = (draws@[a] % (pool.len() as u64)) as int;
                assert(pool.contains(pool[q]));
                tier_pool(high@, medium@, low@, t).lemma_filter_contains_rev(|x: NodeId| !hops@.take(a).contains(x), pool[q]);
            }
            assert forall|a: int| 0 <= a < hops@.len() implies eligible_id(entries, *criteria, now, #[trigger] hops@[a]) by {
                assert(hop_in_tier(high@, medium@, low@, hops@, length as int, flips@, a));
                let t = hop_tier(high@, medium@, low@, hops@, length as int, flips@, a);
                let w = choose|w: int| 0 <= w < tier_pool(high@, medium@, low@, t).len() && tier_pool(high@, medium@, low@, t)[w] == hops@[a];
                if t == 0 {
                    assert(ranked(entries, *criteria, now, high@[w], HIGH_TIER as int, u32::MAX + 1));
                } else if t == 1 {
                    assert(ranked(entries, *criteria, now, medium@[w], MEDIUM_TIER as int, HIGH_TIER as int));
                } else {
                    assert(ranked(entries, *criteria, now, low@[w], 0, MEDIUM_TIER as int));
                }
            }
            if reduced_trust {
                lemma_low_hop_ranked(entries, *criteria, now, high@, medium@, low@, hops@, length as int, flips@);
            } else {
                assert forall|a: int| 0 <= a < hops@.len() implies ranked(entries, *criteria, now, #[trigger] hops@[a], MEDIUM_TIER as int, u32::MAX + 1) by {
                    assert(!low_hop(high@, medium@, low@, hops@, length as int, flips@, a));
                    assert(hop_in_tier(high@, medium@, low@, hops@, length as int, flips@, a));
                    let t = hop_tier(high@, medium@, low@, hops@, length as int, flips@, a);
                    let w = choose|w: int| 0 <= w < tier_pool(high@, medium@, low@, t).len() && tier_pool(high@, medium@, low@, t)[w] == hops@[a];
                    if t == 0 {
                        assert(ranked(entries, *criteria, now, high@[w], HIGH_TIER as int, u32::MAX + 1));
                    } else {
                        assert(ranked(entries, *criteria, now, medium@[w], MEDIUM_TIER as int, HIGH_TIER as int));
                    }
                }
            }
        }
        Ok(SelectedPath { hops, reduced_trust })
    }

    /// The hops of `select_path_with_trust_at`.
    pub fn select_path_at(routing_table: &RoutingTable, criteria: &PathSelectionCriteria, now: Timestamp) -> (r: Result<Vec<NodeId>, PathSelectionError>)
        requires
            routing_table.wf(),
        ensures
            r is Err <==> eligible_count(routing_table.all_entries(), *criteria, now) < criteria.circuit_length,
            r is Err ==> (r matches Err(PathSelectionError::InsufficientNodes { available, required })
                && available == eligible_count(routing_table.all_entries(), *criteria, now)
                && required == criteria.circuit_length),
            r matches Ok(path) ==> path@.len() == criteria.circuit_length,
            r matches Ok(path) ==> forall|a: int, b: int| 0 <= a < b < path@.len() ==> path@[a] != path@[b],
            r matches Ok(path) ==> forall|a: int| 0 <= a < path@.len() ==> eligible_id(routing_table.all_entries(), *criteria, now, #[trigger] path@[a]),
            path_outcome(routing_table.all_entries(), *criteria, now, r),
    {
        match PathSelector::select_path_with_trust_at(routing_table, criteria, now) {
            Ok(p) => Ok(p.hops),
            Err(e) => Err(e),
        }
    }

    /// An exit at `now`: an eligible peer of reputation 150 or more, not
    /// among `excluded`, drawn uniformly.
    pub fn select_exit_node_at(routing_table: &RoutingTable, excluded: &[NodeId], now: Timestamp) -> (r: Result<NodeId, PathSelectionError>)
        requires
            routing_table.wf(),
        ensures
            r matches Ok(id) ==> !excluded@.contains(id) && qualified(routing_table.all_entries(), now, id, EXIT_MIN_REPUTATION),
    {
        let criteria = PathSelectionCriteria::new().exclude_nodes(excluded).with_min_reputation(Reputation::new(EXIT_MIN_REPUTATION));
        let candidates = PathSelector::candidates_at(routing_table, &criteria, now);
        if candidates.len() == 0 {
            return Err(PathSelectionError::NoSuitableExit);
        }
        let pick = candidates[random_below(candidates.len())].0;
        proof {
            let w = choose|w: int| 0 <= w < candidates@.len() && candidates@[w].0 == pick;
            assert(eligible_id(routing_table.all_entries(), criteria, now, (candidates@[w]).0));
            let j = choose|j: int| 0 <= j < routing_table.all_entries().len() && eligible(routing_table.all_entries()[j], criteria, now)
                && routing_table.all_entries()[j].node_id == pick;
            assert(routing_table.all_entries()[j].reputation.0 >= EXIT_MIN_REPUTATION);
            if excluded@.contains(pick) {
                let k = choose|k: int| 0 <= k < excluded@.len() && excluded@[k] == pick;
                assert(criteria.excluded_nodes@.contains(excluded@[k]));
            }
        }
        Ok(pick)
    }

    /// An entry guard at `now`: among the eligible peers of reputation 200
    /// or more not in `excluded`, the one of highest reputation (the first
    /// on a tie).
    pub fn select_entry_guard_at(routing_table: &RoutingTable, excluded: &[NodeId], now: Timestamp) -> (r: Result<NodeId, PathSelectionError>)
        requires
            routing_table.wf(),
        ensures
            r matches Ok(id) ==> !excluded@.contains(id) && qualified(routing_table.all_entries(), now, id, ENTRY_MIN_REPUTATION),
    {
        let criteria = PathSelectionCriteria::new().exclude_nodes(excluded).with_min_reputation(Reputation::new(ENTRY_MIN_REPUTATION));
        let candidates = PathSelector::candidates_at(routing_table, &criteria, now);
        if candidates.len() == 0 {
            return Err(PathSelectionError::NoSuitableEntry);
        }
        let mut best: usize = 0;
        let mut i: usize = 1;
        while i < candidates.len()
            invariant
                1 <= i <= candidates@.len(),
                best < i,
            decreases candidates@.len() - i,
        {
            if candidates[i].1.0 > candidates[best].1.0 {
                best = i;
            }
            i = i + 1;
        }
        let pick = candidates[best].0;
        proof {
            assert(eligible_id(routing_table.all_entries(), criteria, now, (candidates@[best as int]).0));
            let j = choose|j: int| 0 <= j < routing_table.all_entries().len() && eligible(routing_table.all_entries()[j], criteria, now)
                && routing_table.all_entries()[j].node_id == pick;
            assert(routing_table.all_entries()[j].reputation.0 >= ENTRY_MIN_REPUTATION);
            if excluded@.contains(pick) {
                let k = choose|k: int| 0 <= k < excluded@.len() && excluded@[k] == pick;
                assert(criteria.excluded_nodes@.contains(excluded@[k]));
            }
        }
        Ok(pick)
    }

    /// `select_exit_node_at` at the current time.
    pub fn select_exit_node(routing_table: &RoutingTable, excluded: &[NodeId]) -> (r: Result<NodeId, PathSelectionError>)
        requires
            routing_table.wf(),
        ensures
            r matches Ok(id) ==> !excluded@.contains(id),
    {
        PathSelector::select_exit_node_at(routing_table, excluded, Timestamp::now())
    }

    /// `select_entry_guard_at` at the current time.
    pub fn select_entry_guard(routing_table: &RoutingTable, excluded: &[NodeId]) -> (r: Result<NodeId, PathSelectionError>)
        requires
            routing_table.wf(),
        ensures
            r matches Ok(id) ==> !excluded@.contains(id),
    {
        PathSelector::select_entry_guard_at(routing_table, excluded, Timestamp::now())
    }

    /// `select_path_at` at the current time.
    pub fn select_path(routing_table: &RoutingTable, criteria: &PathSelectionCriteria) -> (r: Result<Vec<NodeId>, PathSelectionError>)
        requires
            routing_table.wf(),
        ensures
            r matches Ok(path) ==> path@.len() == criteria.circuit_length,
            r matches Ok(path) ==> forall|a: int, b: int| 0 <= a < b < path@.len() ==> path@[a] != path@[b],
            outcome_at_some_time(routing_table.all_entries(), *criteria, r),
    {
        let now = Timestamp::now();
        PathSelector::select_path_at(routing_table, criteria, now)
    }
}

} // verus!
