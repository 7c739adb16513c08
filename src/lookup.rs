use vstd::prelude::*;
use crate::closest::{closest_selection, dist, select_closest};
use crate::config::{ALPHA, K_BUCKET_SIZE};
use crate::node_id::NodeId;
use crate::routing_table::{entry_ids_of, RoutingTable};

verus! {

/// Whether `id` occurs in `v`.
pub fn contains_id(v: &Vec<NodeId>, id: &NodeId) -> (r: bool)
    ensures
        r == v@.contains(*id),
{
    let mut i: usize = 0;
    while i < v.len()
        invariant
            0 <= i <= v@.len(),
            forall|j: int| 0 <= j < i ==> v@[j] != *id,
        decreases v@.len() - i,
    {
        if v[i] == *id {
            return true;
        }
        i = i + 1;
    }
    false
}

/// Every id of `closest` (the first `k` of them) has been queried.
pub open spec fn closest_all_queried(closest: Seq<NodeId>, queried: Seq<NodeId>) -> bool {
    forall|i: int| 0 <= i < closest.len() ==> queried.contains(#[trigger] closest[i])
}

/// `closest` is the `k` nodes of `all` closest to `target` (all of them
/// where there are fewer), nearest first.
pub open spec fn closest_among(all: Seq<NodeId>, target: NodeId, k: nat, closest: Seq<NodeId>) -> bool {
    exists|picked: Seq<usize>|
        #[trigger] closest_selection(all, target, picked) && picked.len() == (if k < all.len() { k as int } else { all.len() as int })
            && closest == picked.map_values(|p: usize| all[p as int])
}

/// Some lookup of `s` is for `target` and is (`complete`) or is not complete.
pub open spec fn lookup_state(s: Seq<NodeLookup>, target: NodeId, complete: bool) -> bool {
    exists|q: int| 0 <= q < s.len() && #[trigger] s[q].target_spec() == target && s[q].complete_spec() == complete
}

/// `pending` after the nodes of `discovered` are considered in order: each
/// one that is not `target`, not asked and not yet pending is appended.
pub open spec fn added_pending(pending: Seq<NodeId>, discovered: Seq<NodeId>, target: NodeId, queried: Seq<NodeId>) -> Seq<NodeId>
    decreases discovered.len(),
{
    if discovered.len() == 0 {
        pending
    } else {
        let p0 = added_pending(pending, discovered.drop_last(), target, queried);
        let x = discovered.last();
        if x != target && !queried.contains(x) && !p0.contains(x) {
            p0.push(x)
        } else {
            p0
        }
    }
}

/// Appending only nodes not yet present keeps a list free of repeats.
pub proof fn lemma_added_pending_distinct(pending: Seq<NodeId>, discovered: Seq<NodeId>, target: NodeId, queried: Seq<NodeId>)
    requires
        pending.no_duplicates(),
    ensures
        added_pending(pending, discovered, target, queried).no_duplicates(),
    decreases discovered.len(),
{
    if discovered.len() > 0 {
        lemma_added_pending_distinct(pending, discovered.drop_last(), target, queried);
        let p0 = added_pending(pending, discovered.drop_last(), target, queried);
        let x = discovered.last();
        if x != target && !queried.contains(x) && !p0.contains(x) {
            assert forall|a: int, b: int| 0 <= a < b < p0.push(x).len() implies p0.push(x)[a] != p0.push(x)[b] by {
                if b == p0.len() {
                    assert(p0.contains(p0[a]));
                } else {
                    assert(p0[a] != p0[b]);
                }
            }
        }
    }
}

/// `after` is `before` once a response naming `discovered` is taken in:
/// the same target and asked nodes, the pending nodes kept and joined by
/// each named node that is neither the target nor asked, nothing else
/// added, and `closest` recomputed over asked and pending nodes.
pub open spec fn response_applied(before: NodeLookup, after: NodeLookup, discovered: Seq<NodeId>) -> bool {
    &&& after.target_spec() == before.target_spec()
    &&& after.queried_spec() == before.queried_spec()
    &&& after.k_spec() == before.k_spec()
    &&& after.alpha_spec() == before.alpha_spec()
    &&& after.pending_spec() == added_pending(before.pending_spec(), discovered, before.target_spec(), before.queried_spec())
    &&& forall|i: int| 0 <= i < before.pending_spec().len() ==> after.pending_spec().contains(#[trigger] before.pending_spec()[i])
    &&& forall|i: int|
        0 <= i < discovered.len() && discovered[i] != before.target_spec() && !before.queried_spec().contains(discovered[i])
            ==> after.pending_spec().contains(#[trigger] discovered[i])
    &&& forall|i: int|
        0 <= i < after.pending_spec().len() ==> before.pending_spec().contains(#[trigger] after.pending_spec()[i])
            || discovered.contains(after.pending_spec()[i])
    &&& after.complete_spec() == (before.complete_spec() || after.converged())
    &&& closest_among(after.queried_spec() + after.pending_spec(), after.target_spec(), after.k_spec(), after.closest_spec())
}

/// `l` is a lookup for `target` just started from `seeds`.
pub open spec fn fresh_lookup(l: NodeLookup, target: NodeId, seeds: Seq<NodeId>) -> bool {
    &&& l.target_spec() == target
    &&& l.pending_spec() == seeds
    &&& l.queried_spec().len() == 0
    &&& l.closest_spec().len() == 0
    &&& l.k_spec() == K_BUCKET_SIZE
    &&& l.alpha_spec() == ALPHA
    &&& l.complete_spec() == (seeds.len() == 0)
}

/// The lookup of `s` for `target` is complete and its closest nodes are `v`.
pub open spec fn finished_with(s: Seq<NodeLookup>, target: NodeId, v: Seq<NodeId>) -> bool {
    exists|q: int|
        0 <= q < s.len() && #[trigger] s[q].target_spec() == target && s[q].complete_spec() && s[q].closest_spec() == v
}

/// Some lookup of `s` at index `lo` or later is for `t`.
spec fn target_in_tail(s: Seq<NodeLookup>, lo: int, t: NodeId) -> bool {
    exists|q: int| lo <= q < s.len() && #[trigger] s[q].target_spec() == t
}

/// `x` is one of `s` at index `lo` or later.
spec fn in_tail(s: Seq<NodeLookup>, lo: int, x: NodeLookup) -> bool {
    exists|q: int| lo <= q < s.len() && s[q] == x
}

/// An iterative search for the nodes closest to a target.
#[derive(Debug)]
pub struct NodeLookup {
    target: NodeId,
    queried: Vec<NodeId>,
    pending: Vec<NodeId>,
    closest: Vec<NodeId>,
    k: usize,
    alpha: usize,
    complete: bool,
}

impl NodeLookup {
    pub closed spec fn target_spec(&self) -> NodeId {
        self.target
    }

    pub closed spec fn queried_spec(&self) -> Seq<NodeId> {
        self.queried@
    }

    pub closed spec fn pending_spec(&self) -> Seq<NodeId> {
        self.pending@
    }

    pub closed spec fn closest_spec(&self) -> Seq<NodeId> {
        self.closest@
    }

    pub closed spec fn k_spec(&self) -> nat {
        self.k as nat
    }

    pub closed spec fn alpha_spec(&self) -> nat {
        self.alpha as nat
    }

    pub closed spec fn complete_spec(&self) -> bool {
        self.complete
    }

    /// The convergence rule: nothing left to ask, or the closest known
    /// nodes have all been asked.
    pub open spec fn converged(&self) -> bool {
        self.pending_spec().len() == 0 || (self.closest_spec().len() > 0 && closest_all_queried(
            self.closest_spec(),
            self.queried_spec(),
        ))
    }

    /// A lookup for `target` seeded with `initial_nodes`, with `k =
    /// K_BUCKET_SIZE` and `alpha = ALPHA`; complete at once without seeds.
    pub fn new(target: NodeId, initial_nodes: Vec<NodeId>) -> (r: NodeLookup)
        ensures
            r.target_spec() == target,
            r.pending_spec() == initial_nodes@,
            r.queried_spec().len() == 0,
            r.closest_spec().len() == 0,
            r.k_spec() == K_BUCKET_SIZE,
            r.alpha_spec() == ALPHA,
            r.complete_spec() == (initial_nodes@.len() == 0),
    {
        let mut lookup = NodeLookup {
            target,
            queried: Vec::new(),
            pending: initial_nodes,
            closest: Vec::new(),
            k: K_BUCKET_SIZE,
            alpha: ALPHA,
            complete: false,
        };
        lookup.check_completion();
        lookup
    }

    pub fn target(&self) -> (r: NodeId)
        ensures
            r == self.target_spec(),
    {
        self.target
    }

    pub fn is_complete(&self) -> (r: bool)
        ensures
            r == self.complete_spec(),
    {
        self.complete
    }

    /// The closest nodes known, closest first.
    pub fn closest_nodes(&self) -> (r: &[NodeId])
        ensures
            r@ == self.closest_spec(),
    {
        self.closest.as_slice()
    }

    /// Nodes still to ask.
    pub fn pending_nodes(&self) -> (r: &[NodeId])
        ensures
            r@ == self.pending_spec(),
    {
        self.pending.as_slice()
    }

    /// Nodes asked or failed.
    pub fn queried_nodes(&self) -> (r: &[NodeId])
        ensures
            r@ == self.queried_spec(),
    {
        self.queried.as_slice()
    }

    /// Takes up to `alpha` pending nodes, closest to the target first, that
    /// have not been asked; they count as asked from now on. Pending nodes
    /// that were looked at leave the pending list.
    pub fn next_queries(&mut self) -> (r: Vec<NodeId>)
        ensures
            final(self).target_spec() == old(self).target_spec(),
            final(self).k_spec() == old(self).k_spec(),
            final(self).alpha_spec() == old(self).alpha_spec(),
            final(self).closest_spec() == old(self).closest_spec(),
            final(self).complete_spec() == old(self).complete_spec(),
            r@.len() <= old(self).alpha_spec(),
            forall|i: int| 0 <= i < r@.len() ==> old(self).pending_spec().contains(#[trigger] r@[i]),
            forall|i: int| 0 <= i < r@.len() ==> !old(self).queried_spec().contains(#[trigger] r@[i]),
            forall|i: int, j: int| 0 <= i < j < r@.len() ==> r@[i] != r@[j],
            forall|i: int, j: int| 0 <= i < j < r@.len() ==> dist(r@[i], old(self).target_spec()) <= dist(r@[j], old(self).target_spec()),
            final(self).queried_spec() == old(self).queried_spec() + r@,
            forall|i: int| 0 <= i < final(self).pending_spec().len() ==> old(self).pending_spec().contains(
                #[trigger] final(self).pending_spec()[i],
            ),
            old(self).alpha_spec() > 0 && (exists|i: int|
                0 <= i < old(self).pending_spec().len() && !old(self).queried_spec().contains(
                    #[trigger] old(self).pending_spec()[i],
                )) ==> r@.len() > 0,
            forall|j: int|
                0 <= j < old(self).pending_spec().len() && !old(self).queried_spec().contains(#[trigger] old(self).pending_spec()[j])
                    && !r@.contains(old(self).pending_spec()[j]) ==> r@.len() == old(self).alpha_spec() && forall|i: int|
                    0 <= i < r@.len() ==> dist(#[trigger] r@[i], old(self).target_spec()) <= dist(
                        old(self).pending_spec()[j],
                        old(self).target_spec(),
                    ),
    {
        let order = select_closest(&self.pending, &self.target, self.pending.len());
        let ghost pend = self.pending@;
        assert(pend == old(self).pending@);
        assert(pend.len() <= usize::MAX);
        let mut queries: Vec<NodeId> = Vec::new();
        let mut examined: Vec<bool> = Vec::new();
        let mut k: usize = 0;
        while k < self.pending.len()
            invariant
                0 <= k <= self.pending@.len(),
                self.pending@ == pend,
                examined@.len() == k,
                forall|j: int| 0 <= j < k ==> !examined@[j],
            decreases self.pending@.len() - k,
        {
            examined.push(false);
            k = k + 1;
        }
        let mut t: usize = 0;
        let ghost mut src: Seq<int> = Seq::empty();
        while t < order.len() && queries.len() < self.alpha
            invariant
                src.len() == queries@.len(),
                forall|k: int| 0 <= k < src.len() ==> 0 <= #[trigger] src[k] < t,
                forall|k1: int, k2: int| 0 <= k1 < k2 < src.len() ==> src[k1] < src[k2],
                forall|k: int| 0 <= k < queries@.len() ==> #[trigger] queries@[k] == pend[order@[src[k]] as int],
                self.pending@ == pend,
                order@.len() == pend.len(),
                closest_selection(pend, self.target, order@),
                examined@.len() == pend.len(),
                0 <= t <= order@.len(),
                queries@.len() <= self.alpha,
                forall|i: int| 0 <= i < queries@.len() ==> pend.contains(#[trigger] queries@[i]),
                forall|i: int| 0 <= i < queries@.len() ==> !self.queried@.contains(#[trigger] queries@[i]),
                forall|i: int, j: int| 0 <= i < j < queries@.len() ==> queries@[i] != queries@[j],
                forall|j: int| 0 <= j < pend.len() && examined@[j] && !self.queried@.contains(pend[j]) ==> queries@.contains(pend[j]),
                queries@.len() == 0 ==> forall|j: int| 0 <= j < pend.len() && examined@[j] ==> self.queried@.contains(pend[j]),
                forall|u: int| 0 <= u < t ==> examined@[#[trigger] order@[u] as int],
                self.target == old(self).target,
                self.k == old(self).k,
                self.alpha == old(self).alpha,
                self.closest == old(self).closest,
                self.complete == old(self).complete,
                self.queried == old(self).queried,
            decreases order@.len() - t,
        {
            let idx = order[t];
            let id = self.pending[idx];
            let ghost ex0 = examined@;
            let ghost q0 = queries@;
            examined.set(idx, true);
            let fresh = !contains_id(&self.queried, &id) && !contains_id(&queries, &id);
            if fresh {
                queries.push(id);
                proof {
                    src = src.push(t as int);
                }
            }
            proof {
                assert forall|k: int| 0 <= k < queries@.len() implies #[trigger] queries@[k] == pend[order@[src[k]] as int] by {
                    if k < q0.len() {
                        assert(queries@[k] == q0[k]);
                    }
                }
                assert forall|j: int| 0 <= j < pend.len() && examined@[j] && !self.queried@.contains(pend[j]) implies queries@.contains(pend[j]) by {
                    if j == idx {
                        if fresh {
                            assert(queries@[queries@.len() - 1] == id);
                        }
                    } else {
                        assert(ex0[j]);
                        let w = choose|w: int| 0 <= w < q0.len() && q0[w] == pend[j];
                        assert(queries@[w] == pend[j]);
                    }
                }
                assert forall|u: int| 0 <= u < t + 1 implies examined@[#[trigger] order@[u] as int] by {
                    if u < t {
                        assert(ex0[order@[u] as int]);
                    }
                }
            }
            t = t + 1;
        }
        proof {
            assert forall|a: int, b: int| 0 <= a < b < queries@.len() implies dist(queries@[a], self.target) <= dist(
                queries@[b],
                self.target,
            ) by {
                assert(src[a] < src[b]);
                assert(queries@[a] == pend[order@[src[a]] as int]);
                assert(queries@[b] == pend[order@[src[b]] as int]);
            }
            // When nothing was taken, every pending node was looked at and had been asked.
            if queries@.len() == 0 && self.alpha > 0 {
                assert(t == order@.len());
                assert forall|j: int| 0 <= j < pend.len() implies #[trigger] examined@[j] by {
                    lemma_full_selection(pend, self.target, order@, j);
                    let u = choose|u: int| 0 <= u < order@.len() && order@[u] == j as usize;
                    assert(examined@[order@[u] as int]);
                }
                assert forall|j: int| 0 <= j < pend.len() implies self.queried@.contains(#[trigger] pend[j]) by {
                    assert(examined@[j]);
                }
            }
            // A node left out, neither asked nor taken, is no closer than any taken.
            assert forall|j: int|
                0 <= j < pend.len() && !self.queried@.contains(#[trigger] pend[j]) && !queries@.contains(pend[j]) implies queries@.len()
                == self.alpha && forall|i: int| 0 <= i < queries@.len() ==> dist(#[trigger] queries@[i], self.target) <= dist(pend[j], self.target) by {
                assert(!examined@[j]);
                if t == order@.len() {
                    lemma_full_selection(pend, self.target, order@, j);
                    let u = choose|u: int| 0 <= u < order@.len() && order@[u] == j as usize;
                    assert(examined@[order@[u] as int]);
                }
                assert forall|i: int| 0 <= i < queries@.len() implies dist(#[trigger] queries@[i], self.target) <= dist(pend[j], self.target) by {
                    let si = src[i];
                    assert(queries@[i] == pend[order@[si] as int]);
                    if order@.contains(j as usize) {
                        let u = choose|u: int| 0 <= u < order@.len() && order@[u] == j as usize;
                        if u < t {
                            assert(examined@[order@[u] as int]);
                        }
                        assert(si < u);
                        assert(dist(pend[order@[si] as int], self.target) <= dist(pend[order@[u] as int], self.target));
                    } else {
                        assert(dist(pend[order@[si] as int], self.target) <= dist(pend[j], self.target));
                    }
                }
            }
        }
        let mut rest: Vec<NodeId> = Vec::new();
        let mut i: usize = 0;
        while i < self.pending.len()
            invariant
                self.pending@ == pend,
                self.target == old(self).target,
                self.k == old(self).k,
                self.alpha == old(self).alpha,
                self.closest == old(self).closest,
                self.complete == old(self).complete,
                self.queried == old(self).queried,
                examined@.len() == pend.len(),
                0 <= i <= pend.len(),
                forall|j: int| 0 <= j < rest@.len() ==> pend.contains(#[trigger] rest@[j]),
            decreases pend.len() - i,
        {
            if !examined[i] {
                rest.push(self.pending[i]);
            }
            i = i + 1;
        }
        self.pending = rest;
        assert(forall|i: int| 0 <= i < self.pending@.len() ==> pend.contains(#[trigger] self.pending@[i]));
        let mut j: usize = 0;
        let ghost q0 = self.queried@;
        while j < queries.len()
            invariant
                0 <= j <= queries@.len(),
                self.queried@ == q0 + queries@.subrange(0, j as int),
                pend == old(self).pending@,
                forall|i: int| 0 <= i < self.pending@.len() ==> pend.contains(#[trigger] self.pending@[i]),
                self.target == old(self).target,
                self.k == old(self).k,
                self.alpha == old(self).alpha,
                self.closest == old(self).closest,
                self.complete == old(self).complete,
            decreases queries@.len() - j,
        {
            self.queried.push(queries[j]);
            j = j + 1;
            proof {
                assert(queries@.subrange(0, j as int) =~= queries@.subrange(0, j - 1).push(queries@[j - 1]));
            }
        }
        assert(queries@.subrange(0, queries@.len() as int) =~= queries@);
        queries
    }

    /// Records the nodes that `from_node` named: those that are not the
    /// target and neither asked nor pending join the pending list. Then the
    /// closest list and completion are brought up to date.
    pub fn process_response(&mut self, from_node: NodeId, discovered_nodes: Vec<NodeId>)
        ensures
            final(self).target_spec() == old(self).target_spec(),
            final(self).queried_spec() == old(self).queried_spec(),
            forall|i: int| 0 <= i < old(self).pending_spec().len() ==> final(self).pending_spec().contains(
                #[trigger] old(self).pending_spec()[i],
            ),
            forall|i: int|
                0 <= i < discovered_nodes@.len() && discovered_nodes@[i] != old(self).target_spec()
                    && !old(self).queried_spec().contains(discovered_nodes@[i]) ==> final(self).pending_spec().contains(
                    #[trigger] discovered_nodes@[i],
                ),
            forall|i: int| 0 <= i < final(self).pending_spec().len() ==> old(self).pending_spec().contains(
                #[trigger] final(self).pending_spec()[i],
            ) || discovered_nodes@.contains(final(self).pending_spec()[i]),
            final(self).complete_spec() == (old(self).complete_spec() || final(self).converged()),
            final(self).k_spec() == old(self).k_spec(),
            final(self).alpha_spec() == old(self).alpha_spec(),
            closest_among(
                final(self).queried_spec() + final(self).pending_spec(),
                final(self).target_spec(),
                final(self).k_spec(),
                final(self).closest_spec(),
            ),
            response_applied(*old(self), *final(self), discovered_nodes@),
            old(self).pending_spec().no_duplicates() ==> final(self).pending_spec().no_duplicates(),
    {
        let ghost start = self.pending@;
        let mut i: usize = 0;
        while i < discovered_nodes.len()
            invariant
                0 <= i <= discovered_nodes@.len(),
                self.queried@ == old(self).queried@,
                self.target == old(self).target,
                self.complete == old(self).complete,
                self.k == old(self).k,
                self.alpha == old(self).alpha,
                start == old(self).pending@,
                self.pending@.len() >= start.len(),
                forall|j: int| 0 <= j < start.len() ==> #[trigger] self.pending@[j] == start[j],
                forall|j: int|
                    0 <= j < i && discovered_nodes@[j] != self.target && !self.queried@.contains(discovered_nodes@[j])
                        ==> self.pending@.contains(#[trigger] discovered_nodes@[j]),
                forall|j: int| 0 <= j < self.pending@.len() ==> start.contains(#[trigger] self.pending@[j])
                    || discovered_nodes@.contains(self.pending@[j]),
                self.pending@ == added_pending(start, discovered_nodes@.take(i as int), self.target, self.queried@),
            decreases discovered_nodes@.len() - i,
        {
            let id = discovered_nodes[i];
            let ghost pending_before = self.pending@;
            assert(discovered_nodes@.take(i + 1).drop_last() =~= discovered_nodes@.take(i as int));
            if id != self.target && !contains_id(&self.queried, &id) && !contains_id(&self.pending, &id) {
                self.pending.push(id);
                proof {
                    assert(self.pending@[self.pending@.len() - 1] == id);
                    assert forall|x: NodeId| pending_before.contains(x) implies self.pending@.contains(x) by {
                        let w = choose|w: int| 0 <= w < pending_before.len() && pending_before[w] == x;
                        assert(self.pending@[w] == x);
                    }
                }
            }
            i = i + 1;
        }
        proof {
            assert forall|j: int| 0 <= j < start.len() implies self.pending@.contains(#[trigger] start[j]) by {
                assert(self.pending@[j] == start[j]);
            }
            assert(discovered_nodes@.take(discovered_nodes@.len() as int) =~= discovered_nodes@);
            if start.no_duplicates() {
                lemma_added_pending_distinct(start, discovered_nodes@, self.target, self.queried@);
            }
        }
        self.update_closest();
        self.check_completion();
    }

    /// Counts a failed query as asked, then updates completion.
    pub fn mark_failed(&mut self, node_id: NodeId)
        ensures
            final(self).target_spec() == old(self).target_spec(),
            final(self).pending_spec() == old(self).pending_spec(),
            final(self).closest_spec() == old(self).closest_spec(),
            final(self).queried_spec().contains(node_id),
            forall|i: int| 0 <= i < old(self).queried_spec().len() ==> final(self).queried_spec().contains(
                #[trigger] old(self).queried_spec()[i],
            ),
            final(self).complete_spec() == (old(self).complete_spec() || final(self).converged()),
    {
        if !contains_id(&self.queried, &node_id) {
            self.queried.push(node_id);
            proof {
                assert(self.queried@[self.queried@.len() - 1] == node_id);
                assert forall|i: int| 0 <= i < old(self).queried@.len() implies self.queried@.contains(
                    #[trigger] old(self).queried@[i],
                ) by {
                    assert(self.queried@[i] == old(self).queried@[i]);
                }
            }
        }
        self.check_completion();
    }

    /// Sets `closest` to the `k` nodes closest to the target among those
    /// asked and pending.
    pub fn update_closest(&mut self)
        ensures
            final(self).target_spec() == old(self).target_spec(),
            final(self).queried_spec() == old(self).queried_spec(),
            final(self).pending_spec() == old(self).pending_spec(),
            final(self).complete_spec() == old(self).complete_spec(),
            final(self).k_spec() == old(self).k_spec(),
            final(self).alpha_spec() == old(self).alpha_spec(),
            closest_among(
                old(self).queried_spec() + old(self).pending_spec(),
                old(self).target_spec(),
                old(self).k_spec(),
                final(self).closest_spec(),
            ),
    {
        let mut all: Vec<NodeId> = Vec::new();
        let mut i: usize = 0;
        while i < self.queried.len()
            invariant
                0 <= i <= self.queried@.len(),
                all@ == self.queried@.subrange(0, i as int),
            decreases self.queried@.len() - i,
        {
            all.push(self.queried[i]);
            i = i + 1;
            proof {
                assert(self.queried@.subrange(0, i as int) =~= self.queried@.subrange(0, i - 1).push(self.queried@[i - 1]));
            }
        }
        let mut j: usize = 0;
        while j < self.pending.len()
            invariant
                0 <= j <= self.pending@.len(),
                all@ == self.queried@ + self.pending@.subrange(0, j as int),
            decreases self.pending@.len() - j,
        {
            all.push(self.pending[j]);
            j = j + 1;
            proof {
                assert(self.pending@.subrange(0, j as int) =~= self.pending@.subrange(0, j - 1).push(self.pending@[j - 1]));
            }
        }
        assert(self.pending@.subrange(0, self.pending@.len() as int) =~= self.pending@);
        assert(self.queried@.subrange(0, self.queried@.len() as int) =~= self.queried@);
        let picked = select_closest(&all, &self.target, self.k);
        let mut closest: Vec<NodeId> = Vec::new();
        let mut t: usize = 0;
        while t < picked.len()
            invariant
                0 <= t <= picked@.len(),
                closest_selection(all@, self.target, picked@),
                closest@ == picked@.subrange(0, t as int).map_values(|p: usize| all@[p as int]),
            decreases picked@.len() - t,
        {
            closest.push(all[picked[t]]);
            t = t + 1;
            proof {
                assert(picked@.subrange(0, t as int).map_values(|p: usize| all@[p as int]) =~= picked@.subrange(0, t - 1).map_values(
                    |p: usize| all@[p as int],
                ).push(all@[picked@[t - 1] as int]));
            }
        }
        assert(picked@.subrange(0, picked@.len() as int) =~= picked@);
        self.closest = closest;
        assert(closest_selection(all@, self.target, picked@));
    }

    /// Marks the lookup complete once it has converged.
    pub fn check_completion(&mut self)
        ensures
            final(self).target_spec() == old(self).target_spec(),
            final(self).queried_spec() == old(self).queried_spec(),
            final(self).pending_spec() == old(self).pending_spec(),
            final(self).closest_spec() == old(self).closest_spec(),
            final(self).k_spec() == old(self).k_spec(),
            final(self).alpha_spec() == old(self).alpha_spec(),
            final(self).complete_spec() == (old(self).complete_spec() || old(self).converged()),
    {
        if self.pending.len() == 0 {
            self.complete = true;
        } else if self.closest.len() > 0 && self.closest_all_asked() {
            self.complete = true;
        }
    }

    /// Whether every node of `closest` has been asked.
    fn closest_all_asked(&self) -> (r: bool)
        ensures
            r == closest_all_queried(self.closest@, self.queried@),
    {
        let mut i: usize = 0;
        while i < self.closest.len()
            invariant
                0 <= i <= self.closest@.len(),
                forall|j: int| 0 <= j < i ==> self.queried@.contains(#[trigger] self.closest@[j]),
            decreases self.closest@.len() - i,
        {
            if !contains_id(&self.queried, &self.closest[i]) {
                return false;
            }
            i = i + 1;
        }
        true
    }

    /// Stops the search: the lookup is complete and nothing stays pending.
    pub fn cancel(&mut self)
        ensures
            final(self).complete_spec(),
            final(self).pending_spec().len() == 0,
            final(self).target_spec() == old(self).target_spec(),
            final(self).queried_spec() == old(self).queried_spec(),
    {
        self.complete = true;
        self.pending = Vec::new();
    }
}

/// A selection of as many indices as the list has leaves none out.
proof fn lemma_full_selection(ids: Seq<NodeId>, target: NodeId, picked: Seq<usize>, j: int)
    requires
        closest_selection(ids, target, picked),
        picked.len() == ids.len(),
        ids.len() <= usize::MAX,
        0 <= j < ids.len(),
    ensures
        picked.contains(j as usize),
{
    if !picked.contains(j as usize) {
        let s = picked.to_set();
        let full = Set::new(|m: usize| (m as int) < ids.len() && m != j as usize);
        assert(s.subset_of(full));
        assert(picked.no_duplicates());
        picked.unique_seq_to_set();
        lemma_bounded_usize_set(ids.len() as int, j as usize);
        vstd::set_lib::lemma_len_subset(s, full);
    }
}

/// The indices below `n` other than `j` number `n - 1`.
proof fn lemma_bounded_usize_set(n: int, j: usize)
    requires
        0 <= j < n,
        n <= usize::MAX as int + 1,
    ensures
        Set::new(|m: usize| (m as int) < n && m != j).finite(),
        Set::new(|m: usize| (m as int) < n && m != j).len() == n - 1,
    decreases n,
{
    let full = Set::new(|m: usize| (m as int) < n && m != j);
    if n == j + 1 {
        if n == 1 {
            assert(full =~= Set::empty());
        } else {
            lemma_bounded_usize_set(n - 1, (n - 2) as usize);
            let smaller = Set::new(|m: usize| (m as int) < n - 1 && m != (n - 2) as usize);
            assert(full =~= smaller.insert((n - 2) as usize));
        }
    } else {
        lemma_bounded_usize_set(n - 1, j);
        let smaller = Set::new(|m: usize| (m as int) < n - 1 && m != j);
        assert(full =~= smaller.insert((n - 1) as usize));
    }
}

/// The lookups under way, one per target.
#[derive(Debug)]
pub struct LookupManager {
    lookups: Vec<NodeLookup>,
}

/// No two lookups share a target.
pub open spec fn distinct_targets(s: Seq<NodeLookup>) -> bool {
    forall|i: int, j: int| 0 <= i < j < s.len() ==> s[i].target_spec() != s[j].target_spec()
}

impl LookupManager {
    pub closed spec fn lookups_spec(&self) -> Seq<NodeLookup> {
        self.lookups@
    }

    pub open spec fn wf(&self) -> bool {
        distinct_targets(self.lookups_spec())
    }

    /// Whether a lookup for `target` is under way.
    pub open spec fn has_target(&self, target: NodeId) -> bool {
        exists|i: int| 0 <= i < self.lookups_spec().len() && #[trigger] self.lookups_spec()[i].target_spec() == target
    }

    pub fn new() -> (r: LookupManager)
        ensures
            r.wf(),
            r.lookups_spec().len() == 0,
    {
        LookupManager { lookups: Vec::new() }
    }

    fn position(&self, target: &NodeId) -> (r: Option<usize>)
        ensures
            r matches Some(i) ==> i < self.lookups@.len() && self.lookups@[i as int].target == *target,
            r is None ==> forall|i: int| 0 <= i < self.lookups@.len() ==> self.lookups@[i].target != *target,
    {
        let mut i: usize = 0;
        while i < self.lookups.len()
            invariant
                0 <= i <= self.lookups@.len(),
                forall|j: int| 0 <= j < i ==> self.lookups@[j].target != *target,
            decreases self.lookups@.len() - i,
        {
            if self.lookups[i].target == *target {
                return Some(i);
            }
            i = i + 1;
        }
        None
    }

    /// Starts a lookup for `target`, replacing one under way for it.
    pub fn start_lookup(&mut self, target: NodeId, initial_nodes: Vec<NodeId>)
        requires
            old(self).wf(),
        ensures
            final(self).wf(),
            final(self).has_target(target),
            forall|t: NodeId| t != target ==> (final(self).has_target(t) == old(self).has_target(t)),
            forall|i: int| 0 <= i < final(self).lookups_spec().len() && (#[trigger] final(self).lookups_spec()[i]).target_spec() == target
                ==> fresh_lookup(final(self).lookups_spec()[i], target, initial_nodes@),
            forall|i: int| 0 <= i < final(self).lookups_spec().len() && (#[trigger] final(self).lookups_spec()[i]).target_spec() != target
                ==> old(self).lookups_spec().contains(final(self).lookups_spec()[i]),
    {
        let ghost seeds = initial_nodes@;
        let lookup = NodeLookup::new(target, initial_nodes);
        assert(fresh_lookup(lookup, target, seeds));
        match self.position(&target) {
            Some(i) => {
                self.lookups.set(i, lookup);
                proof {
                    assert(self.lookups@[i as int].target_spec() == target);
                    assert forall|j: int| 0 <= j < self.lookups_spec().len() && (#[trigger] self.lookups_spec()[j]).target_spec() != target
                        implies old(self).lookups_spec().contains(self.lookups_spec()[j]) by {
                        assert(j != i);
                        assert(old(self).lookups_spec()[j] == self.lookups_spec()[j]);
                    }
                    assert forall|j: int| 0 <= j < self.lookups_spec().len() && (#[trigger] self.lookups_spec()[j]).target_spec() == target
                        implies fresh_lookup(self.lookups_spec()[j], target, seeds) by {
                        if j != i {
                            assert(old(self).lookups_spec()[j].target_spec() == target);
                            assert(old(self).lookups_spec()[i as int].target_spec() == target);
                        }
                    }
                    assert forall|t: NodeId| t != target implies (self.has_target(t) == old(self).has_target(t)) by {
                        if self.has_target(t) {
                            let q = choose|q: int| 0 <= q < self.lookups_spec().len() && #[trigger] self.lookups_spec()[q].target_spec() == t;
                            assert(q != i);
                            assert(old(self).lookups_spec()[q].target_spec() == t);
                        }
                        if old(self).has_target(t) {
                            let q = choose|q: int| 0 <= q < old(self).lookups_spec().len() && #[trigger] old(self).lookups_spec()[q].target_spec() == t;
                            assert(self.lookups_spec()[q].target_spec() == t);
                        }
                    }
                }
            },
            None => {
                self.lookups.push(lookup);
                proof {
                    assert(self.lookups@[self.lookups@.len() - 1].target_spec() == target);
                    assert forall|j: int| 0 <= j < self.lookups_spec().len() && (#[trigger] self.lookups_spec()[j]).target_spec() != target
                        implies old(self).lookups_spec().contains(self.lookups_spec()[j]) by {
                        assert(old(self).lookups_spec()[j] == self.lookups_spec()[j]);
                    }
                    assert forall|j: int| 0 <= j < self.lookups_spec().len() && (#[trigger] self.lookups_spec()[j]).target_spec() == target
                        implies fresh_lookup(self.lookups_spec()[j], target, seeds) by {
                        if j < old(self).lookups_spec().len() {
                            assert(old(self).lookups@[j].target == target);
                        }
                    }
                    assert forall|t: NodeId| t != target implies (self.has_target(t) == old(self).has_target(t)) by {
                        if self.has_target(t) {
                            let q = choose|q: int| 0 <= q < self.lookups_spec().len() && #[trigger] self.lookups_spec()[q].target_spec() == t;
                            assert(old(self).lookups_spec()[q].target_spec() == t);
                        }
                        if old(self).has_target(t) {
                            let q = choose|q: int| 0 <= q < old(self).lookups_spec().len() && #[trigger] old(self).lookups_spec()[q].target_spec() == t;
                            assert(self.lookups_spec()[q].target_spec() == t);
                        }
                    }
                }
            },
        }
    }

    pub fn get_lookup(&self, target: &NodeId) -> (r: Option<&NodeLookup>)
        ensures
            r matches Some(l) ==> l.target_spec() == *target,
            r is None <==> !self.has_target(*target),
    {
        match self.position(target) {
            Some(i) => {
                assert(self.lookups_spec()[i as int].target_spec() == *target);
                Some(&self.lookups[i])
            },
            None => {
                proof {
                    if self.has_target(*target) {
                        let q = choose|q: int| 0 <= q < self.lookups_spec().len() && #[trigger] self.lookups_spec()[q].target_spec() == *target;
                        assert(self.lookups@[q].target != *target);
                    }
                }
                None
            },
        }
    }

    /// Hands a lookup's response to it, where one for `target` is under way.
    pub fn process_response(&mut self, target: &NodeId, from_node: NodeId, discovered_nodes: Vec<NodeId>) -> (r: bool)
        requires
            old(self).wf(),
        ensures
            final(self).wf(),
            r == old(self).has_target(*target),
            final(self).lookups_spec().len() == old(self).lookups_spec().len(),
            forall|i: int| 0 <= i < old(self).lookups_spec().len() && (#[trigger] old(self).lookups_spec()[i]).target_spec() != *target
                ==> final(self).lookups_spec()[i] == old(self).lookups_spec()[i],
            forall|i: int| 0 <= i < old(self).lookups_spec().len() && (#[trigger] old(self).lookups_spec()[i]).target_spec() == *target
                ==> response_applied(old(self).lookups_spec()[i], final(self).lookups_spec()[i], discovered_nodes@),
    {
        let ghost found = discovered_nodes@;
        match self.position(target) {
            Some(i) => {
                let ghost before = self.lookups@;
                self.lookups[i].process_response(from_node, discovered_nodes);
                proof {
                    assert(self.lookups@ == before.update(i as int, self.lookups@[i as int]));
                    assert forall|a: int, b: int| 0 <= a < b < self.lookups@.len() implies self.lookups@[a].target_spec()
                        != self.lookups@[b].target_spec() by {
                        assert(before[a].target_spec() != before[b].target_spec());
                    }
                    assert(response_applied(before[i as int], self.lookups@[i as int], found));
                    assert forall|j: int| 0 <= j < before.len() && (#[trigger] before[j]).target_spec() == *target
                        implies j == i by {
                        if j != i {
                            assert(before[j].target_spec() != before[i as int].target_spec());
                        }
                    }
                }
                true
            },
            None => false,
        }
    }

    /// Removes the lookup for `target`.
    pub fn remove_lookup(&mut self, target: &NodeId) -> (r: Option<NodeLookup>)
        requires
            old(self).wf(),
        ensures
            final(self).wf(),
            r matches Some(l) ==> l.target_spec() == *target,
            r matches Some(l) ==> old(self).lookups_spec().contains(l),
            r is None <==> !old(self).has_target(*target),
            !final(self).has_target(*target),
    {
        match self.position(target) {
            Some(i) => {
                let ghost before = self.lookups@;
                let l = self.lookups.remove(i);
                proof {
                    assert forall|a: int, b: int| 0 <= a < b < self.lookups@.len() implies self.lookups@[a].target_spec()
                        != self.lookups@[b].target_spec() by {
                        let oa = if a < i { a } else { a + 1 };
                        let ob = if b < i { b } else { b + 1 };
                        assert(self.lookups@[a] == before[oa]);
                        assert(self.lookups@[b] == before[ob]);
                    }
                    if self.has_target(*target) {
                        let q = choose|q: int| 0 <= q < self.lookups_spec().len() && #[trigger] self.lookups_spec()[q].target_spec() == *target;
                        let oq = if q < i { q } else { q + 1 };
                        assert(self.lookups@[q] == before[oq]);
                        assert(before[oq].target_spec() == before[i as int].target_spec());
                    }
                }
                assert(old(self).lookups_spec()[i as int].target_spec() == *target);
                assert(old(self).lookups_spec()[i as int] == l);
                Some(l)
            },
            None => {
                proof {
                    if old(self).has_target(*target) {
                        let q = choose|q: int| 0 <= q < old(self).lookups_spec().len() && #[trigger] old(self).lookups_spec()[q].target_spec() == *target;
                        assert(self.lookups@[q].target != *target);
                    }
                }
                None
            },
        }
    }

    /// The lookups under way.
    pub fn active_lookups(&self) -> (r: std::slice::Iter<'_, NodeLookup>) {
        self.lookups.iter()
    }

    /// Number of lookups under way.
    pub fn active_count(&self) -> (r: usize)
        ensures
            r == self.lookups_spec().len(),
    {
        self.lookups.len()
    }

    /// Removes the complete lookups and returns their targets.
    pub fn cleanup_completed(&mut self) -> (r: Vec<NodeId>)
        requires
            old(self).wf(),
        ensures
            final(self).wf(),
            forall|i: int| 0 <= i < final(self).lookups_spec().len() ==> !(#[trigger] final(self).lookups_spec()[i]).complete_spec(),
            forall|i: int| 0 <= i < final(self).lookups_spec().len() ==> old(self).lookups_spec().contains(
                #[trigger] final(self).lookups_spec()[i],
            ),
            forall|t: NodeId| #[trigger] r@.contains(t) <==> lookup_state(old(self).lookups_spec(), t, true),
            r@.no_duplicates(),
            r@.len() + final(self).lookups_spec().len() == old(self).lookups_spec().len(),
            forall|t: NodeId| #[trigger] final(self).has_target(t) <==> lookup_state(old(self).lookups_spec(), t, false),
    {
        let mut kept: Vec<NodeLookup> = Vec::new();
        let mut done: Vec<NodeId> = Vec::new();
        let ghost start = self.lookups@;
        while self.lookups.len() > 0
            invariant
                start == old(self).lookups@,
                distinct_targets(start),
                self.lookups@.len() <= start.len(),
                self.lookups@ == start.subrange(0, self.lookups@.len() as int),
                forall|i: int| 0 <= i < kept@.len() ==> !(#[trigger] kept@[i]).complete,
                forall|i: int| 0 <= i < kept@.len() ==> in_tail(start, self.lookups@.len() as int, #[trigger] kept@[i]),
                forall|a: int, b: int| 0 <= a < b < kept@.len() ==> kept@[a].target != kept@[b].target,
                forall|i: int| 0 <= i < done@.len() ==> lookup_state(start, #[trigger] done@[i], true),
                forall|i: int| 0 <= i < done@.len() ==> target_in_tail(start, self.lookups@.len() as int, #[trigger] done@[i]),
                done@.no_duplicates(),
                done@.len() + kept@.len() + self.lookups@.len() == start.len(),
                forall|q: int| self.lookups@.len() <= q < start.len() && (#[trigger] start[q]).complete ==> done@.contains(start[q].target),
                forall|q: int| self.lookups@.len() <= q < start.len() && !(#[trigger] start[q]).complete ==> kept@.contains(start[q]),
            decreases self.lookups@.len(),
        {
            let ghost n = self.lookups@.len();
            let ghost d0 = done@;
            let ghost before = kept@;
            let l = self.lookups.pop().unwrap();
            assert(l == start[n - 1]);
            if l.is_complete() {
                done.push(l.target);
                proof {
                    assert(start[n - 1].target == done@[done@.len() - 1]);
                    assert forall|i: int| 0 <= i < done@.len() implies target_in_tail(start, n - 1, #[trigger] done@[i]) by {
                        if i < d0.len() {
                            assert(done@[i] == d0[i]);
                            assert(target_in_tail(start, n as int, d0[i]));
                            let q = choose|q: int| n <= q < start.len() && #[trigger] start[q].target_spec() == d0[i];
                            assert(start[q].target_spec() == done@[i]);
                        } else {
                            assert(start[n - 1].target_spec() == done@[i]);
                        }
                    }
                    assert forall|a: int, b: int| 0 <= a < b < done@.len() implies done@[a] != done@[b] by {
                        if b == d0.len() {
                            assert(done@[a] == d0[a]);
                            assert(target_in_tail(start, n as int, d0[a]));
                            let q = choose|q: int| n <= q < start.len() && #[trigger] start[q].target_spec() == d0[a];
                            assert(start[n - 1].target_spec() != start[q].target_spec());
                        } else {
                            assert(done@[a] == d0[a] && done@[b] == d0[b]);
                        }
                    }
                    assert forall|i: int| 0 <= i < done@.len() implies lookup_state(start, #[trigger] done@[i], true) by {
                        if i < d0.len() {
                            assert(done@[i] == d0[i]);
                        } else {
                            assert(start[n - 1].target_spec() == done@[i] && start[n - 1].complete_spec());
                        }
                    }
                    assert forall|q: int| n - 1 <= q < start.len() && (#[trigger] start[q]).complete implies done@.contains(start[q].target) by {
                        if q >= n {
                            let w = choose|w: int| 0 <= w < d0.len() && d0[w] == start[q].target;
                            assert(done@[w] == start[q].target);
                        }
                    }
                }
            } else {
                kept.push(l);
                proof {
                    assert forall|i: int| 0 <= i < done@.len() implies target_in_tail(start, n - 1, #[trigger] done@[i]) by {
                        assert(target_in_tail(start, n as int, done@[i]));
                        let q = choose|q: int| n <= q < start.len() && #[trigger] start[q].target_spec() == done@[i];
                        assert(start[q].target_spec() == done@[i]);
                    }
                    assert forall|i: int| 0 <= i < kept@.len() implies in_tail(start, self.lookups@.len() as int, #[trigger] kept@[i]) by {
                        if i == kept@.len() - 1 {
                            assert(start[n - 1] == kept@[i]);
                        } else {
                            assert(kept@[i] == before[i]);
                            assert(in_tail(start, n as int, before[i]));
                        }
                    }
                    assert forall|a: int, b: int| 0 <= a < b < kept@.len() implies kept@[a].target != kept@[b].target by {
                        if b == kept@.len() - 1 {
                            assert(kept@[a] == before[a]);
                            assert(in_tail(start, n as int, before[a]));
                            let q = choose|q: int| n <= q < start.len() && start[q] == before[a];
                            assert(start[q].target_spec() != start[n - 1].target_spec());
                        }
                    }
                    assert forall|q: int| n - 1 <= q < start.len() && !(#[trigger] start[q]).complete implies kept@.contains(start[q]) by {
                        if q >= n {
                            let w = choose|w: int| 0 <= w < before.len() && before[w] == start[q];
                            assert(kept@[w] == start[q]);
                        } else {
                            assert(kept@[kept@.len() - 1] == start[q]);
                        }
                    }
                }
            }
            proof {
                assert(self.lookups@ =~= start.subrange(0, self.lookups@.len() as int));
            }
        }
        proof {
            assert forall|i: int| 0 <= i < kept@.len() implies old(self).lookups_spec().contains(#[trigger] kept@[i]) by {
                assert(in_tail(start, 0, kept@[i]));
                let q = choose|q: int| 0 <= q < start.len() && start[q] == kept@[i];
                assert(old(self).lookups_spec()[q] == kept@[i]);
            }
        }
        self.lookups = kept;
        proof {
            assert forall|t: NodeId| #[trigger] done@.contains(t) <==> lookup_state(start, t, true) by {
                if done@.contains(t) {
                    let w = choose|w: int| 0 <= w < done@.len() && done@[w] == t;
                    assert(lookup_state(start, done@[w], true));
                }
                if lookup_state(start, t, true) {
                    let q = choose|q: int| 0 <= q < start.len() && #[trigger] start[q].target_spec() == t && start[q].complete_spec() == true;
                    assert(start[q].complete);
                }
            }
            assert forall|t: NodeId| #[trigger] self.has_target(t) <==> lookup_state(start, t, false) by {
                if self.has_target(t) {
                    let i = choose|i: int| 0 <= i < self.lookups_spec().len() && #[trigger] self.lookups_spec()[i].target_spec() == t;
                    assert(in_tail(start, 0, kept@[i]));
                    let q = choose|q: int| 0 <= q < start.len() && start[q] == kept@[i];
                    assert(!kept@[i].complete);
                    assert(start[q].target_spec() == t && start[q].complete_spec() == false);
                }
                if lookup_state(start, t, false) {
                    let q = choose|q: int| 0 <= q < start.len() && #[trigger] start[q].target_spec() == t && start[q].complete_spec() == false;
                    assert(!start[q].complete);
                    assert(kept@.contains(start[q]));
                    let w = choose|w: int| 0 <= w < kept@.len() && kept@[w] == start[q];
                    assert(self.lookups_spec()[w].target_spec() == t);
                }
            }
        }
        done
    }
}

impl Default for LookupManager {
    fn default() -> (r: LookupManager)
        ensures
            r.wf(),
            r.lookups_spec().len() == 0,
    {
        LookupManager::new()
    }
}

/// Ids of the `count` peers of the table closest to `target`, closest first.
pub fn find_closest_nodes(routing_table: &RoutingTable, target: &NodeId, count: usize) -> (r: Vec<NodeId>)
    requires
        routing_table.wf(),
    ensures
        r@.len() == if count < routing_table.all_entries().len() {
            count as int
        } else {
            routing_table.all_entries().len() as int
        },
{
    let entries = routing_table.closest_nodes(target, count);
    entry_ids_of(&entries)
}

} // verus!
