use vstd::prelude::*;
use crate::circuit::{Circuit, CircuitId, CircuitNode, CircuitPurpose, CircuitState};
use crate::config::{CIRCUIT_LIFETIME_SECS, DEFAULT_CIRCUIT_LENGTH, MAX_CIRCUITS, MIN_CIRCUIT_LENGTH};
use crate::kbucket::BucketEntry;
use crate::error::AnonNetError;
use crate::node_id::NodeId;
use crate::path_selection::{eligible_count, path_outcome, PathSelectionCriteria, PathSelectionError, PathSelector};
use crate::routing_table::RoutingTable;
use crate::stats::{CircuitCleanupStats, CircuitManagerStats};
use crate::types::{sat_sub, Reputation, Timestamp};

verus! {

/// Circuits are removed at cleanup when expired, failed or closed.
pub open spec fn retired_at(c: Circuit, now: Timestamp) -> bool {
    sat_sub(now.0 as int, c.created_at.0 as int) > CIRCUIT_LIFETIME_SECS || c.state == CircuitState::Failed
        || c.state == CircuitState::Closed
}

/// Older than the circuit lifetime at `now`.
pub open spec fn lapsed(c: Circuit, now: Timestamp) -> bool {
    sat_sub(now.0 as int, c.created_at.0 as int) > CIRCUIT_LIFETIME_SECS
}

/// May serve a new stream at `now`.
pub open spec fn serves_at(c: Circuit, now: Timestamp) -> bool {
    c.state == CircuitState::Ready && c.nodes@.len() >= MIN_CIRCUIT_LENGTH && sat_sub(
        now.0 as int,
        c.created_at.0 as int,
    ) <= CIRCUIT_LIFETIME_SECS
}

/// The number of circuits of `purpose` in `s` that may serve at `now`.
pub open spec fn serving_count(s: Seq<Circuit>, purpose: CircuitPurpose, now: Timestamp) -> nat {
    s.filter(|c: Circuit| c.purpose == purpose && serves_at(c, now)).len()
}

/// The criteria that `PathSelectionCriteria::new` gives.
pub open spec fn is_default_criteria(c: PathSelectionCriteria) -> bool {
    &&& c.min_reputation == Reputation(50)
    &&& c.require_relay
    &&& c.excluded_nodes@.len() == 0
    &&& c.circuit_length == DEFAULT_CIRCUIT_LENGTH
}

/// `c` is `given`, or the defaults where none is given.
pub open spec fn chosen_criteria(given: Option<PathSelectionCriteria>, c: PathSelectionCriteria) -> bool {
    match given {
        Some(g) => c == g,
        None => is_default_criteria(c),
    }
}

/// A circuit just made with `id` and `purpose` at `now`.
pub open spec fn fresh_circuit(c: Circuit, id: CircuitId, purpose: CircuitPurpose, now: Timestamp) -> bool {
    &&& c.id == id
    &&& c.purpose == purpose
    &&& c.state == CircuitState::Building
    &&& c.nodes@.len() == 0
    &&& c.created_at == now
}

/// A circuit can be made in `m` at `now` with id `id`: room under the cap,
/// a positive length, enough eligible peers, and `id` free.
pub open spec fn creation_possible(m: CircuitManager, entries: Seq<BucketEntry>, c: PathSelectionCriteria, now: Timestamp, id: CircuitId) -> bool {
    &&& m.circuit_seq().len() < m.cap()
    &&& c.circuit_length > 0
    &&& eligible_count(entries, c, now) >= c.circuit_length
    &&& !m.holds(id)
}

/// What creating a circuit at `now` with id `id` does: where it is
/// possible, the fresh circuit is appended and the path is one that
/// `select_path_at` may give; else nothing changes.
pub open spec fn creation_outcome(
    before: CircuitManager,
    after: CircuitManager,
    entries: Seq<BucketEntry>,
    purpose: CircuitPurpose,
    c: PathSelectionCriteria,
    now: Timestamp,
    id: CircuitId,
    r: Result<(CircuitId, Vec<NodeId>), AnonNetError>,
) -> bool {
    &&& after.cap() == before.cap()
    &&& (r is Ok <==> creation_possible(before, entries, c, now, id))
    &&& match r {
        Ok((rid, path)) => {
            &&& rid == id
            &&& after.circuit_seq().len() == before.circuit_seq().len() + 1
            &&& after.circuit_seq().drop_last() == before.circuit_seq()
            &&& fresh_circuit(after.circuit_seq().last(), id, purpose, now)
            &&& path_outcome(entries, c, now, Ok::<Vec<NodeId>, PathSelectionError>(path))
        },
        Err(_) => after.circuit_seq() == before.circuit_seq(),
    }
}

/// `creation_outcome` for the criteria chosen from `given`, at some moment
/// and with some id.
pub open spec fn created_some_time(
    before: CircuitManager,
    after: CircuitManager,
    entries: Seq<BucketEntry>,
    purpose: CircuitPurpose,
    given: Option<PathSelectionCriteria>,
    r: Result<(CircuitId, Vec<NodeId>), AnonNetError>,
) -> bool {
    exists|c: PathSelectionCriteria, now: Timestamp, id: CircuitId|
        chosen_criteria(given, c) && #[trigger] creation_outcome(before, after, entries, purpose, c, now, id, r)
}

/// No circuit of the default criteria can be made in `m` at `now`, for
/// some id.
pub open spec fn refused_at(m: CircuitManager, entries: Seq<BucketEntry>, now: Timestamp) -> bool {
    exists|c: PathSelectionCriteria, id: CircuitId| is_default_criteria(c) && !#[trigger] creation_possible(m, entries, c, now, id)
}

/// The circuits of a node, at most `max_circuits`, one per id.
#[derive(Debug)]
pub struct CircuitManager {
    circuits: Vec<Circuit>,
    max_circuits: usize,
}

impl CircuitManager {
    pub closed spec fn circuit_seq(&self) -> Seq<Circuit> {
        self.circuits@
    }

    pub closed spec fn cap(&self) -> nat {
        self.max_circuits as nat
    }

    /// Whether a circuit with `id` is held.
    pub open spec fn holds(&self, id: CircuitId) -> bool {
        exists|i: int| 0 <= i < self.circuit_seq().len() && #[trigger] self.circuit_seq()[i].id == id
    }

    /// Distinct ids, every circuit well formed, at most `max_circuits`.
    pub open spec fn wf(&self) -> bool {
        &&& self.circuit_seq().len() <= self.cap()
        &&& forall|i: int, j: int|
            0 <= i < j < self.circuit_seq().len() ==> self.circuit_seq()[i].id != self.circuit_seq()[j].id
        &&& forall|i: int| 0 <= i < self.circuit_seq().len() ==> (#[trigger] self.circuit_seq()[i]).wf()
    }

    /// A manager holding at most `MAX_CIRCUITS`.
    pub fn new() -> (r: CircuitManager)
        ensures
            r.wf(),
            r.circuit_seq().len() == 0,
            r.cap() == MAX_CIRCUITS,
    {
        CircuitManager::with_capacity(MAX_CIRCUITS)
    }

    pub fn with_capacity(max_circuits: usize) -> (r: CircuitManager)
        ensures
            r.wf(),
            r.circuit_seq().len() == 0,
            r.cap() == max_circuits,
    {
        CircuitManager { circuits: Vec::new(), max_circuits }
    }

    fn position(&self, id: &CircuitId) -> (r: Option<usize>)
        ensures
            r matches Some(i) ==> i < self.circuits@.len() && self.circuits@[i as int].id == *id,
            r is None ==> forall|i: int| 0 <= i < self.circuits@.len() ==> self.circuits@[i].id != *id,
    {
        let mut i: usize = 0;
        while i < self.circuits.len()
            invariant
                0 <= i <= self.circuits@.len(),
                forall|j: int| 0 <= j < i ==> self.circuits@[j].id != *id,
            decreases self.circuits@.len() - i,
        {
            if self.circuits[i].id == *id {
                return Some(i);
            }
            i = i + 1;
        }
        None
    }

    pub fn circuit_count(&self) -> (r: usize)
        ensures
            r == self.circuit_seq().len(),
    {
        self.circuits.len()
    }

    /// Takes a circuit into the manager; refused at the cap or for an id
    /// already held.
    pub fn add_circuit(&mut self, circuit: Circuit) -> (r: Result<(), AnonNetError>)
        requires
            old(self).wf(),
            circuit.wf(),
        ensures
            final(self).wf(),
            final(self).cap() == old(self).cap(),
            r is Ok <==> (old(self).circuit_seq().len() < old(self).cap() && !old(self).holds(circuit.id)),
            r is Ok ==> final(self).circuit_seq() == old(self).circuit_seq().push(circuit),
            r is Err ==> final(self).circuit_seq() == old(self).circuit_seq(),
    {
        if self.circuits.len() >= self.max_circuits {
            return Err(AnonNetError::internal("Maximum circuits reached".to_string()));
        }
        match self.position(&circuit.id) {
            Some(_) => Err(AnonNetError::internal("Circuit id in use".to_string())),
            None => {
                let ghost before = self.circuits@;
                self.circuits.push(circuit);
                proof {
                    assert forall|i: int, j: int| 0 <= i < j < self.circuit_seq().len() implies self.circuit_seq()[i].id
                        != self.circuit_seq()[j].id by {
                        if j == before.len() {
                            assert(before[i].id != circuit.id);
                        }
                    }
                    assert forall|i: int| 0 <= i < self.circuit_seq().len() implies (#[trigger] self.circuit_seq()[i]).wf() by {
                        if i < before.len() {
                            assert(self.circuit_seq()[i] == before[i]);
                        }
                    }
                }
                Ok(())
            },
        }
    }

    /// Chooses a path at `now` for a new circuit of `purpose` with id `id`,
    /// and takes in the new, still empty circuit; the builder extends it
    /// along the path. Fails at the cap, on a zero length, where too few
    /// peers are eligible, or where `id` is taken.
    pub fn create_circuit_at(
        &mut self,
        routing_table: &RoutingTable,
        purpose: CircuitPurpose,
        criteria: &PathSelectionCriteria,
        now: Timestamp,
        id: CircuitId,
    ) -> (r: Result<(CircuitId, Vec<NodeId>), AnonNetError>)
        requires
            old(self).wf(),
            routing_table.wf(),
        ensures
            final(self).wf(),
            creation_outcome(*old(self), *final(self), routing_table.all_entries(), purpose, *criteria, now, id, r),
    {
        if self.circuits.len() >= self.max_circuits {
            return Err(AnonNetError::internal("Maximum circuits reached".to_string()));
        }
        let selected = PathSelector::select_path_at(routing_table, criteria, now);
        let ghost sel = selected;
        let path = match selected {
            Ok(p) => p,
            Err(_) => {
                return Err(AnonNetError::internal("Path selection failed".to_string()));
            },
        };
        if path.len() == 0 {
            return Err(AnonNetError::internal("Path selection failed".to_string()));
        }
        let circuit = Circuit::new_at(id, purpose, now);
        match self.add_circuit(circuit) {
            Ok(()) => {
                proof {
                    assert(self.circuit_seq().drop_last() =~= old(self).circuit_seq());
                    assert(sel == Ok::<Vec<NodeId>, PathSelectionError>(path));
                }
                Ok((id, path))
            },
            Err(e) => Err(e),
        }
    }

    /// `create_circuit_at` with the given criteria (or the defaults), the
    /// system clock and a random id.
    pub fn create_circuit(
        &mut self,
        routing_table: &RoutingTable,
        purpose: CircuitPurpose,
        criteria: Option<PathSelectionCriteria>,
    ) -> (r: Result<(CircuitId, Vec<NodeId>), AnonNetError>)
        requires
            old(self).wf(),
            routing_table.wf(),
        ensures
            final(self).wf(),
            created_some_time(*old(self), *final(self), routing_table.all_entries(), purpose, criteria, r),
    {
        let ghost given = criteria;
        let criteria = match criteria {
            Some(c) => c,
            None => PathSelectionCriteria::new(),
        };
        assert(chosen_criteria(given, criteria));
        let now = Timestamp::now();
        let id = CircuitId::generate();
        let r = self.create_circuit_at(routing_table, purpose, &criteria, now, id);
        assert(chosen_criteria(given, criteria) && creation_outcome(
            *old(self),
            *self,
            routing_table.all_entries(),
            purpose,
            criteria,
            now,
            id,
            r,
        ));
        r
    }

    pub fn get_circuit(&self, id: &CircuitId) -> (r: Option<&Circuit>)
        ensures
            r matches Some(c) ==> c.id == *id && self.circuit_seq().contains(*c),
            r is None <==> !self.holds(*id),
    {
        match self.position(id) {
            Some(i) => {
                assert(self.circuit_seq()[i as int].id == *id);
                Some(&self.circuits[i])
            },
            None => {
                proof {
                    if self.holds(*id) {
                        let q = choose|q: int| 0 <= q < self.circuit_seq().len() && #[trigger] self.circuit_seq()[q].id == *id;
                        assert(self.circuits@[q].id != *id);
                    }
                }
                None
            },
        }
    }

    /// A circuit of `purpose` that may serve a new stream at `now`.
    pub fn get_ready_circuit_at(&self, purpose: CircuitPurpose, now: Timestamp) -> (r: Option<&Circuit>)
        ensures
            r matches Some(c) ==> c.purpose == purpose && serves_at(*c, now) && self.circuit_seq().contains(*c),
            r is None ==> forall|i: int|
                0 <= i < self.circuit_seq().len() ==> !(#[trigger] self.circuit_seq()[i].purpose == purpose && serves_at(
                    self.circuit_seq()[i],
                    now,
                )),
    {
        let mut i: usize = 0;
        while i < self.circuits.len()
            invariant
                0 <= i <= self.circuits@.len(),
                forall|j: int| 0 <= j < i ==> !(#[trigger] self.circuits@[j].purpose == purpose && serves_at(self.circuits@[j], now)),
            decreases self.circuits@.len() - i,
        {
            let c = &self.circuits[i];
            if c.purpose == purpose && c.can_serve_at(now) {
                return Some(c);
            }
            i = i + 1;
        }
        None
    }

    /// Adds a hop to the circuit `id`; `false` where no such circuit is
    /// held or the hop's node is already on it.
    pub fn add_hop(&mut self, id: &CircuitId, node: CircuitNode) -> (r: bool)
        requires
            old(self).wf(),
        ensures
            final(self).wf(),
            final(self).cap() == old(self).cap(),
            final(self).circuit_seq().len() == old(self).circuit_seq().len(),
            !old(self).holds(*id) ==> !r,
    {
        match self.position(id) {
            Some(i) => {
                let ghost before = self.circuits@;
                let r = self.circuits[i].add_node(node).is_ok();
                proof {
                    assert(self.circuits@ == before.update(i as int, self.circuits@[i as int]));
                    assert forall|a: int, b: int| 0 <= a < b < self.circuit_seq().len() implies self.circuit_seq()[a].id
                        != self.circuit_seq()[b].id by {
                        assert(before[a].id != before[b].id);
                    }
                    assert forall|a: int| 0 <= a < self.circuit_seq().len() implies (#[trigger] self.circuit_seq()[a]).wf() by {
                        if a != i {
                            assert(self.circuit_seq()[a] == before[a]);
                        }
                    }
                }
                r
            },
            None => {
                proof {
                    if old(self).holds(*id) {
                        let q = choose|q: int| 0 <= q < old(self).circuit_seq().len() && #[trigger] old(self).circuit_seq()[q].id == *id;
                        assert(self.circuits@[q].id != *id);
                    }
                }
                false
            },
        }
    }

    /// Marks the circuit `id` failed; `false` where it is not held.
    pub fn mark_failed(&mut self, id: &CircuitId) -> (r: bool)
        requires
            old(self).wf(),
        ensures
            final(self).wf(),
            r == old(self).holds(*id),
            final(self).circuit_seq().len() == old(self).circuit_seq().len(),
            forall|i: int|
                0 <= i < old(self).circuit_seq().len() && old(self).circuit_seq()[i].id == *id
                    ==> (#[trigger] final(self).circuit_seq()[i]).state == (if old(self).circuit_seq()[i].state == CircuitState::Closed {
                    CircuitState::Closed
                } else {
                    CircuitState::Failed
                }),
            forall|i: int|
                0 <= i < old(self).circuit_seq().len() ==> #[trigger] final(self).circuit_seq()[i] == (if old(self).circuit_seq()[i].id
                    == *id {
                    crate::circuit::failed_version(old(self).circuit_seq()[i])
                } else {
                    old(self).circuit_seq()[i]
                }),
            !r ==> final(self).circuit_seq() == old(self).circuit_seq(),
    {
        match self.position(id) {
            Some(i) => {
                let ghost before = self.circuits@;
                self.circuits[i].mark_failed();
                proof {
                    assert(self.circuits@ == before.update(i as int, self.circuits@[i as int]));
                    assert(old(self).circuit_seq()[i as int].id == *id);
                    assert forall|a: int, b: int| 0 <= a < b < self.circuit_seq().len() implies self.circuit_seq()[a].id
                        != self.circuit_seq()[b].id by {
                        assert(before[a].id != before[b].id);
                    }
                    assert forall|a: int| 0 <= a < self.circuit_seq().len() implies (#[trigger] self.circuit_seq()[a]).wf() by {
                        if a != i {
                            assert(self.circuit_seq()[a] == before[a]);
                        }
                    }
                    assert forall|a: int|
                        0 <= a < before.len() && before[a].id == *id implies (#[trigger] self.circuit_seq()[a]).state == (
                    if before[a].state == CircuitState::Closed {
                        CircuitState::Closed
                    } else {
                        CircuitState::Failed
                    }) by {
                        if a != i {
                            if a < i {
                                assert(before[a].id != before[i as int].id);
                            } else {
                                assert(before[i as int].id != before[a].id);
                            }
                        }
                    }
                }
                true
            },
            None => {
                proof {
                    if old(self).holds(*id) {
                        let q = choose|q: int| 0 <= q < old(self).circuit_seq().len() && #[trigger] old(self).circuit_seq()[q].id == *id;
                        assert(self.circuits@[q].id != *id);
                    }
                }
                false
            },
        }
    }

    /// Removes the circuit `id`, returned marked closed.
    pub fn destroy_circuit(&mut self, id: &CircuitId) -> (r: Option<Circuit>)
        requires
            old(self).wf(),
        ensures
            final(self).wf(),
            r is Some <==> old(self).holds(*id),
            r matches Some(c) ==> c.id == *id && c.state == CircuitState::Closed,
            !final(self).holds(*id),
            final(self).circuit_seq().len() == old(self).circuit_seq().len() - (if r is Some { 1int } else { 0int }),
    {
        match self.position(id) {
            Some(i) => {
                let ghost before = self.circuits@;
                let mut c = self.circuits.remove(i);
                c.mark_closed();
                proof {
                    assert(old(self).circuit_seq()[i as int].id == *id);
                    assert forall|a: int| 0 <= a < self.circuits@.len() implies self.circuits@[a] == before[if a < i { a } else { a + 1 }] by {}
                    assert forall|a: int, b: int| 0 <= a < b < self.circuit_seq().len() implies self.circuit_seq()[a].id
                        != self.circuit_seq()[b].id by {
                        let oa = if a < i { a } else { a + 1 };
                        let ob = if b < i { b } else { b + 1 };
                        assert(before[oa].id != before[ob].id);
                    }
                    assert forall|a: int| 0 <= a < self.circuit_seq().len() implies (#[trigger] self.circuit_seq()[a]).wf() by {
                        let oa = if a < i { a } else { a + 1 };
                        assert(before[oa].wf());
                    }
                    if self.holds(*id) {
                        let q = choose|q: int| 0 <= q < self.circuit_seq().len() && #[trigger] self.circuit_seq()[q].id == *id;
                        let oq = if q < i { q } else { q + 1 };
                        assert(before[oq].id == before[i as int].id);
                    }
                }
                Some(c)
            },
            None => {
                proof {
                    if old(self).holds(*id) {
                        let q = choose|q: int| 0 <= q < old(self).circuit_seq().len() && #[trigger] old(self).circuit_seq()[q].id == *id;
                        assert(self.circuits@[q].id != *id);
                    }
                }
                None
            },
        }
    }

    /// Removes the circuits that are expired, failed or closed at `now`,
    /// counting each under the first of those that applies.
    pub fn cleanup_at(&mut self, now: Timestamp) -> (r: CircuitCleanupStats)
        requires
            old(self).wf(),
        ensures
            final(self).wf(),
            final(self).cap() == old(self).cap(),
            final(self).circuit_seq() == old(self).circuit_seq().filter(|c: Circuit| !retired_at(c, now)),
            r.total_removed == old(self).circuit_seq().len() - final(self).circuit_seq().len(),
            r.total_removed == r.expired + r.failed + r.closed,
            r.expired == old(self).circuit_seq().filter(|c: Circuit| lapsed(c, now)).len(),
            r.failed == old(self).circuit_seq().filter(|c: Circuit| !lapsed(c, now) && c.state == CircuitState::Failed).len(),
            r.closed == old(self).circuit_seq().filter(|c: Circuit| !lapsed(c, now) && c.state == CircuitState::Closed).len(),
    {
        let ghost start = self.circuits@;
        let mut kept: Vec<Circuit> = Vec::new();
        let mut expired: usize = 0;
        let mut failed: usize = 0;
        let mut closed: usize = 0;
        let mut i: usize = 0;
        assert(start.subrange(0, start.len() as int) =~= start);
        assert(start.len() == self.circuits.len());
        proof {
            reveal(Seq::filter);
            assert(start.subrange(0, 0) =~= Seq::<Circuit>::empty());
            assert(start.subrange(0, 0).filter(|c: Circuit| lapsed(c, now)) =~= Seq::<Circuit>::empty());
            assert(start.subrange(0, 0).filter(|c: Circuit| !lapsed(c, now) && c.state == CircuitState::Failed) =~= Seq::<Circuit>::empty());
            assert(start.subrange(0, 0).filter(|c: Circuit| !lapsed(c, now) && c.state == CircuitState::Closed) =~= Seq::<Circuit>::empty());
        }
        while self.circuits.len() > 0
            invariant
                start.len() <= usize::MAX,
                i + self.circuits@.len() == start.len(),
                self.circuits@ == start.subrange(i as int, start.len() as int),
                kept@ == start.subrange(0, i as int).filter(|c: Circuit| !retired_at(c, now)),
                expired + failed + closed + kept@.len() == i,
                expired == start.subrange(0, i as int).filter(|c: Circuit| lapsed(c, now)).len(),
                failed == start.subrange(0, i as int).filter(|c: Circuit| !lapsed(c, now) && c.state == CircuitState::Failed).len(),
                closed == start.subrange(0, i as int).filter(|c: Circuit| !lapsed(c, now) && c.state == CircuitState::Closed).len(),
                self.max_circuits == old(self).max_circuits,
            decreases self.circuits@.len(),
        {
            let c = self.circuits.remove(0);
            proof {
                assert(c == start[i as int]);
                assert(start.subrange(0, i + 1) =~= start.subrange(0, i as int).push(start[i as int]));
                start.subrange(0, i as int).lemma_filter_push(start[i as int], |c: Circuit| !retired_at(c, now));
                start.subrange(0, i as int).lemma_filter_push(start[i as int], |c: Circuit| lapsed(c, now));
                start.subrange(0, i as int).lemma_filter_push(start[i as int], |c: Circuit| !lapsed(c, now) && c.state == CircuitState::Failed);
                start.subrange(0, i as int).lemma_filter_push(start[i as int], |c: Circuit| !lapsed(c, now) && c.state == CircuitState::Closed);
                assert(self.circuits@ =~= start.subrange(i + 1, start.len() as int));
            }
            if c.is_expired_at(now) {
                expired = expired + 1;
            } else if c.state == CircuitState::Failed {
                failed = failed + 1;
            } else if c.state == CircuitState::Closed {
                closed = closed + 1;
            } else {
                kept.push(c);
            }
            i = i + 1;
        }
        assert(start.subrange(0, start.len() as int) =~= start);
        self.circuits = kept;
        proof {
            start.lemma_filter_len(|c: Circuit| !retired_at(c, now));
            assert forall|a: int| 0 <= a < self.circuit_seq().len() implies (#[trigger] self.circuit_seq()[a]).wf() by {
                let x = self.circuit_seq()[a];
                assert(start.filter(|c: Circuit| !retired_at(c, now)).contains(x));
                start.lemma_filter_contains_rev(|c: Circuit| !retired_at(c, now), x);
            }
            assert forall|a: int, b: int| 0 <= a < b < self.circuit_seq().len() implies self.circuit_seq()[a].id
                != self.circuit_seq()[b].id by {
                lemma_filter_keeps_distinct_ids(start, |c: Circuit| !retired_at(c, now), a, b);
            }
        }
        CircuitCleanupStats { expired, failed, closed, total_removed: expired + failed + closed }
    }

    /// How many circuits of `purpose` may serve a new stream at `now`.
    pub fn ready_count_at(&self, purpose: CircuitPurpose, now: Timestamp) -> (r: usize)
        ensures
            r == serving_count(self.circuit_seq(), purpose, now),
    {
        let mut n: usize = 0;
        let mut i: usize = 0;
        proof {
            assert(self.circuits@.subrange(0, 0).filter(|c: Circuit| c.purpose == purpose && serves_at(c, now)) =~= Seq::<Circuit>::empty()) by {
                reveal(Seq::filter);
            }
        }
        while i < self.circuits.len()
            invariant
                0 <= i <= self.circuits@.len(),
                n == self.circuits@.subrange(0, i as int).filter(|c: Circuit| c.purpose == purpose && serves_at(c, now)).len(),
                n <= i,
            decreases self.circuits@.len() - i,
        {
            proof {
                let s = self.circuits@;
                s.subrange(0, i as int).lemma_filter_push(s[i as int], |c: Circuit| c.purpose == purpose && serves_at(c, now));
                assert(s.subrange(0, i as int).push(s[i as int]) =~= s.subrange(0, i + 1));
                s.subrange(0, i as int).lemma_filter_len(|c: Circuit| c.purpose == purpose && serves_at(c, now));
            }
            if self.circuits[i].purpose == purpose && self.circuits[i].can_serve_at(now) {
                n = n + 1;
            }
            i = i + 1;
        }
        assert(self.circuits@.subrange(0, self.circuits@.len() as int) =~= self.circuits@);
        n
    }

    /// Creates circuits of `purpose` at `now`, with the default criteria and
    /// random ids, until `min_count` of them may serve or are being built;
    /// stops early only at the cap or where a creation is refused. Returns
    /// how many were created.
    pub fn ensure_circuits_at(&mut self, routing_table: &RoutingTable, purpose: CircuitPurpose, min_count: usize, now: Timestamp) -> (r: usize)
        requires
            old(self).wf(),
            routing_table.wf(),
        ensures
            final(self).wf(),
            final(self).cap() == old(self).cap(),
            final(self).circuit_seq().len() == old(self).circuit_seq().len() + r,
            final(self).circuit_seq().take(old(self).circuit_seq().len() as int) == old(self).circuit_seq(),
            forall|i: int|
                old(self).circuit_seq().len() <= i < final(self).circuit_seq().len() ==> #[trigger] final(self).circuit_seq()[i].purpose
                    == purpose && final(self).circuit_seq()[i].state == CircuitState::Building && final(self).circuit_seq()[i].nodes@.len() == 0,
            serving_count(old(self).circuit_seq(), purpose, now) >= min_count ==> r == 0,
            serving_count(old(self).circuit_seq(), purpose, now) < min_count ==> serving_count(old(self).circuit_seq(), purpose, now) + r
                <= min_count,
            serving_count(old(self).circuit_seq(), purpose, now) + r < min_count ==> final(self).circuit_seq().len() >= final(self).cap()
                || refused_at(*final(self), routing_table.all_entries(), now),
    {
        let current = self.ready_count_at(purpose, now);
        let mut created: usize = 0;
        let mut refused = false;
        let ghost start = self.circuits@;
        while created < min_count && current < min_count - created && self.circuits.len() < self.max_circuits && !refused
            invariant
                self.wf(),
                routing_table.wf(),
                self.cap() == old(self).cap(),
                start == old(self).circuits@,
                current == serving_count(start, purpose, now),
                self.circuits@.len() == start.len() + created,
                self.circuits@.take(start.len() as int) == start,
                forall|i: int|
                    start.len() <= i < self.circuits@.len() ==> #[trigger] self.circuits@[i].purpose == purpose
                        && self.circuits@[i].state == CircuitState::Building && self.circuits@[i].nodes@.len() == 0,
                self.circuits@.len() <= self.max_circuits,
                self.max_circuits == old(self).max_circuits,
                created <= min_count,
                current >= min_count ==> created == 0,
                current < min_count ==> current + created <= min_count,
                refused ==> refused_at(*self, routing_table.all_entries(), now),
            decreases self.max_circuits - self.circuits@.len(), if refused { 0int } else { 1int },
        {
            let criteria = PathSelectionCriteria::new();
            let id = CircuitId::generate();
            let ghost before = self.circuits@;
            let ghost m0 = *self;
            match self.create_circuit_at(routing_table, purpose, &criteria, now, id) {
                Ok(_) => {
                    created = created + 1;
                    proof {
                        assert(self.circuits@.drop_last() == before);
                        assert(self.circuits@.take(start.len() as int) =~= before.take(start.len() as int));
                        assert forall|i: int|
                            start.len() <= i < self.circuits@.len() implies #[trigger] self.circuits@[i].purpose == purpose
                                && self.circuits@[i].state == CircuitState::Building && self.circuits@[i].nodes@.len() == 0 by {
                            if i < before.len() {
                                assert(self.circuits@[i] == self.circuits@.drop_last()[i]);
                            }
                        }
                    }
                },
                Err(_) => {
                    refused = true;
                    proof {
                        assert(self.circuit_seq() == m0.circuit_seq());
                        assert(is_default_criteria(criteria) && !creation_possible(m0, routing_table.all_entries(), criteria, now, id));
                        assert(!creation_possible(*self, routing_table.all_entries(), criteria, now, id));
                    }
                },
            }
        }
        created
    }

    /// Counts by state and byte totals (saturating).
    pub fn stats(&self) -> (r: CircuitManagerStats)
        ensures
            r.total_circuits == self.circuit_seq().len(),
            r.max_circuits == self.cap(),
            r.building + r.ready + r.failed <= r.total_circuits,
    {
        let mut building: usize = 0;
        let mut ready: usize = 0;
        let mut failed: usize = 0;
        let mut sent: u64 = 0;
        let mut received: u64 = 0;
        let mut i: usize = 0;
        while i < self.circuits.len()
            invariant
                0 <= i <= self.circuits@.len(),
                building + ready + failed <= i,
            decreases self.circuits@.len() - i,
        {
            let c = &self.circuits[i];
            if c.state == CircuitState::Building {
                building = building + 1;
            } else if c.state == CircuitState::Ready {
                ready = ready + 1;
            } else if c.state == CircuitState::Failed {
                failed = failed + 1;
            }
            sent = sent.saturating_add(c.bytes_sent);
            received = received.saturating_add(c.bytes_received);
            i = i + 1;
        }
        CircuitManagerStats {
            total_circuits: self.circuits.len(),
            building,
            ready,
            failed,
            max_circuits: self.max_circuits,
            total_bytes_sent: sent,
            total_bytes_received: received,
        }
    }
}

/// Filtering keeps the circuits' relative order, so distinct ids stay distinct.
proof fn lemma_filter_keeps_distinct_ids(s: Seq<Circuit>, p: spec_fn(Circuit) -> bool, a: int, b: int)
    requires
        forall|i: int, j: int| 0 <= i < j < s.len() ==> s[i].id != s[j].id,
        0 <= a < b < s.filter(p).len(),
    ensures
        s.filter(p)[a].id != s.filter(p)[b].id,
    decreases s.len(),
{
    reveal(Seq::filter);
    if s.len() > 0 {
        let rest = s.drop_last();
        if p(s.last()) {
            assert(s.filter(p) == rest.filter(p).push(s.last()));
            if b == s.filter(p).len() - 1 {
                let x = s.filter(p)[a];
                assert(rest.filter(p).contains(x));
                rest.lemma_filter_contains_rev(p, x);
                let k = choose|k: int| 0 <= k < rest.len() && rest[k] == x;
                assert(s[k] == x);
                assert(s[s.len() - 1] == s.last());
            } else {
                lemma_filter_keeps_distinct_ids(rest, p, a, b);
            }
        } else {
            assert(s.filter(p) == rest.filter(p));
            lemma_filter_keeps_distinct_ids(rest, p, a, b);
        }
    }
}

} // verus!
