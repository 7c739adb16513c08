use vstd::prelude::*;
use crate::address::ServiceAddress;
use crate::circuit::CircuitId;

verus! {

broadcast use vstd::array::axiom_array_ext_equal;

/// The 32-byte secret that matches a client's and a service's circuits.
#[derive(Debug, Clone, Copy, Eq, Hash)]
pub struct RendezvousId(pub [u8; 32]);

impl PartialEq for RendezvousId {
    fn eq(&self, other: &RendezvousId) -> (r: bool) {
        crate::node_id::bytes32_equal(&self.0, &other.0)
    }
}

impl vstd::std_specs::cmp::PartialEqSpecImpl for RendezvousId {
    open spec fn obeys_eq_spec() -> bool {
        true
    }

    open spec fn eq_spec(&self, other: &RendezvousId) -> bool {
        *self == *other
    }
}

impl RendezvousId {
    /// A random identifier.
    pub fn generate() -> (r: RendezvousId) {
        RendezvousId(crate::random::random_array::<32>())
    }

    pub fn from_bytes(bytes: [u8; 32]) -> (r: RendezvousId)
        ensures
            r.0 == bytes,
    {
        RendezvousId(bytes)
    }

    pub fn as_bytes(&self) -> (r: &[u8; 32])
        ensures
            *r == self.0,
    {
        &self.0
    }
}

/// Where a rendezvous stands at the rendezvous point.
#[derive(Debug, Clone, Copy)]
pub enum RendezvousState {
    WaitingForService { client_circuit: CircuitId, service_address: ServiceAddress },
    Connected { client_circuit: CircuitId, service_circuit: CircuitId },
}

/// Failures of the rendezvous flow.
#[derive(Debug, Clone, PartialEq, Eq)]
pub enum RendezvousError {
    NoIntroductionPoints,
    CircuitCreationFailed(String),
    NoNodesAvailable,
    RendezvousNotFound,
    AlreadyConnected,
    Timeout,
    NetworkError(String),
    /// A rendezvous with this id is already under way.
    DuplicateRendezvous,
}

/// A connected rendezvous joins circuits `a` and `b`, in either order.
pub open spec fn splices(state: RendezvousState, a: CircuitId, b: CircuitId) -> bool {
    match state {
        RendezvousState::Connected { client_circuit, service_circuit } => (client_circuit == a && service_circuit
            == b) || (service_circuit == a && client_circuit == b),
        RendezvousState::WaitingForService { .. } => false,
    }
}

/// One rendezvous kept at the rendezvous point.
#[derive(Debug, Clone, Copy)]
pub struct RendezvousEntry {
    pub id: RendezvousId,
    pub state: RendezvousState,
}

/// The rendezvous that a rendezvous point keeps, one per id.
#[derive(Debug)]
pub struct RendezvousTable {
    entries: Vec<RendezvousEntry>,
}

/// The state kept for `id`, if any.
pub open spec fn state_of(entries: Seq<RendezvousEntry>, id: RendezvousId) -> Option<RendezvousState> {
    if exists|i: int| 0 <= i < entries.len() && #[trigger] entries[i].id == id {
        let i = choose|i: int| 0 <= i < entries.len() && #[trigger] entries[i].id == id;
        Some(entries[i].state)
    } else {
        None
    }
}

impl RendezvousTable {
    pub closed spec fn entry_seq(&self) -> Seq<RendezvousEntry> {
        self.entries@
    }

    /// The state kept for `id`.
    pub open spec fn state(&self, id: RendezvousId) -> Option<RendezvousState> {
        state_of(self.entry_seq(), id)
    }

    /// One entry per id.
    pub open spec fn wf(&self) -> bool {
        forall|i: int, j: int| 0 <= i < j < self.entry_seq().len() ==> self.entry_seq()[i].id != self.entry_seq()[j].id
    }

    pub fn new() -> (r: RendezvousTable)
        ensures
            r.wf(),
            forall|id: RendezvousId| r.state(id) is None,
    {
        RendezvousTable { entries: Vec::new() }
    }

    fn position(&self, id: &RendezvousId) -> (r: Option<usize>)
        ensures
            r matches Some(i) ==> i < self.entries@.len() && self.entries@[i as int].id == *id,
            r is None ==> forall|i: int| 0 <= i < self.entries@.len() ==> self.entries@[i].id != *id,
    {
        let mut i: usize = 0;
        while i < self.entries.len()
            invariant
                0 <= i <= self.entries@.len(),
                forall|j: int| 0 <= j < i ==> self.entries@[j].id != *id,
            decreases self.entries@.len() - i,
        {
            if self.entries[i].id == *id {
                return Some(i);
            }
            i = i + 1;
        }
        None
    }

    /// Records that a client waits at this point, on `client_circuit`, for
    /// the service at `service_address`. An id already in use is refused.
    pub fn register_client(
        &mut self,
        id: RendezvousId,
        client_circuit: CircuitId,
        service_address: ServiceAddress,
    ) -> (r: Result<(), RendezvousError>)
        requires
            old(self).wf(),
        ensures
            final(self).wf(),
            old(self).state(id) is Some ==> r == Err::<(), RendezvousError>(RendezvousError::DuplicateRendezvous)
                && final(self).entry_seq() == old(self).entry_seq(),
            old(self).state(id) is None ==> r is Ok && final(self).state(id) == Some(
                RendezvousState::WaitingForService { client_circuit, service_address },
            ),
            forall|other: RendezvousId| other != id ==> #[trigger] final(self).state(other) == old(self).state(other),
    {
        match self.position(&id) {
            Some(_) => Err(RendezvousError::DuplicateRendezvous),
            None => {
                let ghost before = self.entries@;
                self.entries.push(
                    RendezvousEntry { id, state: RendezvousState::WaitingForService { client_circuit, service_address } },
                );
                proof {
                    let n = before.len() as int;
                    assert(self.entries@[n].id == id);
                    assert(self.state(id) == Some(RendezvousState::WaitingForService { client_circuit, service_address })) by {
                        let i = choose|i: int| 0 <= i < self.entry_seq().len() && #[trigger] self.entry_seq()[i].id == id;
                        if i != n {
                            assert(before[i].id == id);
                        }
                    }
                    assert forall|other: RendezvousId| other != id implies #[trigger] self.state(other) == old(self).state(other) by {
                        if exists|i: int| 0 <= i < before.len() && #[trigger] before[i].id == other {
                            let i = choose|i: int| 0 <= i < before.len() && #[trigger] before[i].id == other;
                            assert(self.entry_seq()[i].id == other);
                            let k = choose|k: int| 0 <= k < self.entry_seq().len() && #[trigger] self.entry_seq()[k].id == other;
                            assert(k != n);
                            if k != i {
                                assert(before[k].id == other);
                            }
                        }
                        if exists|k: int| 0 <= k < self.entry_seq().len() && #[trigger] self.entry_seq()[k].id == other {
                            let k = choose|k: int| 0 <= k < self.entry_seq().len() && #[trigger] self.entry_seq()[k].id == other;
                            assert(k != n);
                            assert(before[k].id == other);
                        }
                    }
                    assert forall|a: int, b: int| 0 <= a < b < self.entry_seq().len() implies self.entry_seq()[a].id != self.entry_seq()[b].id by {
                        if b == n {
                            assert(before[a].id != id);
                        }
                    }
                }
                Ok(())
            },
        }
    }

    /// The service arrives on `service_circuit` for rendezvous `id`: a
    /// waiting rendezvous becomes connected and the two circuits are
    /// returned, client first. An unknown id, or one already connected, is refused.
    pub fn handle_rendezvous(&mut self, id: RendezvousId, service_circuit: CircuitId) -> (r: Result<
        (CircuitId, CircuitId),
        RendezvousError,
    >)
        requires
            old(self).wf(),
        ensures
            final(self).wf(),
            old(self).state(id) is None ==> r == Err::<(CircuitId, CircuitId), RendezvousError>(
                RendezvousError::RendezvousNotFound,
            ) && final(self).entry_seq() == old(self).entry_seq(),
            old(self).state(id) matches Some(RendezvousState::Connected { .. }) ==> r == Err::<
                (CircuitId, CircuitId),
                RendezvousError,
            >(RendezvousError::AlreadyConnected) && final(self).entry_seq() == old(self).entry_seq(),
            old(self).state(id) matches Some(RendezvousState::WaitingForService { client_circuit, .. }) ==> r == Ok::<
                (CircuitId, CircuitId),
                RendezvousError,
            >((client_circuit, service_circuit)) && final(self).state(id) == Some(
                RendezvousState::Connected { client_circuit, service_circuit },
            ),
            forall|other: RendezvousId| other != id ==> #[trigger] final(self).state(other) == old(self).state(other),
    {
        match self.position(&id) {
            None => Err(RendezvousError::RendezvousNotFound),
            Some(i) => {
                let ghost before = self.entries@;
                proof {
                    assert(old(self).state(id) == Some(before[i as int].state)) by {
                        let k = choose|k: int| 0 <= k < before.len() && #[trigger] before[k].id == id;
                        if k != i {
                            assert(before[k].id != before[i as int].id);
                        }
                    }
                }
                match self.entries[i].state {
                    RendezvousState::Connected { .. } => Err(RendezvousError::AlreadyConnected),
                    RendezvousState::WaitingForService { client_circuit, .. } => {
                        self.entries.set(
                            i,
                            RendezvousEntry { id, state: RendezvousState::Connected { client_circuit, service_circuit } },
                        );
                        proof {
                            assert(self.entry_seq()[i as int].id == id);
                            assert(self.state(id) == Some(RendezvousState::Connected { client_circuit, service_circuit })) by {
                                let k = choose|k: int| 0 <= k < self.entry_seq().len() && #[trigger] self.entry_seq()[k].id == id;
                                if k != i {
                                    assert(before[k].id != before[i as int].id);
                                }
                            }
                            assert forall|other: RendezvousId| other != id implies #[trigger] self.state(other) == old(self).state(other) by {
                                if exists|k: int| 0 <= k < before.len() && #[trigger] before[k].id == other {
                                    let k = choose|k: int| 0 <= k < before.len() && #[trigger] before[k].id == other;
                                    assert(k != i);
                                    assert(self.entry_seq()[k].id == other);
                                    let q = choose|q: int| 0 <= q < self.entry_seq().len() && #[trigger] self.entry_seq()[q].id == other;
                                    assert(q != i);
                                    if q != k {
                                        assert(before[q].id == other);
                                    }
                                }
                                if exists|q: int| 0 <= q < self.entry_seq().len() && #[trigger] self.entry_seq()[q].id == other {
                                    let q = choose|q: int| 0 <= q < self.entry_seq().len() && #[trigger] self.entry_seq()[q].id == other;
                                    assert(q != i);
                                    assert(before[q].id == other);
                                }
                            }
                            assert forall|a: int, b: int| 0 <= a < b < self.entry_seq().len() implies self.entry_seq()[a].id != self.entry_seq()[b].id by {
                                assert(before[a].id != before[b].id);
                            }
                        }
                        Ok((client_circuit, service_circuit))
                    },
                }
            },
        }
    }

    /// The circuit spliced to `circuit`: cells arriving on one side of a
    /// connected rendezvous go out on the other.
    pub fn spliced_peer(&self, circuit: CircuitId) -> (r: Option<CircuitId>)
        ensures
            r matches Some(peer) ==> exists|i: int|
                0 <= i < self.entry_seq().len() && splices(#[trigger] self.entry_seq()[i].state, circuit, peer),
            r is None ==> forall|i: int, peer: CircuitId|
                0 <= i < self.entry_seq().len() ==> !#[trigger] splices(self.entry_seq()[i].state, circuit, peer),
    {
        let mut i: usize = 0;
        while i < self.entries.len()
            invariant
                0 <= i <= self.entries@.len(),
                forall|j: int, peer: CircuitId| 0 <= j < i ==> !#[trigger] splices(self.entries@[j].state, circuit, peer),
            decreases self.entries@.len() - i,
        {
            let st = self.entries[i].state;
            match st {
                RendezvousState::Connected { client_circuit, service_circuit } => {
                    if client_circuit == circuit {
                        assert(splices(self.entry_seq()[i as int].state, circuit, service_circuit));
                        return Some(service_circuit);
                    }
                    if service_circuit == circuit {
                        assert(splices(self.entry_seq()[i as int].state, circuit, client_circuit));
                        return Some(client_circuit);
                    }
                },
                RendezvousState::WaitingForService { .. } => {},
            }
            i = i + 1;
        }
        None
    }
}

} // verus!
