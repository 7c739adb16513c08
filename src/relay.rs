use vstd::prelude::*;
use crate::circuit::{Circuit, RelayCell, RelayCellType};
use crate::crypto::CryptoError;
use crate::node_id::NodeId;
use crate::types::sat_add;

verus! {

/// Largest payload of one cell, in bytes; longer data is split.
pub const MAX_CELL_PAYLOAD: usize = 498;

/// What a node does with a relay cell that it peeled.
#[derive(Debug)]
pub enum RelayAction {
    Forward { next_hop: usize, cell: RelayCell },
    BeginStream { stream_id: u16 },
    EndStream { stream_id: u16 },
    ExtendCircuit { cell: RelayCell },
    CircuitExtended { cell: RelayCell },
    TruncateCircuit { at_position: usize },
    CircuitTruncated,
    Acknowledge { stream_id: u16 },
    Drop,
}

/// Failures of relay handling.
#[derive(Debug, Clone, Copy, PartialEq, Eq, Structural)]
pub enum RelayError {
    InvalidDigest,
    InvalidPosition,
    InvalidExtend,
    Crypto(CryptoError),
    Serialization,
}

/// The action for a cell of a verified digest at `position` on a circuit of
/// `length` hops.
pub open spec fn action_for(cell: RelayCell, position: usize, length: nat) -> Result<RelayAction, RelayError> {
    match cell.cell_type {
        RelayCellType::Data => Ok(RelayAction::Forward { next_hop: (position + 1) as usize, cell }),
        RelayCellType::Begin => Ok(RelayAction::BeginStream { stream_id: cell.stream_id }),
        RelayCellType::End => Ok(RelayAction::EndStream { stream_id: cell.stream_id }),
        RelayCellType::Extend => if position == length - 1 {
            Ok(RelayAction::ExtendCircuit { cell })
        } else {
            Err(RelayError::InvalidExtend)
        },
        RelayCellType::Extended => Ok(RelayAction::CircuitExtended { cell }),
        RelayCellType::Truncate => Ok(RelayAction::TruncateCircuit { at_position: position }),
        RelayCellType::Truncated => Ok(RelayAction::CircuitTruncated),
        RelayCellType::Sendme => Ok(RelayAction::Acknowledge { stream_id: cell.stream_id }),
        RelayCellType::Drop => Ok(RelayAction::Drop),
    }
}

/// Makes and classifies relay cells.
pub struct RelayHandler;

impl RelayHandler {
    /// Handles a peeled cell at `our_position`: a cell whose digest fails is
    /// discarded, a position off the circuit is refused, and otherwise the
    /// cell's type decides. Data counts as received and goes on to the next hop.
    pub fn process_cell(circuit: &mut Circuit, cell: RelayCell, our_position: usize) -> (r: Result<RelayAction, RelayError>)
        ensures
            final(circuit).nodes == old(circuit).nodes,
            final(circuit).state == old(circuit).state,
            r is Err || cell.cell_type != RelayCellType::Data ==> *final(circuit) == *old(circuit),
            *final(circuit) == (Circuit {
                bytes_received: final(circuit).bytes_received,
                last_used: final(circuit).last_used,
                ..*old(circuit)
            }),
            !cell.digest_ok() ==> r == Err::<RelayAction, RelayError>(RelayError::InvalidDigest),
            cell.digest_ok() && our_position >= old(circuit).nodes@.len() ==> r == Err::<RelayAction, RelayError>(
                RelayError::InvalidPosition,
            ),
            cell.digest_ok() && our_position < old(circuit).nodes@.len() ==> r == action_for(
                cell,
                our_position,
                old(circuit).nodes@.len(),
            ),
            final(circuit).bytes_received == if cell.digest_ok() && our_position < old(circuit).nodes@.len()
                && cell.cell_type == RelayCellType::Data {
                sat_add(old(circuit).bytes_received as int, cell.payload@.len() as int) as u64
            } else {
                old(circuit).bytes_received
            },
    {
        if !cell.verify_digest() {
            return Err(RelayError::InvalidDigest);
        }
        if our_position >= circuit.length() {
            return Err(RelayError::InvalidPosition);
        }
        match cell.cell_type {
            RelayCellType::Data => {
                circuit.add_received(cell.payload.len() as u64);
                Ok(RelayAction::Forward { next_hop: our_position + 1, cell })
            },
            RelayCellType::Begin => Ok(RelayAction::BeginStream { stream_id: cell.stream_id }),
            RelayCellType::End => Ok(RelayAction::EndStream { stream_id: cell.stream_id }),
            RelayCellType::Extend => {
                if our_position == circuit.length() - 1 {
                    Ok(RelayAction::ExtendCircuit { cell })
                } else {
                    Err(RelayError::InvalidExtend)
                }
            },
            RelayCellType::Extended => Ok(RelayAction::CircuitExtended { cell }),
            RelayCellType::Truncate => Ok(RelayAction::TruncateCircuit { at_position: our_position }),
            RelayCellType::Truncated => Ok(RelayAction::CircuitTruncated),
            RelayCellType::Sendme => Ok(RelayAction::Acknowledge { stream_id: cell.stream_id }),
            RelayCellType::Drop => Ok(RelayAction::Drop),
        }
    }

    /// The node of the hop after `from_hop`, or `None` at the exit.
    pub fn forward_cell(circuit: &Circuit, cell: &RelayCell, from_hop: usize) -> (r: Result<Option<NodeId>, RelayError>)
        ensures
            from_hop + 1 >= circuit.nodes@.len() ==> r == Ok::<Option<NodeId>, RelayError>(None),
            from_hop + 1 < circuit.nodes@.len() ==> r == Ok::<Option<NodeId>, RelayError>(
                Some(circuit.nodes@[from_hop + 1].node_id),
            ),
    {
        if from_hop >= circuit.length() || from_hop + 1 >= circuit.length() {
            return Ok(None);
        }
        Ok(Some(circuit.nodes[from_hop + 1].node_id))
    }

    /// A data cell at `sequence` with its digest set.
    pub fn create_data_cell(stream_id: u16, data: Vec<u8>, sequence: u32) -> (r: RelayCell)
        ensures
            r.cell_type == RelayCellType::Data,
            r.stream_id == stream_id,
            r.sequence == sequence,
            r.payload@ == data@,
            r.digest_ok(),
    {
        let mut cell = RelayCell::new(RelayCellType::Data, stream_id, data);
        cell.sequence = sequence;
        cell.set_digest();
        cell
    }

    /// A begin cell naming `target`, with its digest set.
    pub fn create_begin_cell(stream_id: u16, target: Vec<u8>) -> (r: RelayCell)
        ensures
            r.cell_type == RelayCellType::Begin,
            r.stream_id == stream_id,
            r.sequence == 0,
            r.payload@ == target@,
            r.digest_ok(),
    {
        let mut cell = RelayCell::new(RelayCellType::Begin, stream_id, target);
        cell.set_digest();
        cell
    }

    /// An end cell carrying `reason`, with its digest set.
    pub fn create_end_cell(stream_id: u16, reason: u8) -> (r: RelayCell)
        ensures
            r.cell_type == RelayCellType::End,
            r.stream_id == stream_id,
            r.sequence == 0,
            r.payload@ == seq![reason],
            r.digest_ok(),
    {
        let mut payload: Vec<u8> = Vec::new();
        payload.push(reason);
        let mut cell = RelayCell::new(RelayCellType::End, stream_id, payload);
        cell.set_digest();
        cell
    }

    /// Splits `data` into data cells of at most `MAX_CELL_PAYLOAD` bytes,
    /// numbered from `first_sequence` on.
    pub fn split_into_cells(stream_id: u16, data: &[u8], first_sequence: u32) -> (r: Vec<RelayCell>)
        requires
            first_sequence + data@.len() / (MAX_CELL_PAYLOAD as nat) + 1 <= u32::MAX,
        ensures
            forall|i: int| 0 <= i < r@.len() ==> (#[trigger] r@[i]).payload@.len() <= MAX_CELL_PAYLOAD,
            forall|i: int| 0 <= i < r@.len() ==> (#[trigger] r@[i]).sequence == first_sequence + i,
            forall|i: int| 0 <= i < r@.len() ==> (#[trigger] r@[i]).digest_ok() && r@[i].stream_id == stream_id,
            forall|i: int| 0 <= i < r@.len() ==> (#[trigger] r@[i]).payload@ == data@.subrange(
                i * MAX_CELL_PAYLOAD,
                if (i + 1) * MAX_CELL_PAYLOAD < data@.len() { (i + 1) * MAX_CELL_PAYLOAD } else { data@.len() as int },
            ),
            r@.len() * MAX_CELL_PAYLOAD >= data@.len(),
    {
        let mut cells: Vec<RelayCell> = Vec::new();
        let mut start: usize = 0;
        let mut seq_no: u32 = first_sequence;
        while start < data.len()
            invariant
                start <= data@.len(),
                start < data@.len() ==> start == cells@.len() * MAX_CELL_PAYLOAD,
                start == data@.len() ==> cells@.len() * MAX_CELL_PAYLOAD >= data@.len(),
                seq_no == first_sequence + cells@.len(),
                first_sequence + data@.len() / (MAX_CELL_PAYLOAD as nat) + 1 <= u32::MAX,
                cells@.len() <= data@.len() / (MAX_CELL_PAYLOAD as nat) + 1,
                forall|i: int| 0 <= i < cells@.len() ==> (#[trigger] cells@[i]).payload@.len() <= MAX_CELL_PAYLOAD,
                forall|i: int| 0 <= i < cells@.len() ==> (#[trigger] cells@[i]).sequence == first_sequence + i,
                forall|i: int| 0 <= i < cells@.len() ==> (#[trigger] cells@[i]).digest_ok() && cells@[i].stream_id == stream_id,
                forall|i: int| 0 <= i < cells@.len() ==> (#[trigger] cells@[i]).payload@ == data@.subrange(
                    i * MAX_CELL_PAYLOAD,
                    if (i + 1) * MAX_CELL_PAYLOAD < data@.len() { (i + 1) * MAX_CELL_PAYLOAD } else { data@.len() as int },
                ),
            decreases data@.len() - start,
        {
            let end = if data.len() - start > MAX_CELL_PAYLOAD { start + MAX_CELL_PAYLOAD } else { data.len() };
            let mut chunk: Vec<u8> = Vec::new();
            let mut j: usize = start;
            while j < end
                invariant
                    start <= j <= end <= data@.len(),
                    chunk@ == data@.subrange(start as int, j as int),
                decreases end - j,
            {
                chunk.push(data[j]);
                j = j + 1;
                proof {
                    assert(data@.subrange(start as int, j as int) =~= data@.subrange(start as int, j - 1).push(data@[j - 1]));
                }
            }
            proof {
                let n = cells@.len() as int;
                assert(start == n * MAX_CELL_PAYLOAD);
                assert((n + 1) * MAX_CELL_PAYLOAD == start + MAX_CELL_PAYLOAD) by (nonlinear_arith)
                    requires
                        start == n * MAX_CELL_PAYLOAD,
                ;
                assert(n <= data@.len() / (MAX_CELL_PAYLOAD as nat)) by (nonlinear_arith)
                    requires
                        start == n * 498,
                        start < data@.len(),
                        n >= 0,
                ;
            }
            let cell = RelayHandler::create_data_cell(stream_id, chunk, seq_no);
            let ghost c0 = cells@;
            cells.push(cell);
            proof {
                assert forall|i: int| 0 <= i < cells@.len() implies (#[trigger] cells@[i]).payload@ == data@.subrange(
                    i * MAX_CELL_PAYLOAD,
                    if (i + 1) * MAX_CELL_PAYLOAD < data@.len() { (i + 1) * MAX_CELL_PAYLOAD } else { data@.len() as int },
                ) by {
                    if i < c0.len() {
                        assert(cells@[i] == c0[i]);
                    }
                }
            }
            start = end;
            seq_no = seq_no + 1;
        }
        cells
    }
}

} // verus!
