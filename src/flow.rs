use vstd::prelude::*;

verus! {

/// Data cells a sender may have unacknowledged on one stream.
pub const STREAM_WINDOW: u32 = 500;

/// Data cells a receiver consumes before it answers with a `Sendme`.
pub const SENDME_BATCH: u32 = 50;

/// What a receiver does with an incoming data cell.
#[derive(Debug, Clone, Copy, PartialEq, Eq, Structural)]
pub enum ReceiveOutcome {
    /// Out of sequence: the transport keeps order, so this is an attack signal.
    Discard,
    Accept,
    /// Accept, and a batch is complete: send a `Sendme`.
    AcceptAndSendme,
}

/// Sequence numbers and the flow-control window of one stream.
#[derive(Debug, Clone, Copy, PartialEq, Eq, Structural)]
pub struct StreamFlow {
    pub stream_id: u16,
    pub send_window: u32,
    pub next_send_seq: u32,
    pub next_recv_seq: u32,
    pub received_in_batch: u32,
}

impl StreamFlow {
    pub open spec fn wf(&self) -> bool {
        &&& self.send_window <= STREAM_WINDOW
        &&& self.received_in_batch < SENDME_BATCH
    }

    /// A new stream: a full window, both sequences at zero.
    pub fn new(stream_id: u16) -> (r: StreamFlow)
        ensures
            r.wf(),
            r == (StreamFlow { stream_id, send_window: STREAM_WINDOW, next_send_seq: 0, next_recv_seq: 0, received_in_batch: 0 }),
    {
        StreamFlow { stream_id, send_window: STREAM_WINDOW, next_send_seq: 0, next_recv_seq: 0, received_in_batch: 0 }
    }

    /// Whether a data cell may go out now.
    pub fn can_send(&self) -> (r: bool)
        ensures
            r == (self.send_window > 0 && self.next_send_seq < u32::MAX),
    {
        self.send_window > 0 && self.next_send_seq < u32::MAX
    }

    /// Takes the sequence number of the next data cell and one unit of the
    /// window; `None`, changing nothing, where the window is exhausted.
    pub fn on_send(&mut self) -> (r: Option<u32>)
        requires
            old(self).wf(),
        ensures
            final(self).wf(),
            !(old(self).send_window > 0 && old(self).next_send_seq < u32::MAX) ==> r is None && *final(self) == *old(self),
            old(self).send_window > 0 && old(self).next_send_seq < u32::MAX ==> r == Some(old(self).next_send_seq)
                && *final(self) == (StreamFlow {
                send_window: (old(self).send_window - 1) as u32,
                next_send_seq: (old(self).next_send_seq + 1) as u32,
                ..*old(self)
            }),
    {
        if !self.can_send() {
            return None;
        }
        let seq = self.next_send_seq;
        self.send_window = self.send_window - 1;
        self.next_send_seq = self.next_send_seq + 1;
        Some(seq)
    }

    /// A `Sendme` returns one batch of window, up to the full window.
    pub fn on_sendme(&mut self)
        requires
            old(self).wf(),
        ensures
            final(self).wf(),
            *final(self) == (StreamFlow {
                send_window: if old(self).send_window + SENDME_BATCH > STREAM_WINDOW {
                    STREAM_WINDOW
                } else {
                    (old(self).send_window + SENDME_BATCH) as u32
                },
                ..*old(self)
            }),
    {
        if self.send_window + SENDME_BATCH > STREAM_WINDOW {
            self.send_window = STREAM_WINDOW;
        } else {
            self.send_window = self.send_window + SENDME_BATCH;
        }
    }

    /// Accepts the data cell with the expected sequence number; any other is
    /// discarded and changes nothing. Every `SENDME_BATCH` cells accepted
    /// ask for a `Sendme`.
    pub fn on_receive(&mut self, sequence: u32) -> (r: ReceiveOutcome)
        requires
            old(self).wf(),
        ensures
            final(self).wf(),
            (sequence != old(self).next_recv_seq || sequence == u32::MAX) ==> r == ReceiveOutcome::Discard
                && *final(self) == *old(self),
            sequence == old(self).next_recv_seq && sequence < u32::MAX ==> final(self).next_recv_seq == sequence + 1
                && final(self).send_window == old(self).send_window && final(self).next_send_seq == old(self).next_send_seq
                && (old(self).received_in_batch + 1 == SENDME_BATCH ==> r == ReceiveOutcome::AcceptAndSendme
                && final(self).received_in_batch == 0) && (old(self).received_in_batch + 1 < SENDME_BATCH ==> r
                == ReceiveOutcome::Accept && final(self).received_in_batch == old(self).received_in_batch + 1),
    {
        if sequence != self.next_recv_seq || sequence == u32::MAX {
            return ReceiveOutcome::Discard;
        }
        self.next_recv_seq = sequence + 1;
        if self.received_in_batch + 1 == SENDME_BATCH {
            self.received_in_batch = 0;
            ReceiveOutcome::AcceptAndSendme
        } else {
            self.received_in_batch = self.received_in_batch + 1;
            ReceiveOutcome::Accept
        }
    }
}

} // verus!
