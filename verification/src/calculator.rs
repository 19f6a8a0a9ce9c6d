//! The client-side connection multiplexer: one task owns the connection's
//! typed sink and the pending table, merges locally submitted requests with
//! asynchronously arriving results, and routes each result to the completion
//! handle registered under its request id.
//!
//! The completion handle type is a parameter: the surrounding runtime hands
//! in whatever one-shot channel or waker it uses, and the multiplexer only
//! stores and returns it.

use vstd::prelude::*;

use crate::packet_streamer::{frame_stream, framed};
use crate::pending::{ids_distinct, pairs_map, PendingTable};
use crate::serialize::Serializable;
use crate::sereal_sink::SerealSink;
use crate::{MathRequest, MathResult, ProtocolError};

verus! {

/// One event for the multiplexer's task: a result arriving from the
/// connection, or a locally submitted request paired with its completion
/// handle.
pub enum Input<H> {
    Result(MathResult),
    Request(MathRequest, H),
}

/// What one event made the multiplexer do.
pub enum Step<H> {
    /// A request was encoded, queued on the sink, and registered as pending.
    Sent,
    /// A result arrived for a pending id: fulfill this handle with it.
    Fulfill(H, MathResult),
    /// A request reused an id that is still pending: rejected, the handle
    /// goes back to the caller unregistered.
    RejectedDuplicate(H),
    /// A protocol violation, fatal for the connection.
    Failed(ProtocolError),
}

/// What one event does to the pending table.
pub open spec fn step_pending<H>(m: Map<u32, H>, input: Input<H>) -> Map<u32, H> {
    match input {
        Input::Request(req, h) => if m.dom().contains(req.id) {
            m
        } else {
            m.insert(req.id, h)
        },
        Input::Result(res) => if m.dom().contains(res.id) {
            m.remove(res.id)
        } else {
            m
        },
    }
}

/// The pending table after a sequence of events.
pub open spec fn run_steps<H>(m: Map<u32, H>, inputs: Seq<Input<H>>) -> Map<u32, H>
    decreases inputs.len(),
{
    if inputs.len() == 0 {
        m
    } else {
        run_steps(step_pending(m, inputs[0]), inputs.skip(1))
    }
}

/// Whether an event carries this request id.
pub open spec fn touches<H>(input: Input<H>, id: u32) -> bool {
    match input {
        Input::Request(req, _) => req.id == id,
        Input::Result(res) => res.id == id,
    }
}

/// Id correlation: once a handle is registered under an id, any interleaving
/// of submissions and arrivals on other ids leaves that registration intact —
/// so the result that carries the id is fulfilled with exactly that handle,
/// regardless of ordering.
pub proof fn lemma_id_correlation<H>(m: Map<u32, H>, inputs: Seq<Input<H>>, id: u32)
    requires
        m.dom().contains(id),
        forall|i: int| 0 <= i < inputs.len() ==> !touches(#[trigger] inputs[i], id),
    ensures
        run_steps(m, inputs).dom().contains(id),
        run_steps(m, inputs)[id] == m[id],
    decreases inputs.len(),
{
    if inputs.len() > 0 {
        let m1 = step_pending(m, inputs[0]);
        assert(!touches(inputs[0], id));
        assert(m1.dom().contains(id) && m1[id] == m[id]);
        assert forall|i: int| 0 <= i < inputs.skip(1).len() implies !touches(
            #[trigger] inputs.skip(1)[i],
            id,
        ) by {
            assert(inputs.skip(1)[i] == inputs[i + 1]);
        }
        lemma_id_correlation(m1, inputs.skip(1), id);
    }
}

/// The client-side multiplexer for one connection: the typed sink for the
/// write half, and the pending table of in-flight requests.
pub struct Multiplexer<H> {
    pending: PendingTable<H>,
    sink: SerealSink,
}

impl<H> Multiplexer<H> {
    /// The pending table: in-flight request id to completion handle.
    pub closed spec fn pending_map(&self) -> Map<u32, H> {
        self.pending@
    }

    /// The wire encodings of every request written to the connection so far.
    pub closed spec fn sent(&self) -> Seq<Seq<u8>> {
        self.sink.sent()
    }

    /// The bytes already handed to the transport.
    pub closed spec fn transported(&self) -> Seq<u8> {
        self.sink.transported()
    }

    /// The bytes queued on the sink but not yet handed to the transport.
    pub closed spec fn queued(&self) -> Seq<u8> {
        self.sink.queued()
    }

    /// The multiplexer's invariant.
    pub closed spec fn inv(&self) -> bool {
        self.pending.wf() && self.sink.inv()
    }

    /// What has reached the transport, followed by what still waits, is the
    /// exact frame stream of the requests sent so far.
    pub proof fn lemma_stream_so_far(&self)
        requires
            self.inv(),
        ensures
            self.transported() + self.queued() == frame_stream(self.sent()),
    {
        self.sink.lemma_stream_so_far();
    }

    /// A fresh multiplexer: nothing pending, nothing sent.
    pub fn new() -> (m: Multiplexer<H>)
        ensures
            m.inv(),
            m.pending_map() == Map::<u32, H>::empty(),
            m.sent() == Seq::<Seq<u8>>::empty(),
            m.transported() == Seq::<u8>::empty(),
            m.queued() == Seq::<u8>::empty(),
    {
        Multiplexer { pending: PendingTable::new(), sink: SerealSink::new() }
    }

    /// Whether a request under this id is still in flight.
    pub fn is_pending(&self, id: u32) -> (b: bool)
        requires
            self.inv(),
        ensures
            b == self.pending_map().dom().contains(id),
    {
        self.pending.contains(id)
    }

    /// Services one event.
    ///
    /// A submitted request whose id is free is encoded and queued as one
    /// frame and its handle registered; one whose id is still pending is
    /// rejected and the handle handed back. An arriving result takes the
    /// handle registered under its id out for fulfillment; one with no
    /// pending entry is a fatal `UnmatchedResult`, and the table is left
    /// untouched.
    pub fn handle_input(&mut self, input: Input<H>) -> (r: Step<H>)
        requires
            old(self).inv(),
        ensures
            final(self).inv(),
            final(self).pending_map() == step_pending(old(self).pending_map(), input),
            final(self).transported() == old(self).transported(),
            match input {
                Input::Request(req, h) => {
                    if old(self).pending_map().dom().contains(req.id) {
                        &&& r == Step::RejectedDuplicate(h)
                        &&& final(self).sent() == old(self).sent()
                        &&& final(self).queued() == old(self).queued()
                    } else {
                        &&& r == Step::<H>::Sent
                        &&& final(self).sent() == old(self).sent().push(req.wire_bytes())
                        &&& final(self).queued() == old(self).queued() + framed(req.wire_bytes())
                    }
                },
                Input::Result(res) => {
                    &&& final(self).sent() == old(self).sent()
                    &&& final(self).queued() == old(self).queued()
                    &&& if old(self).pending_map().dom().contains(res.id) {
                        r == Step::Fulfill(old(self).pending_map()[res.id], res)
                    } else {
                        r == Step::<H>::Failed(ProtocolError::UnmatchedResult)
                    }
                },
            },
    {
        match input {
            Input::Request(req, h) => {
                if self.pending.contains(req.id) {
                    Step::RejectedDuplicate(h)
                } else {
                    assert(req.wire_bytes().len() == 24);
                    let _ = self.sink.start_send(&req);
                    self.pending.insert(req.id, h);
                    Step::Sent
                }
            },
            Input::Result(res) => {
                match self.pending.remove(res.id) {
                    Some(h) => Step::Fulfill(h, res),
                    None => Step::Failed(ProtocolError::UnmatchedResult),
                }
            },
        }
    }

    /// Whether every queued byte has been handed to the transport.
    pub fn sink_is_flushed(&self) -> (b: bool)
        requires
            self.inv(),
        ensures
            b == (self.queued().len() == 0),
    {
        self.sink.is_flushed()
    }

    /// A copy of the queued bytes, for the caller to offer to the transport.
    pub fn sink_unsent(&self) -> (v: Vec<u8>)
        requires
            self.inv(),
        ensures
            v@ == self.queued(),
    {
        self.sink.unsent()
    }

    /// Records that the transport accepted the first `n` queued bytes.
    pub fn sink_record_written(&mut self, n: usize)
        requires
            old(self).inv(),
            n <= old(self).queued().len(),
        ensures
            final(self).inv(),
            final(self).pending_map() == old(self).pending_map(),
            final(self).sent() == old(self).sent(),
            final(self).transported() == old(self).transported() + old(self).queued().take(
                n as int,
            ),
            final(self).queued() == old(self).queued().skip(n as int),
    {
        self.sink.record_written(n);
    }

    /// Ends the connection's multiplexing: every handle still pending leaves
    /// the table exactly once, paired with its id, for the caller to resolve
    /// as failed with `ConnectionClosed` — never silently dropped.
    pub fn close(&mut self) -> (leftover: Vec<(u32, H)>)
        requires
            old(self).inv(),
        ensures
            final(self).inv(),
            final(self).pending_map() == Map::<u32, H>::empty(),
            final(self).sent() == old(self).sent(),
            ids_distinct(leftover@),
            pairs_map(leftover@) == old(self).pending_map(),
    {
        self.pending.drain()
    }
}

} // verus!
