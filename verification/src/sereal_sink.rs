//! The typed packet sink: serializes one message per frame through the wire
//! codec and queues the frame on the packet sink, with no batching.

use vstd::prelude::*;

use crate::packet_sink::PacketSink;
use crate::packet_streamer::{frame_stream, framed};
use crate::serialize::{Serializable, Serializer};

verus! {

/// Serializes typed messages and sends each as one length-prefixed frame.
pub struct SerealSink {
    sink: PacketSink,
}

impl SerealSink {
    /// The wire encodings of every message sent so far, in order; each is
    /// the payload of exactly one frame.
    pub closed spec fn sent(&self) -> Seq<Seq<u8>> {
        self.sink.sent()
    }

    /// The bytes already handed to the transport.
    pub closed spec fn transported(&self) -> Seq<u8> {
        self.sink.transported()
    }

    /// The bytes queued but not yet handed to the transport.
    pub closed spec fn queued(&self) -> Seq<u8> {
        self.sink.queued()
    }

    /// The underlying packet sink's invariant.
    pub closed spec fn inv(&self) -> bool {
        self.sink.inv()
    }

    /// What has reached the transport, followed by what still waits, is the
    /// exact frame stream of the messages sent so far.
    pub proof fn lemma_stream_so_far(&self)
        requires
            self.inv(),
        ensures
            self.transported() + self.queued() == frame_stream(self.sent()),
    {
        self.sink.lemma_stream_so_far();
    }

    /// A fresh typed sink over a fresh packet sink.
    pub fn new() -> (s: SerealSink)
        ensures
            s.inv(),
            s.sent() == Seq::<Seq<u8>>::empty(),
            s.transported() == Seq::<u8>::empty(),
            s.queued() == Seq::<u8>::empty(),
    {
        SerealSink { sink: PacketSink::new() }
    }

    /// Serializes `item` and queues its encoding as one frame.
    pub fn start_send<T: Serializable>(&mut self, item: &T) -> (r: Result<(), ()>)
        requires
            old(self).inv(),
            item.wire_bytes().len() < 0x1_0000_0000,
        ensures
            final(self).inv(),
            r is Ok,
            final(self).sent() == old(self).sent().push(item.wire_bytes()),
            final(self).transported() == old(self).transported(),
            final(self).queued() == old(self).queued() + framed(item.wire_bytes()),
    {
        let mut buf: Vec<u8> = Vec::new();
        buf.serialize(item);
        self.sink.start_send(&buf)
    }

    /// Whether every queued byte has been handed to the transport.
    pub fn is_flushed(&self) -> (b: bool)
        requires
            self.inv(),
        ensures
            b == (self.queued().len() == 0),
    {
        self.sink.is_flushed()
    }

    /// A copy of the queued bytes, for the caller to offer to the transport.
    pub fn unsent(&self) -> (v: Vec<u8>)
        requires
            self.inv(),
        ensures
            v@ == self.queued(),
    {
        self.sink.unsent()
    }

    /// Records that the transport accepted the first `n` queued bytes.
    pub fn record_written(&mut self, n: usize)
        requires
            old(self).inv(),
            n <= old(self).queued().len(),
        ensures
            final(self).inv(),
            final(self).sent() == old(self).sent(),
            final(self).transported() == old(self).transported() + old(self).queued().take(
                n as int,
            ),
            final(self).queued() == old(self).queued().skip(n as int),
    {
        self.sink.record_written(n);
    }
}

} // verus!
