//! The write side of the packet framer: frames are queued eagerly, each
//! prefixed by its length computed at send time, and drained toward the
//! transport in steps of whatever size the transport accepts, resuming from
//! the first unwritten byte after every partial write.

use vstd::prelude::*;

use crate::bytes::write_u32_le;
use crate::packet_streamer::{frame_stream, framed, lemma_frame_stream_push};

verus! {

/// Queues length-prefixed frames and hands their bytes to the transport in
/// order, tolerating partial writes.
pub struct PacketSink {
    buffer: Vec<u8>,
    pos: usize,
    sent: Ghost<Seq<Seq<u8>>>,
    drained: Ghost<Seq<u8>>,
}

impl PacketSink {
    /// Every frame payload ever queued on this sink, in order.
    pub closed spec fn sent(&self) -> Seq<Seq<u8>> {
        self.sent@
    }

    /// The bytes already handed to the transport.
    pub closed spec fn transported(&self) -> Seq<u8> {
        self.drained@ + self.buffer@.take(self.pos as int)
    }

    /// The bytes queued but not yet handed to the transport.
    pub closed spec fn queued(&self) -> Seq<u8> {
        self.buffer@.skip(self.pos as int)
    }

    /// The sink's invariant: transported and queued bytes together are
    /// exactly the frame stream of every payload queued so far.
    pub closed spec fn inv(&self) -> bool {
        &&& self.pos <= self.buffer@.len()
        &&& self.drained@ + self.buffer@ == frame_stream(self.sent@)
        &&& forall|i: int|
            0 <= i < self.sent@.len() ==> #[trigger] self.sent@[i].len() < 0x1_0000_0000
    }

    /// What has reached the transport, followed by what still waits, is the
    /// exact frame stream of the queued payloads: nothing is reordered,
    /// dropped or repeated.
    pub proof fn lemma_stream_so_far(&self)
        requires
            self.inv(),
        ensures
            self.transported() + self.queued() == frame_stream(self.sent()),
    {
        assert(self.transported() + self.queued() =~= self.drained@ + self.buffer@);
    }

    /// A fresh sink: nothing queued, nothing transported.
    pub fn new() -> (s: PacketSink)
        ensures
            s.inv(),
            s.sent() == Seq::<Seq<u8>>::empty(),
            s.transported() == Seq::<u8>::empty(),
            s.queued() == Seq::<u8>::empty(),
    {
        let s = PacketSink {
            buffer: Vec::new(),
            pos: 0,
            sent: Ghost(Seq::empty()),
            drained: Ghost(Seq::empty()),
        };
        proof {
            assert(s.drained@ + s.buffer@ =~= frame_stream(s.sent@));
            assert(s.transported() =~= Seq::<u8>::empty());
            assert(s.queued() =~= Seq::<u8>::empty());
        }
        s
    }

    /// Queues one frame: the payload's length as a four-byte prefix,
    /// immediately followed by the payload.
    pub fn start_send(&mut self, item: &Vec<u8>) -> (r: Result<(), ()>)
        requires
            old(self).inv(),
            item@.len() < 0x1_0000_0000,
        ensures
            final(self).inv(),
            r is Ok,
            final(self).sent() == old(self).sent().push(item@),
            final(self).transported() == old(self).transported(),
            final(self).queued() == old(self).queued() + framed(item@),
    {
        let ghost before = self.buffer@;
        write_u32_le(item.len() as u32, &mut self.buffer);
        let mut j: usize = 0;
        while j < item.len()
            invariant
                j <= item@.len(),
                self.buffer@ == before + framed(item@).take(4 + j as int),
                self.pos == old(self).pos,
                self.sent == old(self).sent,
                self.drained == old(self).drained,
            decreases item@.len() - j,
        {
            self.buffer.push(item[j]);
            proof {
                assert((before + framed(item@).take(4 + j as int)).push(item@[j as int])
                    =~= before + framed(item@).take(4 + j as int + 1));
            }
            j = j + 1;
        }
        proof {
            assert(framed(item@).take(4 + item@.len() as int) =~= framed(item@));
            lemma_frame_stream_push(self.sent@, item@);
        }
        self.sent = Ghost(self.sent@.push(item@));
        proof {
            assert(self.drained@ + self.buffer@ =~= frame_stream(self.sent@));
            assert(self.transported() =~= old(self).transported());
            assert(self.queued() =~= old(self).queued() + framed(item@));
        }
        Ok(())
    }

    /// Whether every queued byte has been handed to the transport.
    pub fn is_flushed(&self) -> (b: bool)
        requires
            self.inv(),
        ensures
            b == (self.queued().len() == 0),
    {
        self.pos == self.buffer.len()
    }

    /// A copy of the queued bytes, for the caller to offer to the transport.
    pub fn unsent(&self) -> (v: Vec<u8>)
        requires
            self.inv(),
        ensures
            v@ == self.queued(),
    {
        let mut v: Vec<u8> = Vec::new();
        let mut j: usize = self.pos;
        while j < self.buffer.len()
            invariant
                self.pos <= j <= self.buffer@.len(),
                v@ == self.buffer@.subrange(self.pos as int, j as int),
            decreases self.buffer@.len() - j,
        {
            v.push(self.buffer[j]);
            proof {
                assert(self.buffer@.subrange(self.pos as int, j as int).push(
                    self.buffer@[j as int],
                ) =~= self.buffer@.subrange(self.pos as int, j as int + 1));
            }
            j = j + 1;
        }
        proof {
            assert(self.buffer@.subrange(self.pos as int, self.buffer@.len() as int)
                =~= self.queued());
        }
        v
    }

    /// Records that the transport accepted the first `n` queued bytes; the
    /// next drain resumes from the first byte it did not.
    pub fn record_written(&mut self, n: usize)
        requires
            old(self).inv(),
            n <= old(self).queued().len(),
        ensures
            final(self).inv(),
            final(self).sent() == old(self).sent(),
            final(self).transported() == old(self).transported() + old(self).queued().take(
                n as int,
            ),
            final(self).queued() == old(self).queued().skip(n as int),
    {
        let total = self.buffer.len();
        assert(self.pos + n <= total);
        self.pos = self.pos + n;
        if self.pos == total {
            // Everything queued has reached the transport: reset the buffer,
            // as a completed flush does.
            self.drained = Ghost(self.drained@ + self.buffer@);
            self.buffer = Vec::new();
            self.pos = 0;
        }
        proof {
            assert(self.drained@ + self.buffer@ =~= frame_stream(self.sent@));
            assert(self.transported() =~= old(self).transported() + old(self).queued().take(
                n as int,
            ));
            assert(self.queued() =~= old(self).queued().skip(n as int));
        }
    }
}

} // verus!
