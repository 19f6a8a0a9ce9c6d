//! The read side of the packet framer: a two-state machine that turns a raw
//! byte stream into the sequence of length-prefixed frames it carries.
//!
//! The machine is fed any number of non-empty chunks, cut anywhere; it
//! resumes exactly where the previous feeding stopped. Its central invariant
//! is that the frames produced so far are exactly `parse_frames` of all bytes
//! consumed so far, however the bytes were split — so fragmentation can never
//! change, duplicate or drop a frame, and no partial frame is ever produced.

use vstd::prelude::*;

use crate::bytes::{
    lemma_u32_le_bytes_of, lemma_u32_le_round_trip, read_u32_le, u32_from_le, u32_le_bytes,
};

verus! {

/// The payload length announced by the four-byte prefix at the front of `s`.
pub open spec fn frame_len(s: Seq<u8>) -> int
    recommends
        s.len() >= 4,
{
    u32_from_le(s.take(4)) as int
}

/// Whether `s` begins with one complete length-prefixed frame.
pub open spec fn has_frame(s: Seq<u8>) -> bool {
    s.len() >= 4 && s.len() >= 4 + frame_len(s)
}

/// The payloads of all complete frames at the front of `s`, in order.
pub open spec fn parse_frames(s: Seq<u8>) -> Seq<Seq<u8>>
    decreases s.len(),
{
    if has_frame(s) {
        seq![s.subrange(4, 4 + frame_len(s))] + parse_frames(s.skip(4 + frame_len(s)))
    } else {
        seq![]
    }
}

/// The bytes of `s` left over after all complete frames: a partial length
/// prefix, or a prefix together with part of its announced payload.
pub open spec fn parse_rest(s: Seq<u8>) -> Seq<u8>
    decreases s.len(),
{
    if has_frame(s) {
        parse_rest(s.skip(4 + frame_len(s)))
    } else {
        s
    }
}

/// One payload as it stands on the wire: its length as a little-endian
/// `u32` prefix, then the payload itself.
pub open spec fn framed(payload: Seq<u8>) -> Seq<u8>
    recommends
        payload.len() < 0x1_0000_0000,
{
    u32_le_bytes(payload.len() as u32) + payload
}

/// A sequence of payloads as they stand on the wire, one frame each.
pub open spec fn frame_stream(payloads: Seq<Seq<u8>>) -> Seq<u8>
    decreases payloads.len(),
{
    if payloads.len() == 0 {
        Seq::empty()
    } else {
        framed(payloads[0]) + frame_stream(payloads.skip(1))
    }
}

/// A byte sequence without a complete frame parses to no frames and is all
/// leftover.
pub proof fn lemma_parse_incomplete(s: Seq<u8>)
    requires
        !has_frame(s),
    ensures
        parse_frames(s) == Seq::<Seq<u8>>::empty(),
        parse_rest(s) == s,
{
    assert(parse_frames(s) =~= Seq::<Seq<u8>>::empty());
}

/// One exactly-framed payload parses to that payload alone.
pub proof fn lemma_parse_single_frame(p: Seq<u8>)
    requires
        p.len() < 0x1_0000_0000,
    ensures
        parse_frames(framed(p)) == seq![p],
        parse_rest(framed(p)).len() == 0,
{
    let s = framed(p);
    assert(s.take(4) =~= u32_le_bytes(p.len() as u32));
    lemma_u32_le_round_trip(p.len() as u32);
    assert(frame_len(s) == p.len());
    assert(s.subrange(4, 4 + frame_len(s)) =~= p);
    assert(s.skip(4 + frame_len(s)) =~= Seq::<u8>::empty());
    lemma_parse_incomplete(Seq::empty());
    assert(parse_frames(s) =~= seq![p]);
}

/// Parsing passes over a fully framed prefix: the frames of `d + p` are the
/// frames of `d` followed by the frames of `p`, and the leftover is `p`'s.
pub proof fn lemma_parse_append(d: Seq<u8>, p: Seq<u8>)
    requires
        parse_rest(d).len() == 0,
    ensures
        parse_frames(d + p) == parse_frames(d) + parse_frames(p),
        parse_rest(d + p) == parse_rest(p),
    decreases d.len(),
{
    if !has_frame(d) {
        assert(parse_rest(d) == d);
        assert(d.len() == 0);
        assert(d + p =~= p);
        assert(parse_frames(d) + parse_frames(p) =~= parse_frames(p));
    } else {
        let l = frame_len(d);
        let s = d + p;
        assert(s.take(4) =~= d.take(4));
        assert(frame_len(s) == l);
        assert(has_frame(s));
        assert(s.subrange(4, 4 + l) =~= d.subrange(4, 4 + l));
        assert(s.skip(4 + l) =~= d.skip(4 + l) + p);
        lemma_parse_append(d.skip(4 + l), p);
        assert(parse_frames(s) =~= parse_frames(d) + parse_frames(p));
    }
}

/// Framing one more payload appends its frame to the stream.
pub proof fn lemma_frame_stream_push(payloads: Seq<Seq<u8>>, p: Seq<u8>)
    ensures
        frame_stream(payloads.push(p)) == frame_stream(payloads) + framed(p),
    decreases payloads.len(),
{
    if payloads.len() == 0 {
        let one = payloads.push(p);
        assert(one[0] == p);
        assert(one.skip(1) =~= Seq::<Seq<u8>>::empty());
        assert(frame_stream(one) == framed(p) + frame_stream(Seq::<Seq<u8>>::empty()));
        assert(frame_stream(one) =~= frame_stream(payloads) + framed(p));
    } else {
        assert(payloads.push(p).skip(1) =~= payloads.skip(1).push(p));
        lemma_frame_stream_push(payloads.skip(1), p);
        assert(frame_stream(payloads.push(p)) =~= frame_stream(payloads) + framed(p));
    }
}

/// Read/write duality: the byte stream that frames a sequence of payloads
/// parses back to exactly those payloads, with nothing left over.
#[verifier::rlimit(100)]
#[verifier::spinoff_prover]
pub proof fn lemma_frame_stream_parses(payloads: Seq<Seq<u8>>)
    requires
        forall|i: int| 0 <= i < payloads.len() ==> #[trigger] payloads[i].len() < 0x1_0000_0000,
    ensures
        parse_frames(frame_stream(payloads)) == payloads,
        parse_rest(frame_stream(payloads)).len() == 0,
    decreases payloads.len(),
{
    if payloads.len() == 0 {
        assert(frame_stream(payloads) == Seq::<u8>::empty());
        lemma_parse_incomplete(Seq::empty());
        assert(parse_frames(frame_stream(payloads)) =~= payloads);
    } else {
        let head = payloads[0];
        let tail = payloads.skip(1);
        assert forall|i: int| 0 <= i < tail.len() implies #[trigger] tail[i].len()
            < 0x1_0000_0000 by {
            assert(tail[i] == payloads[i + 1]);
        }
        lemma_parse_single_frame(head);
        lemma_frame_stream_parses(tail);
        lemma_parse_append(framed(head), frame_stream(tail));
        assert(frame_stream(payloads) == framed(head) + frame_stream(tail));
        assert(parse_frames(frame_stream(payloads)) == seq![head] + parse_frames(
            frame_stream(tail),
        ));
        assert(parse_frames(frame_stream(payloads)) =~= payloads);
    }
}

/// Which part of a frame the machine is accumulating.
#[derive(Clone, Copy, Debug, PartialEq, Eq, Structural)]
pub enum PacketState {
    Length,
    Data,
}

/// Streams packets that are structured as a `u32` length prefix followed by
/// that many payload bytes, however the incoming bytes are fragmented.
pub struct PacketStreamer {
    state: PacketState,
    need: usize,
    buffer: Vec<u8>,
    stream: Ghost<Seq<u8>>,
    frames: Ghost<Seq<Seq<u8>>>,
    done: Ghost<Seq<u8>>,
    lenb: Ghost<Seq<u8>>,
}

impl PacketStreamer {
    /// Every byte this machine has consumed, in order.
    pub closed spec fn stream(&self) -> Seq<u8> {
        self.stream@
    }

    /// Every frame payload this machine has produced, in order.
    pub closed spec fn frames(&self) -> Seq<Seq<u8>> {
        self.frames@
    }

    /// The bytes of the frame still being assembled.
    closed spec fn pending(&self) -> Seq<u8> {
        match self.state {
            PacketState::Length => self.buffer@,
            PacketState::Data => self.lenb@ + self.buffer@,
        }
    }

    /// The machine's invariant: the produced frames are exactly the parse of
    /// the consumed bytes, and the internal buffer holds the parse leftover.
    pub closed spec fn inv(&self) -> bool {
        &&& match self.state {
            PacketState::Length => self.need == 4 && self.buffer@.len() < 4,
            PacketState::Data => {
                &&& self.lenb@.len() == 4
                &&& self.need == u32_from_le(self.lenb@)
                &&& 0 < self.need
                &&& self.buffer@.len() < self.need
            },
        }
        &&& self.stream@ == self.done@ + self.pending()
        &&& parse_rest(self.done@).len() == 0
        &&& self.frames@ == parse_frames(self.done@)
        &&& self.frames@ == parse_frames(self.stream@)
        &&& parse_rest(self.stream@) == self.pending()
    }

    /// However the consumed bytes were fragmented, the produced frames are
    /// exactly the parse of their concatenation.
    pub proof fn lemma_frames_are_parse(&self)
        requires
            self.inv(),
        ensures
            self.frames() == parse_frames(self.stream()),
    {
    }

    /// A fresh machine: nothing consumed, nothing produced.
    pub fn new() -> (s: PacketStreamer)
        ensures
            s.inv(),
            s.stream() == Seq::<u8>::empty(),
            s.frames() == Seq::<Seq<u8>>::empty(),
    {
        let s = PacketStreamer {
            state: PacketState::Length,
            need: 4,
            buffer: Vec::new(),
            stream: Ghost(Seq::empty()),
            frames: Ghost(Seq::empty()),
            done: Ghost(Seq::empty()),
            lenb: Ghost(Seq::empty()),
        };
        proof {
            lemma_parse_incomplete(Seq::empty());
            assert(s.stream@ =~= s.done@ + s.pending());
        }
        s
    }

    /// Whether the machine stands in the middle of a frame, holding a partial
    /// length prefix or a partial payload. Such bytes are never produced: a
    /// stream closed here drops them silently.
    pub fn is_mid_frame(&self) -> (b: bool)
        requires
            self.inv(),
        ensures
            b == (parse_rest(self.stream()).len() != 0),
    {
        match self.state {
            PacketState::Length => self.buffer.len() != 0,
            PacketState::Data => true,
        }
    }

    /// Consumes one byte; produces the completed frame payload, if this byte
    /// completes one.
    pub fn push_byte(&mut self, byte: u8) -> (r: Option<Vec<u8>>)
        requires
            old(self).inv(),
        ensures
            final(self).inv(),
            final(self).stream() == old(self).stream().push(byte),
            match r {
                Some(f) => final(self).frames() == old(self).frames().push(f@),
                None => final(self).frames() == old(self).frames(),
            },
    {
        self.stream = Ghost(self.stream@.push(byte));
        self.buffer.push(byte);
        match self.state {
            PacketState::Length => {
                if self.buffer.len() == 4 {
                    let l = read_u32_le(&self.buffer, 0);
                    proof {
                        assert(self.buffer@.subrange(0, 4) =~= self.buffer@);
                    }
                    self.lenb = Ghost(self.buffer@);
                    self.buffer = Vec::new();
                    if l == 0 {
                        // A zero-length prefix is a complete (empty) frame.
                        proof {
                            lemma_u32_le_bytes_of(self.lenb@);
                            assert(framed(Seq::<u8>::empty()) =~= self.lenb@);
                            lemma_parse_single_frame(Seq::<u8>::empty());
                            lemma_parse_append(self.done@, self.lenb@);
                        }
                        self.done = Ghost(self.done@ + self.lenb@);
                        self.frames = Ghost(self.frames@.push(Seq::empty()));
                        proof {
                            assert(self.frames@ =~= parse_frames(self.done@));
                            assert(self.stream@ =~= self.done@ + self.pending());
                            assert(self.done@ + self.pending() =~= self.done@);
                            lemma_parse_append(self.done@, self.pending());
                        }
                        let f: Vec<u8> = Vec::new();
                        assert(f@ =~= Seq::<u8>::empty());
                        Some(f)
                    } else {
                        self.state = PacketState::Data;
                        self.need = l as usize;
                        proof {
                            assert(self.pending() =~= self.lenb@);
                            assert(self.pending().take(4) =~= self.lenb@);
                            assert(!has_frame(self.pending()));
                            lemma_parse_append(self.done@, self.pending());
                            assert(self.stream@ =~= self.done@ + self.pending());
                        }
                        None
                    }
                } else {
                    proof {
                        assert(!has_frame(self.pending()));
                        lemma_parse_append(self.done@, self.pending());
                        assert(self.stream@ =~= self.done@ + self.pending());
                    }
                    None
                }
            },
            PacketState::Data => {
                if self.buffer.len() == self.need {
                    let mut payload: Vec<u8> = Vec::new();
                    core::mem::swap(&mut self.buffer, &mut payload);
                    self.state = PacketState::Length;
                    self.need = 4;
                    proof {
                        lemma_u32_le_bytes_of(self.lenb@);
                        assert(framed(payload@) =~= self.lenb@ + payload@);
                        lemma_parse_single_frame(payload@);
                        lemma_parse_append(self.done@, framed(payload@));
                    }
                    self.done = Ghost(self.done@ + self.lenb@ + payload@);
                    self.frames = Ghost(self.frames@.push(payload@));
                    proof {
                        assert(self.done@ =~= old(self).done@ + framed(payload@));
                        assert(self.frames@ =~= parse_frames(self.done@));
                        assert(self.stream@ =~= self.done@ + self.pending());
                        assert(self.done@ + self.pending() =~= self.done@);
                        lemma_parse_append(self.done@, self.pending());
                    }
                    Some(payload)
                } else {
                    proof {
                        assert(self.pending().take(4) =~= self.lenb@);
                        assert(!has_frame(self.pending()));
                        lemma_parse_append(self.done@, self.pending());
                        assert(self.stream@ =~= self.done@ + self.pending());
                    }
                    None
                }
            },
        }
    }

    /// Consumes one chunk of any size; produces every frame payload the
    /// chunk completes, in order.
    pub fn push_bytes(&mut self, chunk: &Vec<u8>) -> (out: Vec<Vec<u8>>)
        requires
            old(self).inv(),
        ensures
            final(self).inv(),
            final(self).stream() == old(self).stream() + chunk@,
            final(self).frames() == old(self).frames() + out@.map_values(|f: Vec<u8>| f@),
    {
        let ghost start_stream = self.stream@;
        let ghost start_frames = self.frames@;
        let mut out: Vec<Vec<u8>> = Vec::new();
        let mut i: usize = 0;
        proof {
            assert(start_stream + chunk@.take(0) =~= start_stream);
            assert(start_frames + out@.map_values(|f: Vec<u8>| f@) =~= start_frames);
        }
        while i < chunk.len()
            invariant
                self.inv(),
                i <= chunk.len(),
                self.stream() == start_stream + chunk@.take(i as int),
                self.frames() == start_frames + out@.map_values(|f: Vec<u8>| f@),
            decreases chunk.len() - i,
        {
            let r = self.push_byte(chunk[i]);
            proof {
                assert((start_stream + chunk@.take(i as int)).push(chunk@[i as int])
                    =~= start_stream + chunk@.take(i as int + 1));
            }
            match r {
                Some(f) => {
                    let ghost prev = out@;
                    out.push(f);
                    proof {
                        assert(out@.map_values(|x: Vec<u8>| x@)
                            =~= prev.map_values(|x: Vec<u8>| x@).push(f@));
                        assert(start_frames + out@.map_values(|x: Vec<u8>| x@)
                            =~= (start_frames + prev.map_values(|x: Vec<u8>| x@)).push(f@));
                    }
                },
                None => {},
            }
            i = i + 1;
        }
        proof {
            assert(chunk@.take(chunk@.len() as int) =~= chunk@);
        }
        out
    }
}

} // verus!
