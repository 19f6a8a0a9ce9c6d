//! The typed packet stream: takes frames from the packet framer and decodes
//! each through the wire codec into one typed message. A frame that does not
//! decode is a protocol violation, fatal for the connection.

use vstd::prelude::*;

use crate::deserialize::{ByteCursor, Deserializable, Deserializer};
use crate::packet_streamer::{parse_frames, PacketStreamer};
use crate::ProtocolError;

verus! {

/// What decoding each frame of `fs` in order yields: the messages, or the
/// first frame's protocol error.
pub open spec fn decode_frames<T: Deserializable>(fs: Seq<Seq<u8>>) -> Result<
    Seq<T>,
    ProtocolError,
>
    decreases fs.len(),
{
    if fs.len() == 0 {
        Ok(Seq::empty())
    } else {
        match T::from_bytes(fs[0]) {
            Err(e) => Err(e),
            Ok(v) => match decode_frames::<T>(fs.skip(1)) {
                Err(e) => Err(e),
                Ok(rest) => Ok(seq![v] + rest),
            },
        }
    }
}

/// Decoding one more frame appends its message, or turns an all-good prefix
/// into that frame's error.
pub proof fn lemma_decode_frames_push<T: Deserializable>(fs: Seq<Seq<u8>>, f: Seq<u8>)
    requires
        decode_frames::<T>(fs) is Ok,
    ensures
        decode_frames::<T>(fs.push(f)) == match T::from_bytes(f) {
            Err(e) => Err::<Seq<T>, ProtocolError>(e),
            Ok(v) => Ok::<Seq<T>, ProtocolError>(decode_frames::<T>(fs)->Ok_0.push(v)),
        },
    decreases fs.len(),
{
    let fsp = fs.push(f);
    if fs.len() == 0 {
        assert(fsp[0] == f);
        assert(fsp.skip(1) =~= Seq::<Seq<u8>>::empty());
        assert(decode_frames::<T>(fsp.skip(1)) == Ok::<Seq<T>, ProtocolError>(Seq::empty()));
        assert(decode_frames::<T>(fs) == Ok::<Seq<T>, ProtocolError>(Seq::empty()));
        if T::from_bytes(f) is Ok {
            let v = T::from_bytes(f)->Ok_0;
            assert(decode_frames::<T>(fsp) == Ok::<Seq<T>, ProtocolError>(
                seq![v] + Seq::<T>::empty(),
            ));
            assert(seq![v] + Seq::<T>::empty() =~= Seq::<T>::empty().push(v));
        }
    } else {
        assert(fsp[0] == fs[0]);
        assert(fsp.skip(1) =~= fs.skip(1).push(f));
        assert(T::from_bytes(fs[0]) is Ok);
        assert(decode_frames::<T>(fs.skip(1)) is Ok);
        lemma_decode_frames_push::<T>(fs.skip(1), f);
        let v0 = T::from_bytes(fs[0])->Ok_0;
        let rest = decode_frames::<T>(fs.skip(1))->Ok_0;
        assert(decode_frames::<T>(fs) == Ok::<Seq<T>, ProtocolError>(seq![v0] + rest));
        if T::from_bytes(f) is Ok {
            let v = T::from_bytes(f)->Ok_0;
            assert(decode_frames::<T>(fsp.skip(1)) == Ok::<Seq<T>, ProtocolError>(rest.push(v)));
            assert(decode_frames::<T>(fsp) == Ok::<Seq<T>, ProtocolError>(
                seq![v0] + rest.push(v),
            ));
            assert(seq![v0] + rest.push(v) =~= (seq![v0] + rest).push(v));
        } else {
            let e = T::from_bytes(f)->Err_0;
            assert(decode_frames::<T>(fsp.skip(1)) == Err::<Seq<T>, ProtocolError>(e));
            assert(decode_frames::<T>(fsp) == Err::<Seq<T>, ProtocolError>(e));
        }
    }
}

/// A frame that fails to decode after an all-good prefix fails the whole
/// sequence with its own error.
pub proof fn lemma_decode_frames_err_at<T: Deserializable>(fs: Seq<Seq<u8>>, k: int)
    requires
        0 <= k < fs.len(),
        decode_frames::<T>(fs.take(k)) is Ok,
        T::from_bytes(fs[k]) is Err,
    ensures
        decode_frames::<T>(fs) == Err::<Seq<T>, ProtocolError>(T::from_bytes(fs[k])->Err_0),
    decreases k,
{
    if k == 0 {
    } else {
        assert(fs.take(k)[0] == fs[0]);
        assert(fs.take(k).skip(1) =~= fs.skip(1).take(k - 1));
        assert(fs.skip(1)[k - 1] == fs[k]);
        lemma_decode_frames_err_at::<T>(fs.skip(1), k - 1);
    }
}

/// Produces typed messages from the frames of an incoming byte stream,
/// however the bytes are fragmented.
pub struct SerealStreamer {
    packets: PacketStreamer,
}

impl SerealStreamer {
    /// Every byte this stream has consumed, in order.
    pub closed spec fn stream(&self) -> Seq<u8> {
        self.packets.stream()
    }

    /// Every frame payload taken from the byte stream so far, in order.
    pub closed spec fn frames(&self) -> Seq<Seq<u8>> {
        self.packets.frames()
    }

    /// The underlying framer's invariant.
    pub closed spec fn inv(&self) -> bool {
        self.packets.inv()
    }

    /// However the consumed bytes were fragmented, the frames seen are
    /// exactly the parse of their concatenation.
    pub proof fn lemma_frames_are_parse(&self)
        requires
            self.inv(),
        ensures
            self.frames() == parse_frames(self.stream()),
    {
        self.packets.lemma_frames_are_parse();
    }

    /// A fresh typed stream over a fresh framer.
    pub fn new() -> (s: SerealStreamer)
        ensures
            s.inv(),
            s.stream() == Seq::<u8>::empty(),
            s.frames() == Seq::<Seq<u8>>::empty(),
    {
        SerealStreamer { packets: PacketStreamer::new() }
    }

    /// Whether the underlying framer stands in the middle of a frame.
    pub fn is_mid_frame(&self) -> (b: bool)
        requires
            self.inv(),
        ensures
            b == (crate::packet_streamer::parse_rest(self.stream()).len() != 0),
    {
        self.packets.is_mid_frame()
    }

    /// Consumes one chunk of any size; decodes every frame the chunk
    /// completes, in order. The first frame that does not decode makes the
    /// whole call fail with that frame's error, fatal for the connection.
    pub fn push_bytes<T: Deserializable>(&mut self, chunk: &Vec<u8>) -> (r: Result<
        Vec<T>,
        ProtocolError,
    >)
        requires
            old(self).inv(),
        ensures
            final(self).inv(),
            final(self).stream() == old(self).stream() + chunk@,
            final(self).frames() == parse_frames(final(self).stream()),
            ({
                let newf = final(self).frames().skip(old(self).frames().len() as int);
                match r {
                    Ok(msgs) => decode_frames::<T>(newf) == Ok::<Seq<T>, ProtocolError>(msgs@),
                    Err(e) => decode_frames::<T>(newf) == Err::<Seq<T>, ProtocolError>(e),
                }
            }),
    {
        let ghost old_frames = self.packets.frames();
        let mut frames = self.packets.push_bytes(chunk);
        proof {
            self.packets.lemma_frames_are_parse();
        }
        let ghost newf = frames@.map_values(|f: Vec<u8>| f@);
        proof {
            assert(self.packets.frames().skip(old_frames.len() as int) =~= newf);
        }
        let mut msgs: Vec<T> = Vec::new();
        proof {
            assert(newf.take(0) =~= Seq::<Seq<u8>>::empty());
        }
        let ghost k: int = 0;
        while frames.len() > 0
            invariant
                self.inv(),
                old_frames == old(self).frames(),
                self.frames().skip(old(self).frames().len() as int) == newf,
                self.stream() == old(self).stream() + chunk@,
                self.frames() == parse_frames(self.stream()),
                0 <= k <= newf.len(),
                newf.len() - k == frames@.len(),
                frames@.map_values(|f: Vec<u8>| f@) == newf.skip(k),
                decode_frames::<T>(newf.take(k)) == Ok::<Seq<T>, ProtocolError>(msgs@),
            decreases frames@.len(),
        {
            let ghost prev = frames@;
            let f = frames.remove(0);
            proof {
                assert(prev.map_values(|x: Vec<u8>| x@)[0] == f@);
                assert(newf.skip(k)[0] == newf[k]);
                assert(f@ == newf[k]);
                assert(frames@ =~= prev.skip(1));
                let mapped = frames@.map_values(|x: Vec<u8>| x@);
                assert forall|i: int| 0 <= i < frames@.len() implies mapped[i] == #[trigger] newf
                    .skip(k + 1)[i] by {
                    assert(frames@[i] == prev[i + 1]);
                    assert(prev.map_values(|x: Vec<u8>| x@)[i + 1] == prev[i + 1]@);
                    assert(newf.skip(k)[i + 1] == newf[k + 1 + i]);
                }
                assert(mapped =~= newf.skip(k + 1));
            }
            let mut cur = ByteCursor::new(f);
            match cur.deserialize::<T>() {
                Ok(v) => {
                    proof {
                        lemma_decode_frames_push::<T>(newf.take(k), newf[k]);
                        assert(newf.take(k).push(newf[k]) =~= newf.take(k + 1));
                    }
                    msgs.push(v);
                    proof {
                        k = k + 1;
                    }
                },
                Err(e) => {
                    proof {
                        lemma_decode_frames_err_at::<T>(newf, k);
                    }
                    return Err(e);
                },
            }
        }
        proof {
            assert(newf.take(k) =~= newf);
        }
        Ok(msgs)
    }
}

} // verus!
