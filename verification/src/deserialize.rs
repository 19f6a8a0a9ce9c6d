//! The decoding half of the wire codec: fixed-layout values are read back
//! from a byte buffer through a cursor, failing with `TruncatedInput` when
//! fewer bytes remain than the layout requires and never reading past the
//! buffer, and with `InvalidOperationCode` on an operation code outside the
//! defined range.

use vstd::prelude::*;

use crate::bytes::{
    lemma_u32_le_round_trip, lemma_u64_le_round_trip, read_u32_le, read_u64_le, u32_from_le,
    u32_le_bytes, u64_from_le, u64_le_bytes,
};
use crate::serialize::Serializable;
use crate::{MathRequest, MathResult, Operation, ProtocolError};

verus! {

/// A read position inside an owned byte buffer.
pub struct ByteCursor {
    data: Vec<u8>,
    pos: usize,
}

impl ByteCursor {
    /// The whole underlying buffer.
    pub closed spec fn buf(&self) -> Seq<u8> {
        self.data@
    }

    /// The read position.
    pub closed spec fn position(&self) -> int {
        self.pos as int
    }

    /// The cursor never stands past the end of its buffer.
    pub open spec fn wf(&self) -> bool {
        0 <= self.position() <= self.buf().len()
    }

    /// The bytes not yet consumed.
    pub open spec fn remaining(&self) -> Seq<u8> {
        self.buf().skip(self.position())
    }

    /// Wraps `data` with the read position at its start.
    pub fn new(data: Vec<u8>) -> (c: ByteCursor)
        ensures
            c.wf(),
            c.buf() == data@,
            c.position() == 0,
            c.remaining() == data@,
    {
        let c = ByteCursor { data, pos: 0 };
        assert(c.remaining() =~= c.data@);
        c
    }
}

/// A value with a fixed binary wire layout that can be read back from bytes.
pub trait Deserializable: Sized {
    /// The number of bytes the layout occupies.
    spec fn wire_len() -> nat;

    /// What decoding yields on the byte sequence `s`: the decoded value, or
    /// the protocol error that the front of `s` shows.
    spec fn from_bytes(s: Seq<u8>) -> Result<Self, ProtocolError>;

    /// Reads one value from the cursor, consuming exactly the layout's bytes
    /// on success, nothing on failure, and never reading past the buffer.
    fn deserialize_from(cur: &mut ByteCursor) -> (r: Result<Self, ProtocolError>)
        requires
            old(cur).wf(),
        ensures
            final(cur).wf(),
            final(cur).buf() == old(cur).buf(),
            r == Self::from_bytes(old(cur).remaining()),
            r is Ok ==> final(cur).position() == old(cur).position() + Self::wire_len(),
            r is Err ==> final(cur).position() == old(cur).position(),
    ;
}

/// A byte source that can yield any deserializable value.
pub trait Deserializer {
    /// The bytes not yet consumed.
    spec fn remaining(&self) -> Seq<u8>;

    /// Whether the source is in a readable state.
    spec fn wf(&self) -> bool;

    /// Reads one value, consuming exactly its layout's bytes on success and
    /// nothing on failure.
    fn deserialize<T: Deserializable>(&mut self) -> (r: Result<T, ProtocolError>)
        requires
            old(self).wf(),
        ensures
            final(self).wf(),
            r == T::from_bytes(old(self).remaining()),
            r is Ok ==> final(self).remaining() == old(self).remaining().skip(
                T::wire_len() as int,
            ),
            r is Err ==> final(self).remaining() == old(self).remaining(),
    ;
}

impl Deserializer for ByteCursor {
    open spec fn remaining(&self) -> Seq<u8> {
        ByteCursor::remaining(self)
    }

    open spec fn wf(&self) -> bool {
        ByteCursor::wf(self)
    }

    fn deserialize<T: Deserializable>(&mut self) -> (r: Result<T, ProtocolError>) {
        let ghost entry = *self;
        let r = T::deserialize_from(self);
        proof {
            if r is Ok {
                assert(self.remaining() =~= entry.remaining().skip(T::wire_len() as int));
            }
        }
        r
    }
}

impl Deserializable for u32 {
    open spec fn wire_len() -> nat {
        4
    }

    open spec fn from_bytes(s: Seq<u8>) -> Result<u32, ProtocolError> {
        if s.len() < 4 {
            Err(ProtocolError::TruncatedInput)
        } else {
            Ok(u32_from_le(s.take(4)))
        }
    }

    fn deserialize_from(cur: &mut ByteCursor) -> (r: Result<u32, ProtocolError>) {
        if cur.data.len() - cur.pos < 4 {
            return Err(ProtocolError::TruncatedInput);
        }
        let v = read_u32_le(&cur.data, cur.pos);
        proof {
            assert(cur.data@.subrange(cur.pos as int, cur.pos as int + 4)
                =~= ByteCursor::remaining(cur).take(4));
        }
        cur.pos = cur.pos + 4;
        Ok(v)
    }
}

impl Deserializable for u64 {
    open spec fn wire_len() -> nat {
        8
    }

    open spec fn from_bytes(s: Seq<u8>) -> Result<u64, ProtocolError> {
        if s.len() < 8 {
            Err(ProtocolError::TruncatedInput)
        } else {
            Ok(u64_from_le(s.take(8)))
        }
    }

    fn deserialize_from(cur: &mut ByteCursor) -> (r: Result<u64, ProtocolError>) {
        if cur.data.len() - cur.pos < 8 {
            return Err(ProtocolError::TruncatedInput);
        }
        let v = read_u64_le(&cur.data, cur.pos);
        proof {
            assert(cur.data@.subrange(cur.pos as int, cur.pos as int + 8)
                =~= ByteCursor::remaining(cur).take(8));
        }
        cur.pos = cur.pos + 8;
        Ok(v)
    }
}

impl Deserializable for Operation {
    open spec fn wire_len() -> nat {
        4
    }

    open spec fn from_bytes(s: Seq<u8>) -> Result<Operation, ProtocolError> {
        match <u32 as Deserializable>::from_bytes(s) {
            Err(e) => Err(e),
            Ok(c) => match Operation::from_code(c) {
                Some(op) => Ok(op),
                None => Err(ProtocolError::InvalidOperationCode),
            },
        }
    }

    fn deserialize_from(cur: &mut ByteCursor) -> (r: Result<Operation, ProtocolError>) {
        let c = match u32::deserialize_from(cur) {
            Ok(c) => c,
            Err(e) => {
                return Err(e);
            },
        };
        if c == 0 {
            Ok(Operation::Addition)
        } else if c == 1 {
            Ok(Operation::Subtraction)
        } else if c == 2 {
            Ok(Operation::Multiplication)
        } else if c == 3 {
            Ok(Operation::Division)
        } else {
            // The code was read but not recognized; the contract leaves the
            // cursor where it stood, so give the four bytes back.
            cur.pos = cur.pos - 4;
            Err(ProtocolError::InvalidOperationCode)
        }
    }
}

impl Deserializable for MathRequest {
    open spec fn wire_len() -> nat {
        24
    }

    open spec fn from_bytes(s: Seq<u8>) -> Result<MathRequest, ProtocolError> {
        match <u32 as Deserializable>::from_bytes(s) {
            Err(e) => Err(e),
            Ok(id) => match <Operation as Deserializable>::from_bytes(s.skip(4)) {
                Err(e) => Err(e),
                Ok(operation) => match <u64 as Deserializable>::from_bytes(s.skip(8)) {
                    Err(e) => Err(e),
                    Ok(a) => match <u64 as Deserializable>::from_bytes(s.skip(16)) {
                        Err(e) => Err(e),
                        Ok(b) => Ok(MathRequest { id, operation, a, b }),
                    },
                },
            },
        }
    }

    fn deserialize_from(cur: &mut ByteCursor) -> (r: Result<MathRequest, ProtocolError>) {
        let ghost entry = *cur;
        let id = match u32::deserialize_from(cur) {
            Ok(v) => v,
            Err(e) => {
                return Err(e);
            },
        };
        proof {
            assert(ByteCursor::remaining(cur) =~= entry.remaining().skip(4));
        }
        let operation = match Operation::deserialize_from(cur) {
            Ok(v) => v,
            Err(e) => {
                cur.pos = cur.pos - 4;
                return Err(e);
            },
        };
        proof {
            assert(ByteCursor::remaining(cur) =~= entry.remaining().skip(8));
        }
        let a = match u64::deserialize_from(cur) {
            Ok(v) => v,
            Err(e) => {
                cur.pos = cur.pos - 8;
                return Err(e);
            },
        };
        proof {
            assert(ByteCursor::remaining(cur) =~= entry.remaining().skip(16));
        }
        let b = match u64::deserialize_from(cur) {
            Ok(v) => v,
            Err(e) => {
                cur.pos = cur.pos - 16;
                return Err(e);
            },
        };
        Ok(MathRequest { id, operation, a, b })
    }
}

impl Deserializable for MathResult {
    open spec fn wire_len() -> nat {
        12
    }

    open spec fn from_bytes(s: Seq<u8>) -> Result<MathResult, ProtocolError> {
        match <u32 as Deserializable>::from_bytes(s) {
            Err(e) => Err(e),
            Ok(id) => match <u64 as Deserializable>::from_bytes(s.skip(4)) {
                Err(e) => Err(e),
                Ok(res) => Ok(MathResult { id, res }),
            },
        }
    }

    fn deserialize_from(cur: &mut ByteCursor) -> (r: Result<MathResult, ProtocolError>) {
        let ghost entry = *cur;
        let id = match u32::deserialize_from(cur) {
            Ok(v) => v,
            Err(e) => {
                return Err(e);
            },
        };
        proof {
            assert(ByteCursor::remaining(cur) =~= entry.remaining().skip(4));
        }
        let res = match u64::deserialize_from(cur) {
            Ok(v) => v,
            Err(e) => {
                cur.pos = cur.pos - 4;
                return Err(e);
            },
        };
        Ok(MathResult { id, res })
    }
}

/// Round trip: decoding the wire encoding of any request gives the request
/// back, for every valid request value.
pub proof fn lemma_request_round_trip(r: MathRequest)
    ensures
        <MathRequest as Deserializable>::from_bytes(r.wire_bytes()) == Ok::<
            MathRequest,
            ProtocolError,
        >(r),
{
    let s = r.wire_bytes();
    assert(s.take(4) =~= u32_le_bytes(r.id));
    assert(s.skip(4).take(4) =~= u32_le_bytes(r.operation.code()));
    assert(s.skip(8).take(8) =~= u64_le_bytes(r.a));
    assert(s.skip(16).take(8) =~= u64_le_bytes(r.b));
    lemma_u32_le_round_trip(r.id);
    lemma_u32_le_round_trip(r.operation.code());
    lemma_u64_le_round_trip(r.a);
    lemma_u64_le_round_trip(r.b);
    assert(Operation::from_code(r.operation.code()) == Some(r.operation));
}

/// Round trip: decoding the wire encoding of any result gives the result
/// back, for every valid result value.
pub proof fn lemma_result_round_trip(r: MathResult)
    ensures
        <MathResult as Deserializable>::from_bytes(r.wire_bytes()) == Ok::<
            MathResult,
            ProtocolError,
        >(r),
{
    let s = r.wire_bytes();
    assert(s.take(4) =~= u32_le_bytes(r.id));
    assert(s.skip(4).take(8) =~= u64_le_bytes(r.res));
    lemma_u32_le_round_trip(r.id);
    lemma_u64_le_round_trip(r.res);
}

} // verus!
