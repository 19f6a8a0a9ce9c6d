//! The encoding half of the wire codec: every message type appends itself to
//! a byte buffer in a fixed little-endian layout with no padding.

use vstd::prelude::*;

use crate::bytes::{u32_le_bytes, u64_le_bytes, write_u32_le, write_u64_le};
use crate::{MathRequest, MathResult, Operation};

verus! {

/// A value with a fixed binary wire layout.
pub trait Serializable {
    /// The exact bytes this value has on the wire.
    spec fn wire_bytes(&self) -> Seq<u8>;

    /// Appends the wire encoding of `self` to `buf`.
    fn serialize_to(&self, buf: &mut Vec<u8>)
        ensures
            final(buf)@ == old(buf)@ + self.wire_bytes(),
    ;
}

/// A byte sink that can take any serializable value.
pub trait Serializer {
    /// The bytes this sink holds.
    spec fn out(&self) -> Seq<u8>;

    /// Appends the wire encoding of `obj` to this sink.
    fn serialize<T: Serializable>(&mut self, obj: &T)
        ensures
            final(self).out() == old(self).out() + obj.wire_bytes(),
    ;
}

impl Serializer for Vec<u8> {
    open spec fn out(&self) -> Seq<u8> {
        self@
    }

    fn serialize<T: Serializable>(&mut self, obj: &T) {
        obj.serialize_to(self);
    }
}

impl Serializable for u32 {
    open spec fn wire_bytes(&self) -> Seq<u8> {
        u32_le_bytes(*self)
    }

    fn serialize_to(&self, buf: &mut Vec<u8>) {
        write_u32_le(*self, buf);
    }
}

impl Serializable for u64 {
    open spec fn wire_bytes(&self) -> Seq<u8> {
        u64_le_bytes(*self)
    }

    fn serialize_to(&self, buf: &mut Vec<u8>) {
        write_u64_le(*self, buf);
    }
}

impl Serializable for Operation {
    open spec fn wire_bytes(&self) -> Seq<u8> {
        u32_le_bytes(self.code())
    }

    fn serialize_to(&self, buf: &mut Vec<u8>) {
        write_u32_le(self.to_code(), buf);
    }
}

impl Serializable for MathRequest {
    /// (id: 4 bytes)(operation: 4 bytes)(a: 8 bytes)(b: 8 bytes), 24 bytes fixed.
    open spec fn wire_bytes(&self) -> Seq<u8> {
        u32_le_bytes(self.id) + u32_le_bytes(self.operation.code()) + u64_le_bytes(self.a)
            + u64_le_bytes(self.b)
    }

    fn serialize_to(&self, buf: &mut Vec<u8>) {
        let ghost before = buf@;
        self.id.serialize_to(buf);
        self.operation.serialize_to(buf);
        self.a.serialize_to(buf);
        self.b.serialize_to(buf);
        assert(buf@ =~= before + self.wire_bytes());
    }
}

impl Serializable for MathResult {
    /// (id: 4 bytes)(res: 8 bytes), 12 bytes fixed.
    open spec fn wire_bytes(&self) -> Seq<u8> {
        u32_le_bytes(self.id) + u64_le_bytes(self.res)
    }

    fn serialize_to(&self, buf: &mut Vec<u8>) {
        let ghost before = buf@;
        self.id.serialize_to(buf);
        self.res.serialize_to(buf);
        assert(buf@ =~= before + self.wire_bytes());
    }
}

} // verus!
