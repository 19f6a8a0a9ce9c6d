//! A minimal RPC transport core: a fixed-layout binary codec for arithmetic
//! requests and results, a length-prefixed packet framer tolerant of partial
//! reads and writes, typed stream/sink layers over the framer, and a
//! client-side multiplexer that correlates results with submitted requests
//! by id over one shared connection.
//!
//! Floating-point operands travel on the wire as their IEEE-754 double bit
//! patterns; throughout this crate they are held as `u64` bit patterns, so
//! that every value (including NaN payloads) round-trips bit for bit.

use vstd::prelude::*;

pub mod bytes;
pub mod calculator;
pub mod deserialize;
pub mod dispatcher;
pub mod packet_sink;
pub mod packet_streamer;
pub mod pending;
pub mod sereal_sink;
pub mod sereal_streamer;
pub mod serialize;

verus! {

/// The protocol's error taxonomy.
///
/// `TruncatedInput` and `InvalidOperationCode` are decode errors and fatal to
/// the connection. `UnmatchedResult` marks a result whose id has no pending
/// entry, also fatal. `ConnectionClosed` ends a connection cleanly, while
/// `TransportError` stands for an underlying I/O failure, treated the same
/// way at this layer.
#[derive(Clone, Copy, Debug, PartialEq, Eq, Structural)]
pub enum ProtocolError {
    TruncatedInput,
    InvalidOperationCode,
    UnmatchedResult,
    ConnectionClosed,
    TransportError,
}

/// The arithmetic operation a request asks for.
///
/// On the wire an operation is a little-endian `u32`:
/// Addition is 0, Subtraction 1, Multiplication 2, Division 3.
/// Any other code is a protocol error.
#[derive(Clone, Copy, Debug, PartialEq, Eq, Structural)]
pub enum Operation {
    Addition,
    Subtraction,
    Multiplication,
    Division,
}

impl Operation {
    /// The wire code of this operation.
    pub open spec fn code(self) -> u32 {
        match self {
            Operation::Addition => 0,
            Operation::Subtraction => 1,
            Operation::Multiplication => 2,
            Operation::Division => 3,
        }
    }

    /// The operation a wire code stands for, if any.
    pub open spec fn from_code(c: u32) -> Option<Operation> {
        if c == 0 {
            Some(Operation::Addition)
        } else if c == 1 {
            Some(Operation::Subtraction)
        } else if c == 2 {
            Some(Operation::Multiplication)
        } else if c == 3 {
            Some(Operation::Division)
        } else {
            None
        }
    }

    /// Returns the wire code of this operation.
    pub fn to_code(self) -> (c: u32)
        ensures
            c == self.code(),
    {
        match self {
            Operation::Addition => 0,
            Operation::Subtraction => 1,
            Operation::Multiplication => 2,
            Operation::Division => 3,
        }
    }

    /// Returns the conventional symbol of this operation.
    pub fn symbol(self) -> (c: char)
        ensures
            c == match self {
                Operation::Addition => '+',
                Operation::Subtraction => '-',
                Operation::Multiplication => '*',
                Operation::Division => '/',
            },
    {
        match self {
            Operation::Addition => '+',
            Operation::Subtraction => '-',
            Operation::Multiplication => '*',
            Operation::Division => '/',
        }
    }
}

/// An arithmetic request: an originator-chosen identifier, an operation, and
/// two IEEE-754 double operands carried as their bit patterns.
#[derive(Clone, Copy, Debug, PartialEq, Eq, Structural)]
pub struct MathRequest {
    pub id: u32,
    pub operation: Operation,
    pub a: u64,
    pub b: u64,
}

/// An arithmetic result: the identifier of the originating request and the
/// IEEE-754 double result carried as its bit pattern.
#[derive(Clone, Copy, Debug, PartialEq, Eq, Structural)]
pub struct MathResult {
    pub id: u32,
    pub res: u64,
}

/// Relies on rand::random: a value drawn from the thread-local generator;
/// nothing is promised of it.
pub assume_specification<T>[ rand::random::<T> ]() -> (r: T)
    where
        rand::distributions::Standard: rand::distributions::Distribution<T>,
;

impl MathRequest {
    /// Builds an addition request for the operand bit patterns `a` and `b`,
    /// under a randomly drawn identifier.
    pub fn add(a: u64, b: u64) -> (r: MathRequest)
        ensures
            r.operation == Operation::Addition,
            r.a == a,
            r.b == b,
    {
        MathRequest { id: rand::random(), operation: Operation::Addition, a, b }
    }

    /// Builds a subtraction request for the operand bit patterns `a` and `b`,
    /// under a randomly drawn identifier.
    pub fn subtract(a: u64, b: u64) -> (r: MathRequest)
        ensures
            r.operation == Operation::Subtraction,
            r.a == a,
            r.b == b,
    {
        MathRequest { id: rand::random(), operation: Operation::Subtraction, a, b }
    }

    /// Builds a multiplication request for the operand bit patterns `a` and
    /// `b`, under a randomly drawn identifier.
    pub fn multiply(a: u64, b: u64) -> (r: MathRequest)
        ensures
            r.operation == Operation::Multiplication,
            r.a == a,
            r.b == b,
    {
        MathRequest { id: rand::random(), operation: Operation::Multiplication, a, b }
    }

    /// Builds a division request for the operand bit patterns `a` and `b`,
    /// under a randomly drawn identifier.
    pub fn divide(a: u64, b: u64) -> (r: MathRequest)
        ensures
            r.operation == Operation::Division,
            r.a == a,
            r.b == b,
    {
        MathRequest { id: rand::random(), operation: Operation::Division, a, b }
    }
}

} // verus!
