//! The server-side request dispatcher's core obligation: each request is
//! answered by a result that carries the originating request's id, so that
//! the client can correlate it; requests on one connection are answered
//! strictly in arrival order by the surrounding loop.
//!
//! The arithmetic evaluation itself is an external collaborator: a pure
//! function of the two operand bit patterns and the operation, computed in
//! the host's floating-point unit outside this crate; its result arrives
//! here as an IEEE-754 bit pattern and travels to the wire unchanged.

use vstd::prelude::*;

use crate::{MathRequest, MathResult};

verus! {

/// Builds the result answering `req`: the request's own id, and the
/// evaluated IEEE-754 bit pattern, bit for bit.
pub fn respond(req: &MathRequest, res_bits: u64) -> (r: MathResult)
    ensures
        r == (MathResult { id: req.id, res: res_bits }),
{
    MathResult { id: req.id, res: res_bits }
}

} // verus!
