//! Bounds-checked payload access.
//!
//! A malformed packet (an offset or length reaching beyond the
//! buffer) is a recoverable, per-packet error: it is reported to the
//! caller, which counts it and skips the packet; the connection
//! continues and the pipeline never stops for it.

use vstd::prelude::*;

use crate::errors::RuntimeError;

verus! {

/// Read `len` payload bytes at `off`, or report the packet malformed.
pub fn read_payload<'a>(pkt: &'a [u8], off: usize, len: usize) -> (r: Result<
    &'a [u8],
    RuntimeError,
>)
    ensures
        r is Ok <==> off + len <= pkt@.len(),
        r matches Ok(s) ==> s@ == pkt@.subrange(off as int, off as int + len as int),
        r matches Err(e) ==> e == RuntimeError::MalformedPacket,
{
    if off <= pkt.len() && len <= pkt.len() - off {
        Ok(vstd::slice::slice_subrange(pkt, off, off + len))
    } else {
        Err(RuntimeError::MalformedPacket)
    }
}

} // verus!
