//! Error kinds of the marshalling layer and the decoding of the host's raw
//! result word.

use libc::{size_t, ssize_t};
use vstd::prelude::*;

verus! {

/// What can go wrong while a call is staged or after the host has answered.
#[derive(Clone, Copy, Debug, PartialEq, Eq, Structural)]
pub enum Error {
    /// The shared buffer cannot hold the requested range.
    AllocationExhausted,
    /// The host reported a length larger than the range it was granted.
    InvalidHostResponse,
    /// The operation failed on the host; the raw code is carried unchanged.
    HostReported(ssize_t),
}

/// The meaning of a raw result word: non-negative words are the success
/// value, negative words are an error code of the host.
pub open spec fn decoded(raw: ssize_t) -> Result<size_t, Error> {
    if raw >= 0 {
        Ok(raw as size_t)
    } else {
        Err(Error::HostReported(raw))
    }
}

/// Decodes the signed word in which the host returns the outcome of a call.
pub fn decode_result(raw: ssize_t) -> (r: Result<size_t, Error>)
    ensures
        r == decoded(raw),
        raw >= 0 ==> r == Ok::<size_t, Error>(raw as size_t) && r->Ok_0 as int == raw as int,
        raw < 0 ==> r == Err::<size_t, Error>(Error::HostReported(raw)),
{
    if raw >= 0 {
        Ok(raw as size_t)
    } else {
        Err(Error::HostReported(raw))
    }
}

} // verus!
