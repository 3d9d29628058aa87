//! The error taxonomy surfaced by the codec.

use vstd::prelude::*;

verus! {

/// Every fallible operation of this crate returns exactly one of these kinds.
#[derive(Debug, Clone, PartialEq, Eq)]
pub enum Error {
    /// Malformed base64 text, a discriminator-key cardinality violation, or a
    /// structurally invalid envelope.
    FormatError,
    /// Unrecognized or missing leading tag byte during wire unframing.
    InvalidWireProtocol,
    /// The peer explicitly reported an operation failure; the message is the
    /// peer-supplied string, passed through verbatim.
    DeviceError(String),
    /// The response variant did not match what the caller expected, or a
    /// result carried neither contents nor an error.
    UnexpectedResponse,
}

} // verus!
