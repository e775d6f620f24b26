//! What can go wrong.

use vstd::prelude::*;

verus! {

/// What can go wrong while a message is read, parsed or relayed.
#[derive(Debug, Clone, PartialEq)]
pub enum Error {
    /// A read failed, or the stream ended where more had to come.
    StreamNotReadable,
    /// A write or a flush failed.
    StreamNotWritable,
    /// A byte ceiling was crossed, or would have been: the ceiling.
    SizeLimitExceeded(usize),
    /// The framing is malformed.
    InvalidData,
    /// The value of the header of this name does not have the form that it
    /// must have.
    InvalidHeader(String),
    /// The header of this name is required and not there.
    MissingHeader(String),
}

} // verus!
