//! The outcomes that end an encode or decode attempt.

use vstd::prelude::*;

verus! {

/// Why a packet could not be read or written.
#[derive(Debug, Clone, Copy, PartialEq, Eq)]
pub enum Error {
    /// The buffer ends before the packet does. Not a fault of the stream:
    /// the same bytes, followed by more, may still form a packet.
    Incomplete,
    /// The bytes do not form a packet. Framing cannot be trusted past this
    /// point.
    Malformed,
    /// A login reply selected a cipher that this codec does not know. The
    /// value is the selector byte.
    UnknownEncryption(usize),
    /// The packet or the outgoing buffer would exceed what its length field
    /// can hold.
    Oversize,
}

impl Error {
    /// A short description for logs and messages.
    pub fn message(&self) -> (s: &'static str)
        ensures
            s@ == (match *self {
                Error::Incomplete => "incomplete packet"@,
                Error::Malformed => "malformed packet"@,
                Error::UnknownEncryption(_) => "unknown encryption selector"@,
                Error::Oversize => "packet too large"@,
            }),
    {
        match self {
            Error::Incomplete => "incomplete packet",
            Error::Malformed => "malformed packet",
            Error::UnknownEncryption(_) => "unknown encryption selector",
            Error::Oversize => "packet too large",
        }
    }
}

} // verus!
