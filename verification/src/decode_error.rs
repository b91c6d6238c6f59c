//! Errors of the decoding pipeline.

use vstd::prelude::*;

verus! {

#[derive(Debug, Clone, PartialEq, Eq)]
#[non_exhaustive]
pub enum DecodeError {
    /// No registered factory supports the stream's codec config.
    UnsupportedCodec,
    /// The codec rejected a packet.
    CorruptPacket(String),
    /// Descriptors are inconsistent (e.g. substream counts disagree).
    InvalidDescriptors(String),
    /// The stream needs a profile outside the requested/known set (see
    /// the profile filter).
    UnsupportedProfile(String),
    /// Pipeline stage not yet implemented.
    Unimplemented(&'static str),
}

} // verus!
