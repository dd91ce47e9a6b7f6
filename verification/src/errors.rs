//! Error categories for decoding, merging, and the upstream exchange.

use vstd::prelude::*;

verus! {

/// Failure categories reported to the caller.  All of them are local,
/// recoverable conditions: the caller decides whether to drop the datagram,
/// answer with an error code, or propagate the failure.
#[derive(Clone, Copy, Debug, PartialEq, Eq, Structural)]
pub enum DnsError {
    /// A domain name with a bad length octet, a bad or non-backward
    /// compression pointer, non-text content bytes, or no terminator
    /// before the buffer ends.
    MalformedName,
    /// A 16-bit record-type code outside the closed enumeration.
    UnknownRecordType,
    /// A 16-bit class code outside the closed enumeration.
    UnknownClass,
    /// A declared length exceeds the bytes that are actually available.
    TruncatedBuffer,
    /// A header field that cannot be represented.
    InvalidHeaderField,
    /// A merge of zero messages was requested.
    EmptyMergeSet,
    /// The upstream exchange failed; produced by the transport, never by
    /// the codec itself.
    UpstreamUnavailable,
}

} // verus!
