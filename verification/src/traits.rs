//! The two codec traits shared by the message components.

use crate::errors::DnsError;
use vstd::prelude::*;

verus! {

/// A value with a wire representation.
pub trait Encodable {
    /// Well-formedness of the value: what constructors establish and
    /// decoding guarantees, and what `encode` needs in order to emit a
    /// faithful representation.
    spec fn wf(&self) -> bool;

    /// The wire bytes of this value.
    spec fn wire(&self) -> Seq<u8>;

    /// Encodes the value to its exact wire bytes.
    fn encode(&self) -> (r: Vec<u8>)
        requires
            self.wf(),
        ensures
            r@ == self.wire(),
    ;
}

/// A value that can be read back from wire bytes.
///
/// `spec_parse` is the mathematical parser: from a buffer and a position it
/// yields either the parsed abstract value together with the position just
/// past it, or the exact error category for that input.  Both executable
/// decoders agree with it on every input.
pub trait Decodable: Encodable + View + Sized {
    /// What a parse attempt at `pos` yields: the parsed abstract value and
    /// the cursor position after it, or the error category.
    spec fn spec_parse(buf: Seq<u8>, pos: int) -> Result<(Self::V, int), DnsError>;

    /// Decodes one value at `cursor`, advancing the cursor past it.
    /// On failure the cursor is left where it was.
    fn decode_with_cursor(buffer: &[u8], cursor: &mut usize) -> (r: Result<Self, DnsError>)
        ensures
            match r {
                Ok(v) => Self::spec_parse(buffer@, *old(cursor) as int) == Ok::<
                    (Self::V, int),
                    DnsError,
                >((v@, *final(cursor) as int)) && v.wf(),
                Err(e) => Self::spec_parse(buffer@, *old(cursor) as int) == Err::<
                    (Self::V, int),
                    DnsError,
                >(e) && *final(cursor) == *old(cursor),
            },
    ;

    /// Decodes one value from the start of the buffer.
    fn decode(buffer: &[u8]) -> (r: Result<Self, DnsError>)
        ensures
            match r {
                Ok(v) => Self::spec_parse(buffer@, 0) matches Ok(p) && p.0 == v@ && v.wf(),
                Err(e) => Self::spec_parse(buffer@, 0) == Err::<(Self::V, int), DnsError>(e),
            },
    ;
}

} // verus!
