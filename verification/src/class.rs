//! The closed enumeration of record classes.

use crate::errors::DnsError;
use crate::traits::{Decodable, Encodable};
use crate::wire::{push_u16, read_u16, spec_u16_be, spec_u16_bytes};
use vstd::prelude::*;

verus! {

/// A record class, backed by a fixed 16-bit wire code.
#[derive(Clone, Copy, Debug, PartialEq, Eq, Structural)]
pub enum Class {
    /// The Internet.
    IN,
    /// The CSNET class.
    CS,
    /// The CHAOS class.
    CH,
    /// Hesiod.
    HS,
}

impl View for Class {
    type V = Class;

    open spec fn view(&self) -> Class {
        *self
    }
}

/// The 16-bit wire code of each class.
pub open spec fn spec_class_code(c: Class) -> u16 {
    match c {
        Class::IN => 1,
        Class::CS => 2,
        Class::CH => 3,
        Class::HS => 4,
    }
}

/// The class a 16-bit wire code stands for, if any.
pub open spec fn spec_class_of(code: int) -> Option<Class> {
    if code == 1 {
        Some(Class::IN)
    } else if code == 2 {
        Some(Class::CS)
    } else if code == 3 {
        Some(Class::CH)
    } else if code == 4 {
        Some(Class::HS)
    } else {
        None
    }
}

/// Every class decodes back from its own wire code.
pub proof fn lemma_class_round_trip(c: Class)
    ensures
        spec_class_of(spec_class_code(c) as int) == Some(c),
{
}

impl Class {
    /// The 16-bit wire code of this class.
    pub fn code(&self) -> (c: u16)
        ensures
            c == spec_class_code(*self),
    {
        match self {
            Class::IN => 1,
            Class::CS => 2,
            Class::CH => 3,
            Class::HS => 4,
        }
    }
}

impl Encodable for Class {
    open spec fn wf(&self) -> bool {
        true
    }

    open spec fn wire(&self) -> Seq<u8> {
        spec_u16_bytes(spec_class_code(*self))
    }

    /// The wire code as two big-endian bytes.
    fn encode(&self) -> (r: Vec<u8>)
        ensures
            r@ == self.wire(),
    {
        let mut r: Vec<u8> = Vec::new();
        push_u16(&mut r, self.code());
        proof {
            assert(r@ =~= self.wire());
        }
        r
    }
}

impl Decodable for Class {
    open spec fn spec_parse(buf: Seq<u8>, pos: int) -> Result<(Class, int), DnsError> {
        if pos < 0 || pos + 2 > buf.len() {
            Err(DnsError::TruncatedBuffer)
        } else {
            match spec_class_of(spec_u16_be(buf[pos], buf[pos + 1])) {
                Some(c) => Ok((c, pos + 2)),
                None => Err(DnsError::UnknownClass),
            }
        }
    }

    /// Two big-endian bytes mapped through the closed enumeration; a code
    /// outside it is rejected as `UnknownClass`.
    fn decode_with_cursor(buffer: &[u8], cursor: &mut usize) -> (r: Result<Class, DnsError>) {
        let mut pos = *cursor;
        let code = match read_u16(buffer, &mut pos) {
            Ok(x) => x,
            Err(e) => {
                return Err(e);
            },
        };
        let c = match code {
            1u16 => Class::IN,
            2u16 => Class::CS,
            3u16 => Class::CH,
            4u16 => Class::HS,
            _ => {
                return Err(DnsError::UnknownClass);
            },
        };
        *cursor = pos;
        Ok(c)
    }

    fn decode(buffer: &[u8]) -> (r: Result<Class, DnsError>) {
        let mut cursor: usize = 0;
        Self::decode_with_cursor(buffer, &mut cursor)
    }
}

} // verus!
