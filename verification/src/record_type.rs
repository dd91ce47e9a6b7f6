//! The closed enumeration of resource-record types.

use crate::errors::DnsError;
use crate::traits::{Decodable, Encodable};
use crate::wire::{push_u16, read_u16, spec_u16_be, spec_u16_bytes};
use vstd::prelude::*;

verus! {

/// A resource-record type, backed by a fixed 16-bit wire code.
#[derive(Clone, Copy, Debug, PartialEq, Eq, Structural)]
pub enum RecordType {
    /// A host address.
    A,
    /// An authoritative name server.
    NS,
    /// The canonical name for an alias.
    CNAME,
    /// Marks the start of a zone of authority.
    SOA,
    /// A mailbox domain name.
    MB,
    /// A mail group member.
    MG,
    /// A mail rename domain name.
    MR,
    /// A null resource record.
    NULL,
    /// A well known service description.
    WKS,
    /// A domain name pointer.
    PTR,
    /// Host information.
    HINFO,
    /// Mailbox or mail list information.
    MINFO,
    /// Mail exchange.
    MX,
    /// Text strings.
    TXT,
}

impl View for RecordType {
    type V = RecordType;

    open spec fn view(&self) -> RecordType {
        *self
    }
}

/// The 16-bit wire code of each record type.
pub open spec fn spec_record_type_code(t: RecordType) -> u16 {
    match t {
        RecordType::A => 1,
        RecordType::NS => 2,
        RecordType::CNAME => 5,
        RecordType::SOA => 6,
        RecordType::MB => 7,
        RecordType::MG => 8,
        RecordType::MR => 9,
        RecordType::NULL => 10,
        RecordType::WKS => 11,
        RecordType::PTR => 12,
        RecordType::HINFO => 13,
        RecordType::MINFO => 14,
        RecordType::MX => 15,
        RecordType::TXT => 16,
    }
}

/// The record type a 16-bit wire code stands for, if any.
pub open spec fn spec_record_type_of(code: int) -> Option<RecordType> {
    if code == 1 {
        Some(RecordType::A)
    } else if code == 2 {
        Some(RecordType::NS)
    } else if code == 5 {
        Some(RecordType::CNAME)
    } else if code == 6 {
        Some(RecordType::SOA)
    } else if code == 7 {
        Some(RecordType::MB)
    } else if code == 8 {
        Some(RecordType::MG)
    } else if code == 9 {
        Some(RecordType::MR)
    } else if code == 10 {
        Some(RecordType::NULL)
    } else if code == 11 {
        Some(RecordType::WKS)
    } else if code == 12 {
        Some(RecordType::PTR)
    } else if code == 13 {
        Some(RecordType::HINFO)
    } else if code == 14 {
        Some(RecordType::MINFO)
    } else if code == 15 {
        Some(RecordType::MX)
    } else if code == 16 {
        Some(RecordType::TXT)
    } else {
        None
    }
}

/// Every record type decodes back from its own wire code.
pub proof fn lemma_record_type_round_trip(t: RecordType)
    ensures
        spec_record_type_of(spec_record_type_code(t) as int) == Some(t),
{
}

impl RecordType {
    /// The 16-bit wire code of this record type.
    pub fn code(&self) -> (c: u16)
        ensures
            c == spec_record_type_code(*self),
    {
        match self {
            RecordType::A => 1,
            RecordType::NS => 2,
            RecordType::CNAME => 5,
            RecordType::SOA => 6,
            RecordType::MB => 7,
            RecordType::MG => 8,
            RecordType::MR => 9,
            RecordType::NULL => 10,
            RecordType::WKS => 11,
            RecordType::PTR => 12,
            RecordType::HINFO => 13,
            RecordType::MINFO => 14,
            RecordType::MX => 15,
            RecordType::TXT => 16,
        }
    }
}

impl Encodable for RecordType {
    open spec fn wf(&self) -> bool {
        true
    }

    open spec fn wire(&self) -> Seq<u8> {
        spec_u16_bytes(spec_record_type_code(*self))
    }

    /// The wire code as two big-endian bytes.
    fn encode(&self) -> (r: Vec<u8>)
        ensures
            r@ == self.wire(),
    {
        let mut r: Vec<u8> = Vec::new();
        push_u16(&mut r, self.code());
        proof {
            assert(r@ =~= self.wire());
        }
        r
    }
}

impl Decodable for RecordType {
    open spec fn spec_parse(buf: Seq<u8>, pos: int) -> Result<(RecordType, int), DnsError> {
        if pos < 0 || pos + 2 > buf.len() {
            Err(DnsError::TruncatedBuffer)
        } else {
            match spec_record_type_of(spec_u16_be(buf[pos], buf[pos + 1])) {
                Some(t) => Ok((t, pos + 2)),
                None => Err(DnsError::UnknownRecordType),
            }
        }
    }

    /// Two big-endian bytes mapped through the closed enumeration; a code
    /// outside it is rejected as `UnknownRecordType`.
    fn decode_with_cursor(buffer: &[u8], cursor: &mut usize) -> (r: Result<RecordType, DnsError>) {
        let mut pos = *cursor;
        let code = match read_u16(buffer, &mut pos) {
            Ok(x) => x,
            Err(e) => {
                return Err(e);
            },
        };
        let t = match code {
            1u16 => RecordType::A,
            2u16 => RecordType::NS,
            5u16 => RecordType::CNAME,
            6u16 => RecordType::SOA,
            7u16 => RecordType::MB,
            8u16 => RecordType::MG,
            9u16 => RecordType::MR,
            10u16 => RecordType::NULL,
            11u16 => RecordType::WKS,
            12u16 => RecordType::PTR,
            13u16 => RecordType::HINFO,
            14u16 => RecordType::MINFO,
            15u16 => RecordType::MX,
            16u16 => RecordType::TXT,
            _ => {
                return Err(DnsError::UnknownRecordType);
            },
        };
        *cursor = pos;
        Ok(t)
    }

    fn decode(buffer: &[u8]) -> (r: Result<RecordType, DnsError>) {
        let mut cursor: usize = 0;
        Self::decode_with_cursor(buffer, &mut cursor)
    }
}

} // verus!
