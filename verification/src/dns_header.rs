//! The fixed 12-byte message header.
//!
//! Layout: the 16-bit packet identifier, one byte packing
//! `QR<<7 | OPCODE<<3 | AA<<2 | TC<<1 | RD`, one byte packing
//! `RA<<7 | Z<<4 | RCODE`, then the four 16-bit section counts
//! (question, answer, authority, additional), all big-endian.

use crate::errors::DnsError;
use crate::traits::{Decodable, Encodable};
use crate::wire::{push_u16, read_u16, read_u8, spec_u16_be, spec_u16_bytes};
use vstd::prelude::*;

verus! {

/// Whether a message carries a query or a reply.
#[derive(Clone, Copy, Debug, PartialEq, Eq, Structural)]
pub enum QueryResponse {
    ReplyPacket,
    QuestionPacket,
}

/// The decoded message header.
#[derive(Clone, Copy, Debug, PartialEq, Eq, Structural)]
#[verifier::ext_equal]
pub struct DnsHeader {
    pub packet_identifier: u16,
    pub query_response_indicator: QueryResponse,
    pub operation_code: u8,
    pub authoritative_answer: bool,
    pub truncation: bool,
    pub recursion_desired: bool,
    pub recursion_available: bool,
    pub reserved: u8,
    pub response_code: u8,
    pub question_count: u16,
    pub answer_record_count: u16,
    pub authority_record_count: u16,
    pub additional_record_count: u16,
}

impl View for DnsHeader {
    type V = DnsHeader;

    open spec fn view(&self) -> DnsHeader {
        *self
    }
}

/// The numeric value of a single flag bit.
pub open spec fn spec_bit(b: bool) -> u8 {
    if b {
        1
    } else {
        0
    }
}

/// The numeric value of the query/response bit.
pub open spec fn spec_qr_bit(q: QueryResponse) -> u8 {
    match q {
        QueryResponse::ReplyPacket => 1,
        QueryResponse::QuestionPacket => 0,
    }
}

impl DnsHeader {
    /// The multi-bit fields fit their widths: a 4-bit opcode, a 3-bit
    /// reserved field, and a 4-bit response code.
    pub open spec fn wf(&self) -> bool {
        &&& self.operation_code < 16
        &&& self.reserved < 8
        &&& self.response_code < 16
    }

    /// The byte packing QR, OPCODE, AA, TC and RD.
    pub open spec fn spec_flags_hi(&self) -> u8 {
        (spec_qr_bit(self.query_response_indicator) * 128 + (self.operation_code % 16) * 8
            + spec_bit(self.authoritative_answer) * 4 + spec_bit(self.truncation) * 2 + spec_bit(
            self.recursion_desired,
        )) as u8
    }

    /// The byte packing RA, the reserved field and RCODE.
    pub open spec fn spec_flags_lo(&self) -> u8 {
        (spec_bit(self.recursion_available) * 128 + (self.reserved % 8) * 16 + (self.response_code
            % 16)) as u8
    }
}

/// The 12 wire bytes of a header.
pub open spec fn spec_header_bytes(h: DnsHeader) -> Seq<u8> {
    spec_u16_bytes(h.packet_identifier) + seq![h.spec_flags_hi(), h.spec_flags_lo()]
        + spec_u16_bytes(h.question_count) + spec_u16_bytes(h.answer_record_count)
        + spec_u16_bytes(h.authority_record_count) + spec_u16_bytes(h.additional_record_count)
}

/// The header read from 12 bytes starting at `pos`.
pub open spec fn spec_header_of(buf: Seq<u8>, pos: int) -> DnsHeader {
    DnsHeader {
        packet_identifier: spec_u16_be(buf[pos], buf[pos + 1]) as u16,
        query_response_indicator: if buf[pos + 2] / 128 == 1 {
            QueryResponse::ReplyPacket
        } else {
            QueryResponse::QuestionPacket
        },
        operation_code: (buf[pos + 2] / 8) % 16,
        authoritative_answer: (buf[pos + 2] / 4) % 2 == 1,
        truncation: (buf[pos + 2] / 2) % 2 == 1,
        recursion_desired: buf[pos + 2] % 2 == 1,
        recursion_available: buf[pos + 3] / 128 == 1,
        reserved: (buf[pos + 3] / 16) % 8,
        response_code: buf[pos + 3] % 16,
        question_count: spec_u16_be(buf[pos + 4], buf[pos + 5]) as u16,
        answer_record_count: spec_u16_be(buf[pos + 6], buf[pos + 7]) as u16,
        authority_record_count: spec_u16_be(buf[pos + 8], buf[pos + 9]) as u16,
        additional_record_count: spec_u16_be(buf[pos + 10], buf[pos + 11]) as u16,
    }
}

/// The reply header derived from a request header: same identifier, the
/// reply bit set, the opcode and the recursion-desired flag echoed, the
/// reserved field cleared, response code 0 for a standard query and 4
/// (not implemented) otherwise, the question count echoed, the answer
/// count assumed equal to it, and the remaining counts cleared.
pub open spec fn spec_reply_header(req: DnsHeader) -> DnsHeader {
    DnsHeader {
        packet_identifier: req.packet_identifier,
        query_response_indicator: QueryResponse::ReplyPacket,
        operation_code: req.operation_code,
        authoritative_answer: false,
        truncation: false,
        recursion_desired: req.recursion_desired,
        recursion_available: false,
        reserved: 0,
        response_code: if req.operation_code == 0 {
            0
        } else {
            4
        },
        question_count: req.question_count,
        answer_record_count: req.question_count,
        authority_record_count: 0,
        additional_record_count: 0,
    }
}

impl DnsHeader {
    /// Derives the reply header for a request.
    pub fn from_request_header(request_header: DnsHeader) -> (r: DnsHeader)
        ensures
            r == spec_reply_header(request_header),
            request_header.wf() ==> r.wf(),
    {
        DnsHeader {
            packet_identifier: request_header.packet_identifier,
            query_response_indicator: QueryResponse::ReplyPacket,
            operation_code: request_header.operation_code,
            authoritative_answer: false,
            truncation: false,
            recursion_desired: request_header.recursion_desired,
            recursion_available: false,
            reserved: 0,
            response_code: match request_header.operation_code {
                0 => 0,
                _ => 4,
            },
            question_count: request_header.question_count,
            answer_record_count: request_header.question_count,
            authority_record_count: 0,
            additional_record_count: 0,
        }
    }
}

impl Encodable for DnsHeader {
    open spec fn wf(&self) -> bool {
        DnsHeader::wf(self)
    }

    open spec fn wire(&self) -> Seq<u8> {
        spec_header_bytes(*self)
    }

    /// Identifier, two flag bytes, four counts: 12 bytes.
    fn encode(&self) -> (r: Vec<u8>)
        ensures
            r@ == self.wire(),
    {
        let mut r: Vec<u8> = Vec::new();
        push_u16(&mut r, self.packet_identifier);
        let qr: u8 = match self.query_response_indicator {
            QueryResponse::ReplyPacket => 1,
            QueryResponse::QuestionPacket => 0,
        };
        let hi: u8 = qr * 128 + self.operation_code * 8 + (if self.authoritative_answer {
            4u8
        } else {
            0u8
        }) + (if self.truncation {
            2u8
        } else {
            0u8
        }) + (if self.recursion_desired {
            1u8
        } else {
            0u8
        });
        r.push(hi);
        let lo: u8 = (if self.recursion_available {
            128u8
        } else {
            0u8
        }) + self.reserved * 16 + self.response_code;
        r.push(lo);
        push_u16(&mut r, self.question_count);
        push_u16(&mut r, self.answer_record_count);
        push_u16(&mut r, self.authority_record_count);
        push_u16(&mut r, self.additional_record_count);
        proof {
            assert(hi == self.spec_flags_hi());
            assert(lo == self.spec_flags_lo());
            assert(r@ =~= self.wire());
        }
        r
    }
}

impl Decodable for DnsHeader {
    open spec fn spec_parse(buf: Seq<u8>, pos: int) -> Result<(DnsHeader, int), DnsError> {
        if pos < 0 || pos + 12 > buf.len() {
            Err(DnsError::TruncatedBuffer)
        } else {
            Ok((spec_header_of(buf, pos), pos + 12))
        }
    }

    /// Inverse bit extraction from 12 bytes; fails only on a buffer that
    /// is too short.
    fn decode_with_cursor(buffer: &[u8], cursor: &mut usize) -> (r: Result<DnsHeader, DnsError>) {
        let mut pos = *cursor;
        let packet_identifier = match read_u16(buffer, &mut pos) {
            Ok(x) => x,
            Err(e) => {
                return Err(e);
            },
        };
        let hi = match read_u8(buffer, &mut pos) {
            Ok(x) => x,
            Err(e) => {
                return Err(e);
            },
        };
        let lo = match read_u8(buffer, &mut pos) {
            Ok(x) => x,
            Err(e) => {
                return Err(e);
            },
        };
        let question_count = match read_u16(buffer, &mut pos) {
            Ok(x) => x,
            Err(e) => {
                return Err(e);
            },
        };
        let answer_record_count = match read_u16(buffer, &mut pos) {
            Ok(x) => x,
            Err(e) => {
                return Err(e);
            },
        };
        let authority_record_count = match read_u16(buffer, &mut pos) {
            Ok(x) => x,
            Err(e) => {
                return Err(e);
            },
        };
        let additional_record_count = match read_u16(buffer, &mut pos) {
            Ok(x) => x,
            Err(e) => {
                return Err(e);
            },
        };
        let h = DnsHeader {
            packet_identifier,
            query_response_indicator: if hi / 128 == 1 {
                QueryResponse::ReplyPacket
            } else {
                QueryResponse::QuestionPacket
            },
            operation_code: (hi / 8) % 16,
            authoritative_answer: (hi / 4) % 2 == 1,
            truncation: (hi / 2) % 2 == 1,
            recursion_desired: hi % 2 == 1,
            recursion_available: lo / 128 == 1,
            reserved: (lo / 16) % 8,
            response_code: lo % 16,
            question_count,
            answer_record_count,
            authority_record_count,
            additional_record_count,
        };
        proof {
            assert(h =~= spec_header_of(buffer@, *old(cursor) as int));
        }
        *cursor = pos;
        Ok(h)
    }

    fn decode(buffer: &[u8]) -> (r: Result<DnsHeader, DnsError>) {
        let mut cursor: usize = 0;
        Self::decode_with_cursor(buffer, &mut cursor)
    }
}

/// Every valid header survives the trip through its wire bytes: decoding
/// what `encode` emits gives back the same header, field for field.
pub proof fn lemma_header_round_trip(h: DnsHeader)
    requires
        h.wf(),
    ensures
        DnsHeader::spec_parse(spec_header_bytes(h), 0) == Ok::<(DnsHeader, int), DnsError>(
            (h, 12),
        ),
{
    assert(spec_u16_bytes(h.packet_identifier).len() == 2);
    assert(spec_header_bytes(h).len() == 12);
    assert(spec_header_bytes(h).subrange(0, 12) =~= spec_header_bytes(h));
    lemma_parse_header_at(spec_header_bytes(h), 0, h);
}

/// A valid header's 12 wire bytes parse back to that header wherever they
/// sit in a buffer.
#[verifier::rlimit(50)]
#[verifier::spinoff_prover]
pub proof fn lemma_parse_header_at(buf: Seq<u8>, pos: int, h: DnsHeader)
    requires
        h.wf(),
        0 <= pos,
        pos + 12 <= buf.len(),
        buf.subrange(pos, pos + 12) == spec_header_bytes(h),
    ensures
        DnsHeader::spec_parse(buf, pos) == Ok::<(DnsHeader, int), DnsError>((h, pos + 12)),
{
    let bytes = spec_header_bytes(h);
    assert(spec_u16_bytes(h.packet_identifier).len() == 2);
    assert(bytes.len() == 12);
    assert(forall|k: int| 0 <= k < 12 ==> buf[pos + k] == #[trigger] bytes[k]) by {
        assert(forall|k: int| 0 <= k < 12 ==> buf.subrange(pos, pos + 12)[k] == #[trigger] bytes[k]);
    }
    assert(bytes[0] == spec_u16_bytes(h.packet_identifier)[0]);
    assert(bytes[1] == spec_u16_bytes(h.packet_identifier)[1]);
    assert(bytes[2] == h.spec_flags_hi());
    assert(bytes[3] == h.spec_flags_lo());
    assert(bytes[4] == spec_u16_bytes(h.question_count)[0]);
    assert(bytes[5] == spec_u16_bytes(h.question_count)[1]);
    assert(bytes[6] == spec_u16_bytes(h.answer_record_count)[0]);
    assert(bytes[7] == spec_u16_bytes(h.answer_record_count)[1]);
    assert(bytes[8] == spec_u16_bytes(h.authority_record_count)[0]);
    assert(bytes[9] == spec_u16_bytes(h.authority_record_count)[1]);
    assert(bytes[10] == spec_u16_bytes(h.additional_record_count)[0]);
    assert(bytes[11] == spec_u16_bytes(h.additional_record_count)[1]);
    let q = spec_qr_bit(h.query_response_indicator);
    let o = h.operation_code;
    let a = spec_bit(h.authoritative_answer);
    let t = spec_bit(h.truncation);
    let rd = spec_bit(h.recursion_desired);
    let hi = h.spec_flags_hi();
    assert(hi == q * 128 + o * 8 + a * 4 + t * 2 + rd);
    assert(hi / 128 == q && (hi / 8) % 16 == o && (hi / 4) % 2 == a && (hi / 2) % 2 == t && hi % 2
        == rd) by (bit_vector)
        requires
            hi == q * 128 + o * 8 + a * 4 + t * 2 + rd,
            q < 2,
            o < 16,
            a < 2,
            t < 2,
            rd < 2,
    ;
    let ra = spec_bit(h.recursion_available);
    let z = h.reserved;
    let rc = h.response_code;
    let lo = h.spec_flags_lo();
    assert(lo == ra * 128 + z * 16 + rc);
    assert(lo / 128 == ra && (lo / 16) % 8 == z && lo % 16 == rc) by (bit_vector)
        requires
            lo == ra * 128 + z * 16 + rc,
            ra < 2,
            z < 8,
            rc < 16,
    ;
    crate::wire::lemma_u16_bytes_round_trip(h.packet_identifier);
    crate::wire::lemma_u16_bytes_round_trip(h.question_count);
    crate::wire::lemma_u16_bytes_round_trip(h.answer_record_count);
    crate::wire::lemma_u16_bytes_round_trip(h.authority_record_count);
    crate::wire::lemma_u16_bytes_round_trip(h.additional_record_count);
    assert(spec_header_of(buf, pos) =~= h);
}

} // verus!
