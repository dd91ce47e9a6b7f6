//! One answer-section entry: a resource record with name, type, class,
//! time to live, and length-prefixed record data.

use crate::class::{spec_class_code, Class};
use crate::dns_question::DnsQuestion;
use crate::errors::DnsError;
use crate::label::{decode_name, encode_name, labels_view, spec_decode_name, spec_name_bytes, Label};
use crate::record_type::{spec_record_type_code, RecordType};
use crate::traits::{Decodable, Encodable};
use crate::wire::{push_u16, push_u32, read_bytes, read_u16, read_u32, spec_u16_be, spec_u16_bytes, spec_u32_be, spec_u32_bytes};
use vstd::prelude::*;

verus! {

/// One entry of the answer section.
pub struct DnsAnswer {
    pub name: Vec<Label>,
    pub record_type: RecordType,
    pub class: Class,
    pub time_to_live: u32,
    pub length: u16,
    pub data: Vec<u8>,
}

/// The abstract value of an answer record.
#[verifier::ext_equal]
pub struct AnswerV {
    pub name: Seq<Seq<u8>>,
    pub record_type: RecordType,
    pub class: Class,
    pub time_to_live: u32,
    pub length: u16,
    pub data: Seq<u8>,
}

impl View for DnsAnswer {
    type V = AnswerV;

    open spec fn view(&self) -> AnswerV {
        AnswerV {
            name: labels_view(self.name@),
            record_type: self.record_type,
            class: self.class,
            time_to_live: self.time_to_live,
            length: self.length,
            data: self.data@,
        }
    }
}

/// The wire bytes of an answer record: the name, type and class codes, the
/// 32-bit time to live, the 16-bit record-data length, then the data.
pub open spec fn spec_answer_bytes(a: AnswerV) -> Seq<u8> {
    spec_name_bytes(a.name) + spec_u16_bytes(spec_record_type_code(a.record_type))
        + spec_u16_bytes(spec_class_code(a.class)) + spec_u32_bytes(a.time_to_live)
        + spec_u16_bytes(a.length) + a.data
}

/// The synthetic answer for a question: the question's name, an A record
/// of class IN, a time to live of 60 seconds, and the fixed 4-byte
/// address payload 8.8.8.8.
pub open spec fn spec_answer_from_question(q: crate::dns_question::QuestionV) -> AnswerV {
    AnswerV {
        name: q.name,
        record_type: RecordType::A,
        class: Class::IN,
        time_to_live: 60,
        length: 4,
        data: seq![8u8, 8u8, 8u8, 8u8],
    }
}

/// An answer's abstract value is valid when every label of its name is and
/// the length field matches the record data.
pub open spec fn answer_v_wf(a: AnswerV) -> bool {
    &&& forall|i: int| 0 <= i < a.name.len() ==> crate::label::label_wf(#[trigger] a.name[i])
    &&& a.length == a.data.len()
}

/// Whatever an answer parse yields is valid, and the end position lies
/// past the start and within the buffer.
pub proof fn lemma_parse_answer_wf(buf: Seq<u8>, pos: int)
    ensures
        DnsAnswer::spec_parse(buf, pos) matches Ok(p) ==> {
            &&& answer_v_wf(p.0)
            &&& pos < p.1 <= buf.len()
        },
{
    crate::label::lemma_parse_name_labels_wf(buf, pos, pos);
}

/// A valid answer's wire bytes parse back to that answer wherever they sit
/// in a buffer.
pub proof fn lemma_parse_answer_of_encoding(buf: Seq<u8>, pos: int, a: AnswerV)
    requires
        answer_v_wf(a),
        0 <= pos,
        pos + spec_answer_bytes(a).len() <= buf.len(),
        buf.subrange(pos, pos + spec_answer_bytes(a).len()) == spec_answer_bytes(a),
    ensures
        DnsAnswer::spec_parse(buf, pos) == Ok::<(AnswerV, int), DnsError>(
            (a, pos + spec_answer_bytes(a).len()),
        ),
{
    let bytes = spec_answer_bytes(a);
    let total = bytes.len();
    let nb = spec_name_bytes(a.name);
    let tb = spec_u16_bytes(spec_record_type_code(a.record_type));
    let cb = spec_u16_bytes(spec_class_code(a.class));
    let lb = spec_u32_bytes(a.time_to_live);
    let db = spec_u16_bytes(a.length);
    assert(tb.len() == 2 && cb.len() == 2 && lb.len() == 4 && db.len() == 2);
    assert(total == nb.len() + 10 + a.data.len());
    assert(forall|k: int| 0 <= k < total ==> buf[pos + k] == #[trigger] bytes[k]) by {
        assert(forall|k: int|
            0 <= k < total ==> buf.subrange(pos, pos + total)[k] == #[trigger] bytes[k]);
    }
    assert(forall|k: int| 0 <= k < nb.len() ==> bytes[k] == #[trigger] nb[k]);
    assert(buf.subrange(pos, pos + nb.len() as int) =~= nb);
    crate::label::lemma_parse_name_of_encoding(buf, pos, pos, a.name);
    let p = pos + nb.len() as int;
    let n = nb.len() as int;
    assert(bytes[n] == tb[0] && bytes[n + 1] == tb[1]);
    assert(bytes[n + 2] == cb[0] && bytes[n + 3] == cb[1]);
    assert(bytes[n + 4] == lb[0] && bytes[n + 5] == lb[1] && bytes[n + 6] == lb[2] && bytes[n + 7]
        == lb[3]);
    assert(bytes[n + 8] == db[0] && bytes[n + 9] == db[1]);
    assert(forall|k: int| 0 <= k < 10 ==> buf[pos + (n + k)] == #[trigger] bytes[n + k]);
    assert(buf[p] == tb[0] && buf[p + 1] == tb[1]);
    assert(buf[p + 2] == cb[0] && buf[p + 3] == cb[1]);
    assert(buf[p + 4] == lb[0] && buf[p + 5] == lb[1] && buf[p + 6] == lb[2] && buf[p + 7]
        == lb[3]);
    assert(buf[p + 8] == db[0] && buf[p + 9] == db[1]);
    crate::wire::lemma_u16_bytes_round_trip(spec_record_type_code(a.record_type));
    crate::wire::lemma_u16_bytes_round_trip(spec_class_code(a.class));
    crate::wire::lemma_u32_bytes_round_trip(a.time_to_live);
    crate::wire::lemma_u16_bytes_round_trip(a.length);
    crate::record_type::lemma_record_type_round_trip(a.record_type);
    crate::class::lemma_class_round_trip(a.class);
    assert(forall|k: int|
        0 <= k < a.data.len() ==> bytes[nb.len() + 10 + k] == #[trigger] a.data[k]);
    assert(buf.subrange(p + 10, p + 10 + a.data.len() as int) =~= a.data);
    assert(DnsAnswer::spec_parse(buf, pos) == Ok::<(AnswerV, int), DnsError>((
        AnswerV {
            name: a.name,
            record_type: a.record_type,
            class: a.class,
            time_to_live: a.time_to_live,
            length: a.length,
            data: buf.subrange(p + 10, p + 10 + a.length as int),
        },
        pos + total,
    )));
    assert(AnswerV {
        name: a.name,
        record_type: a.record_type,
        class: a.class,
        time_to_live: a.time_to_live,
        length: a.length,
        data: buf.subrange(p + 10, p + 10 + a.length as int),
    } =~= a);
}

impl DnsAnswer {
    /// Builds the synthetic answer for a request question.
    pub fn from_request_question(request_question: &DnsQuestion) -> (r: DnsAnswer)
        ensures
            r@ == spec_answer_from_question(request_question@),
            request_question.wf() ==> r.wf(),
    {
        let copy = request_question.clone();
        let r = DnsAnswer {
            name: copy.labels,
            record_type: RecordType::A,
            class: Class::IN,
            time_to_live: 60,
            length: 4,
            data: vec![8u8, 8u8, 8u8, 8u8],
        };
        proof {
            assert(r@ =~= spec_answer_from_question(request_question@));
        }
        r
    }
}

impl Encodable for DnsAnswer {
    /// Every label of the name is well formed and the length field matches
    /// the record data.
    open spec fn wf(&self) -> bool {
        &&& forall|i: int| 0 <= i < self.name@.len() ==> (#[trigger] self.name@[i]).inv()
        &&& self.length == self.data@.len()
    }

    open spec fn wire(&self) -> Seq<u8> {
        spec_answer_bytes(self@)
    }

    /// Name, type, class, time to live, data length, data — in that order.
    fn encode(&self) -> (r: Vec<u8>)
        ensures
            r@ == self.wire(),
    {
        let mut r: Vec<u8> = Vec::new();
        encode_name(&self.name, &mut r);
        push_u16(&mut r, self.record_type.code());
        push_u16(&mut r, self.class.code());
        push_u32(&mut r, self.time_to_live);
        push_u16(&mut r, self.length);
        let mut data = vstd::slice::slice_to_vec(self.data.as_slice());
        r.append(&mut data);
        proof {
            assert(r@ =~= self.wire());
        }
        r
    }
}

impl Decodable for DnsAnswer {
    open spec fn spec_parse(buf: Seq<u8>, pos: int) -> Result<(AnswerV, int), DnsError> {
        match spec_decode_name(buf, pos) {
            Err(e) => Err(e),
            Ok((name, p)) => match RecordType::spec_parse(buf, p) {
                Err(e) => Err(e),
                Ok((record_type, p2)) => match Class::spec_parse(buf, p2) {
                    Err(e) => Err(e),
                    Ok((class, p3)) => if p3 + 4 > buf.len() {
                        Err(DnsError::TruncatedBuffer)
                    } else {
                        let ttl = spec_u32_be(buf[p3], buf[p3 + 1], buf[p3 + 2], buf[p3 + 3]);
                        if p3 + 6 > buf.len() {
                            Err(DnsError::TruncatedBuffer)
                        } else {
                            let rdlen = spec_u16_be(buf[p3 + 4], buf[p3 + 5]);
                            if p3 + 6 + rdlen > buf.len() {
                                Err(DnsError::TruncatedBuffer)
                            } else {
                                Ok(
                                    (
                                        AnswerV {
                                            name,
                                            record_type,
                                            class,
                                            time_to_live: ttl as u32,
                                            length: rdlen as u16,
                                            data: buf.subrange(p3 + 6, p3 + 6 + rdlen),
                                        },
                                        p3 + 6 + rdlen,
                                    ),
                                )
                            }
                        }
                    },
                },
            },
        }
    }

    /// The name, type and class, then the time to live, the declared data
    /// length, and exactly that many data bytes; the cursor advances past
    /// the whole record.
    fn decode_with_cursor(buffer: &[u8], cursor: &mut usize) -> (r: Result<DnsAnswer, DnsError>) {
        let mut pos = *cursor;
        let name = match decode_name(buffer, &mut pos) {
            Ok(x) => x,
            Err(e) => {
                return Err(e);
            },
        };
        let record_type = match RecordType::decode_with_cursor(buffer, &mut pos) {
            Ok(x) => x,
            Err(e) => {
                return Err(e);
            },
        };
        let class = match Class::decode_with_cursor(buffer, &mut pos) {
            Ok(x) => x,
            Err(e) => {
                return Err(e);
            },
        };
        let time_to_live = match read_u32(buffer, &mut pos) {
            Ok(x) => x,
            Err(e) => {
                return Err(e);
            },
        };
        let length = match read_u16(buffer, &mut pos) {
            Ok(x) => x,
            Err(e) => {
                return Err(e);
            },
        };
        let data = match read_bytes(buffer, &mut pos, length as usize) {
            Ok(x) => x,
            Err(e) => {
                return Err(e);
            },
        };
        let a = DnsAnswer { name, record_type, class, time_to_live, length, data };
        proof {
            assert(Self::spec_parse(buffer@, *old(cursor) as int) == Ok::<(AnswerV, int), DnsError>(
                (a@, pos as int),
            ));
        }
        *cursor = pos;
        Ok(a)
    }

    fn decode(buffer: &[u8]) -> (r: Result<DnsAnswer, DnsError>) {
        let mut cursor: usize = 0;
        Self::decode_with_cursor(buffer, &mut cursor)
    }
}

} // verus!
