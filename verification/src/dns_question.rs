//! One query-section entry: a domain name, a record type, and a class.

use crate::class::{spec_class_code, Class};
use crate::errors::DnsError;
use crate::label::{decode_name, encode_name, labels_view, spec_decode_name, spec_name_bytes, Label};
use crate::record_type::{spec_record_type_code, RecordType};
use crate::traits::{Decodable, Encodable};
use crate::wire::{push_u16, spec_u16_bytes};
use vstd::prelude::*;

verus! {

/// One entry of the question section.
pub struct DnsQuestion {
    pub record_type: RecordType,
    pub class: Class,
    pub labels: Vec<Label>,
}

/// The abstract value of a question: the name's label contents, the record
/// type, and the class.
#[verifier::ext_equal]
pub struct QuestionV {
    pub name: Seq<Seq<u8>>,
    pub record_type: RecordType,
    pub class: Class,
}

impl View for DnsQuestion {
    type V = QuestionV;

    open spec fn view(&self) -> QuestionV {
        QuestionV {
            name: labels_view(self.labels@),
            record_type: self.record_type,
            class: self.class,
        }
    }
}

/// The wire bytes of a question: the name, then the type and class codes.
pub open spec fn spec_question_bytes(q: QuestionV) -> Seq<u8> {
    spec_name_bytes(q.name) + spec_u16_bytes(spec_record_type_code(q.record_type))
        + spec_u16_bytes(spec_class_code(q.class))
}

/// A question's abstract value is valid when every label of its name is.
pub open spec fn question_v_wf(q: QuestionV) -> bool {
    forall|i: int| 0 <= i < q.name.len() ==> crate::label::label_wf(#[trigger] q.name[i])
}

/// Whatever a question parse yields is valid, and the end position lies
/// past the start and within the buffer.
pub proof fn lemma_parse_question_wf(buf: Seq<u8>, pos: int)
    ensures
        DnsQuestion::spec_parse(buf, pos) matches Ok(p) ==> {
            &&& question_v_wf(p.0)
            &&& pos < p.1 <= buf.len()
        },
{
    crate::label::lemma_parse_name_labels_wf(buf, pos, pos);
}

/// A valid question's wire bytes parse back to that question wherever they
/// sit in a buffer.
pub proof fn lemma_parse_question_of_encoding(buf: Seq<u8>, pos: int, q: QuestionV)
    requires
        question_v_wf(q),
        0 <= pos,
        pos + spec_question_bytes(q).len() <= buf.len(),
        buf.subrange(pos, pos + spec_question_bytes(q).len()) == spec_question_bytes(q),
    ensures
        DnsQuestion::spec_parse(buf, pos) == Ok::<(QuestionV, int), DnsError>(
            (q, pos + spec_question_bytes(q).len()),
        ),
{
    let bytes = spec_question_bytes(q);
    let total = bytes.len();
    let nb = spec_name_bytes(q.name);
    let tb = spec_u16_bytes(spec_record_type_code(q.record_type));
    let cb = spec_u16_bytes(spec_class_code(q.class));
    assert(tb.len() == 2 && cb.len() == 2);
    assert(total == nb.len() + 4);
    assert(forall|k: int| 0 <= k < total ==> buf[pos + k] == #[trigger] bytes[k]) by {
        assert(forall|k: int|
            0 <= k < total ==> buf.subrange(pos, pos + total)[k] == #[trigger] bytes[k]);
    }
    assert(forall|k: int| 0 <= k < nb.len() ==> bytes[k] == #[trigger] nb[k]);
    assert(buf.subrange(pos, pos + nb.len() as int) =~= nb);
    crate::label::lemma_parse_name_of_encoding(buf, pos, pos, q.name);
    let p = pos + nb.len() as int;
    let n = nb.len() as int;
    assert(bytes[n] == tb[0] && bytes[n + 1] == tb[1]);
    assert(bytes[n + 2] == cb[0] && bytes[n + 3] == cb[1]);
    assert(buf[pos + n] == bytes[n] && buf[pos + (n + 1)] == bytes[n + 1]);
    assert(buf[pos + (n + 2)] == bytes[n + 2] && buf[pos + (n + 3)] == bytes[n + 3]);
    assert(buf[p] == tb[0] && buf[p + 1] == tb[1]);
    assert(buf[p + 2] == cb[0] && buf[p + 3] == cb[1]);
    crate::wire::lemma_u16_bytes_round_trip(spec_record_type_code(q.record_type));
    crate::wire::lemma_u16_bytes_round_trip(spec_class_code(q.class));
    crate::record_type::lemma_record_type_round_trip(q.record_type);
    crate::class::lemma_class_round_trip(q.class);
    assert(DnsQuestion::spec_parse(buf, pos) == Ok::<(QuestionV, int), DnsError>((
        QuestionV { name: q.name, record_type: q.record_type, class: q.class },
        pos + total,
    )));
    assert(QuestionV { name: q.name, record_type: q.record_type, class: q.class } =~= q);
}

impl Clone for DnsQuestion {
    /// A clone keeps the abstract value and well-formedness.
    fn clone(&self) -> (r: Self)
        ensures
            r@ == self@,
            self.wf() ==> r.wf(),
    {
        let mut labels: Vec<Label> = Vec::new();
        let mut i: usize = 0;
        while i < self.labels.len()
            invariant
                i <= self.labels@.len(),
                labels@.len() == i,
                forall|k: int| 0 <= k < i ==> (#[trigger] labels@[k])@ == self.labels@[k]@,
                forall|k: int|
                    0 <= k < i ==> (self.labels@[k].inv() ==> (#[trigger] labels@[k]).inv()),
            decreases self.labels@.len() - i,
        {
            labels.push(self.labels[i].clone());
            i = i + 1;
        }
        let r = DnsQuestion { record_type: self.record_type, class: self.class, labels };
        proof {
            assert(r@.name =~= self@.name);
            assert(r@ =~= self@);
        }
        r
    }
}

impl Encodable for DnsQuestion {
    /// Every label of the name is well formed.
    open spec fn wf(&self) -> bool {
        forall|i: int| 0 <= i < self.labels@.len() ==> (#[trigger] self.labels@[i]).inv()
    }

    open spec fn wire(&self) -> Seq<u8> {
        spec_question_bytes(self@)
    }

    /// The name bytes, then two bytes of type code and two of class code.
    fn encode(&self) -> (r: Vec<u8>)
        ensures
            r@ == self.wire(),
    {
        let mut r: Vec<u8> = Vec::new();
        encode_name(&self.labels, &mut r);
        push_u16(&mut r, self.record_type.code());
        push_u16(&mut r, self.class.code());
        proof {
            assert(r@ =~= self.wire());
        }
        r
    }
}

impl Decodable for DnsQuestion {
    open spec fn spec_parse(buf: Seq<u8>, pos: int) -> Result<(QuestionV, int), DnsError> {
        match spec_decode_name(buf, pos) {
            Err(e) => Err(e),
            Ok((name, p)) => match RecordType::spec_parse(buf, p) {
                Err(e) => Err(e),
                Ok((record_type, p2)) => match Class::spec_parse(buf, p2) {
                    Err(e) => Err(e),
                    Ok((class, p3)) => Ok((QuestionV { name, record_type, class }, p3)),
                },
            },
        }
    }

    /// The name (following compression pointers), then the type and class.
    fn decode_with_cursor(buffer: &[u8], cursor: &mut usize) -> (r: Result<DnsQuestion, DnsError>) {
        let mut pos = *cursor;
        let labels = match decode_name(buffer, &mut pos) {
            Ok(x) => x,
            Err(e) => {
                return Err(e);
            },
        };
        let record_type = match RecordType::decode_with_cursor(buffer, &mut pos) {
            Ok(x) => x,
            Err(e) => {
                return Err(e);
            },
        };
        let class = match Class::decode_with_cursor(buffer, &mut pos) {
            Ok(x) => x,
            Err(e) => {
                return Err(e);
            },
        };
        let q = DnsQuestion { record_type, class, labels };
        proof {
            assert(Self::spec_parse(buffer@, *old(cursor) as int) == Ok::<
                (QuestionV, int),
                DnsError,
            >((q@, pos as int)));
        }
        *cursor = pos;
        Ok(q)
    }

    fn decode(buffer: &[u8]) -> (r: Result<DnsQuestion, DnsError>) {
        let mut cursor: usize = 0;
        Self::decode_with_cursor(buffer, &mut cursor)
    }
}

} // verus!
