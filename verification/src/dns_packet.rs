//! Whole messages: header, question section, answer section; assembling
//! them against a datagram buffer; and the one-question-per-round-trip
//! forwarding discipline (split a multi-question query, merge the replies).

use crate::dns_answer::{spec_answer_bytes, spec_answer_from_question, AnswerV, DnsAnswer};
use crate::dns_header::{spec_header_bytes, spec_reply_header, DnsHeader};
use crate::dns_question::{spec_question_bytes, DnsQuestion, QuestionV};
use crate::errors::DnsError;
use crate::traits::{Decodable, Encodable};
use crate::wire::spec_u16_bytes;
use vstd::prelude::*;

verus! {

/// A whole message.
pub struct DnsPacket {
    pub dns_header: DnsHeader,
    pub dns_questions: Vec<DnsQuestion>,
    pub dns_answers: Vec<DnsAnswer>,
}

/// The abstract value of a whole message.
#[verifier::ext_equal]
pub struct PacketV {
    pub header: DnsHeader,
    pub questions: Seq<QuestionV>,
    pub answers: Seq<AnswerV>,
}

/// The abstract values of a run of questions.
pub open spec fn questions_view(s: Seq<DnsQuestion>) -> Seq<QuestionV> {
    s.map_values(|q: DnsQuestion| q@)
}

/// The abstract values of a run of answers.
pub open spec fn answers_view(s: Seq<DnsAnswer>) -> Seq<AnswerV> {
    s.map_values(|a: DnsAnswer| a@)
}

/// The abstract values of a run of packets.
pub open spec fn packets_view(s: Seq<DnsPacket>) -> Seq<PacketV> {
    s.map_values(|p: DnsPacket| p@)
}

impl View for DnsPacket {
    type V = PacketV;

    open spec fn view(&self) -> PacketV {
        PacketV {
            header: self.dns_header,
            questions: questions_view(self.dns_questions@),
            answers: answers_view(self.dns_answers@),
        }
    }
}

/// What parsing `n` consecutive questions at `pos` yields.
pub open spec fn spec_parse_questions(buf: Seq<u8>, pos: int, n: nat) -> Result<
    (Seq<QuestionV>, int),
    DnsError,
>
    decreases n,
{
    if n == 0 {
        Ok((seq![], pos))
    } else {
        match DnsQuestion::spec_parse(buf, pos) {
            Err(e) => Err(e),
            Ok((q, p)) => match spec_parse_questions(buf, p, (n - 1) as nat) {
                Err(e) => Err(e),
                Ok((qs, end)) => Ok((seq![q] + qs, end)),
            },
        }
    }
}

/// What parsing `n` consecutive answer records at `pos` yields.
pub open spec fn spec_parse_answers(buf: Seq<u8>, pos: int, n: nat) -> Result<
    (Seq<AnswerV>, int),
    DnsError,
>
    decreases n,
{
    if n == 0 {
        Ok((seq![], pos))
    } else {
        match DnsAnswer::spec_parse(buf, pos) {
            Err(e) => Err(e),
            Ok((a, p)) => match spec_parse_answers(buf, p, (n - 1) as nat) {
                Err(e) => Err(e),
                Ok((ans, end)) => Ok((seq![a] + ans, end)),
            },
        }
    }
}

/// What decoding a whole message yields: the header from the fixed 12-byte
/// region, then exactly `question count` questions and `answer count`
/// answers from one monotonically advancing cursor.
pub open spec fn spec_parse_packet(buf: Seq<u8>) -> Result<PacketV, DnsError> {
    match DnsHeader::spec_parse(buf, 0) {
        Err(e) => Err(e),
        Ok((header, p)) => match spec_parse_questions(buf, p, header.question_count as nat) {
            Err(e) => Err(e),
            Ok((questions, p2)) => match spec_parse_answers(
                buf,
                p2,
                header.answer_record_count as nat,
            ) {
                Err(e) => Err(e),
                Ok((answers, _)) => Ok(PacketV { header, questions, answers }),
            },
        },
    }
}

/// The wire bytes of a run of questions.
pub open spec fn spec_questions_bytes(qs: Seq<QuestionV>) -> Seq<u8>
    decreases qs.len(),
{
    if qs.len() == 0 {
        seq![]
    } else {
        spec_question_bytes(qs[0]) + spec_questions_bytes(qs.drop_first())
    }
}

/// The wire bytes of a run of answers.
pub open spec fn spec_answers_bytes(ans: Seq<AnswerV>) -> Seq<u8>
    decreases ans.len(),
{
    if ans.len() == 0 {
        seq![]
    } else {
        spec_answer_bytes(ans[0]) + spec_answers_bytes(ans.drop_first())
    }
}

/// The wire bytes of a whole message: header, questions in order, answers
/// in order.
pub open spec fn spec_packet_bytes(p: PacketV) -> Seq<u8> {
    spec_header_bytes(p.header) + spec_questions_bytes(p.questions) + spec_answers_bytes(p.answers)
}

/// Appending a question extends the section's wire bytes by its bytes.
pub proof fn lemma_questions_bytes_push(qs: Seq<QuestionV>, q: QuestionV)
    ensures
        spec_questions_bytes(qs.push(q)) == spec_questions_bytes(qs) + spec_question_bytes(q),
    decreases qs.len(),
{
    let p = qs.push(q);
    if qs.len() == 0 {
        assert(p.drop_first() =~= Seq::<QuestionV>::empty());
        assert(p[0] == q);
        assert(spec_questions_bytes(p) == spec_question_bytes(p[0]) + spec_questions_bytes(
            p.drop_first(),
        ));
        assert(spec_questions_bytes(p) =~= spec_questions_bytes(qs) + spec_question_bytes(q));
    } else {
        assert(p.drop_first() =~= qs.drop_first().push(q));
        lemma_questions_bytes_push(qs.drop_first(), q);
        assert(p[0] == qs[0]);
        assert(spec_questions_bytes(p) == spec_question_bytes(p[0]) + spec_questions_bytes(
            p.drop_first(),
        ));
        assert(spec_questions_bytes(qs) == spec_question_bytes(qs[0]) + spec_questions_bytes(
            qs.drop_first(),
        ));
        assert(spec_questions_bytes(p) =~= spec_questions_bytes(qs) + spec_question_bytes(q));
    }
}

/// Appending an answer extends the section's wire bytes by its bytes.
pub proof fn lemma_answers_bytes_push(ans: Seq<AnswerV>, a: AnswerV)
    ensures
        spec_answers_bytes(ans.push(a)) == spec_answers_bytes(ans) + spec_answer_bytes(a),
    decreases ans.len(),
{
    let p = ans.push(a);
    if ans.len() == 0 {
        assert(p.drop_first() =~= Seq::<AnswerV>::empty());
        assert(p[0] == a);
        assert(spec_answers_bytes(p) == spec_answer_bytes(p[0]) + spec_answers_bytes(
            p.drop_first(),
        ));
        assert(spec_answers_bytes(p) =~= spec_answers_bytes(ans) + spec_answer_bytes(a));
    } else {
        assert(p.drop_first() =~= ans.drop_first().push(a));
        lemma_answers_bytes_push(ans.drop_first(), a);
        assert(p[0] == ans[0]);
        assert(spec_answers_bytes(p) == spec_answer_bytes(p[0]) + spec_answers_bytes(
            p.drop_first(),
        ));
        assert(spec_answers_bytes(ans) == spec_answer_bytes(ans[0]) + spec_answers_bytes(
            ans.drop_first(),
        ));
        assert(spec_answers_bytes(p) =~= spec_answers_bytes(ans) + spec_answer_bytes(a));
    }
}

/// Splices a run of already-parsed questions in front of the outcome of
/// parsing the remaining ones.
pub open spec fn spec_combine_questions(
    prefix: Seq<QuestionV>,
    rest: Result<(Seq<QuestionV>, int), DnsError>,
) -> Result<(Seq<QuestionV>, int), DnsError> {
    match rest {
        Ok((qs, end)) => Ok((prefix + qs, end)),
        Err(e) => Err(e),
    }
}

/// Splices a run of already-parsed answers in front of the outcome of
/// parsing the remaining ones.
pub open spec fn spec_combine_answers(
    prefix: Seq<AnswerV>,
    rest: Result<(Seq<AnswerV>, int), DnsError>,
) -> Result<(Seq<AnswerV>, int), DnsError> {
    match rest {
        Ok((ans, end)) => Ok((prefix + ans, end)),
        Err(e) => Err(e),
    }
}

/// The header of a split-off single-question message: a copy of the
/// original header with the question count forced to one.
pub open spec fn spec_split_header(h: DnsHeader) -> DnsHeader {
    DnsHeader { question_count: 1, ..h }
}

/// The single-question messages a message splits into, in question order.
pub open spec fn spec_split(p: PacketV) -> Seq<PacketV> {
    Seq::new(
        p.questions.len(),
        |i: int|
            PacketV {
                header: spec_split_header(p.header),
                questions: seq![p.questions[i]],
                answers: seq![],
            },
    )
}

/// The questions of a run of packets, concatenated in order.
pub open spec fn spec_concat_questions(ps: Seq<PacketV>) -> Seq<QuestionV>
    decreases ps.len(),
{
    if ps.len() == 0 {
        seq![]
    } else {
        ps[0].questions + spec_concat_questions(ps.drop_first())
    }
}

/// The answers of a run of packets, concatenated in order.
pub open spec fn spec_concat_answers(ps: Seq<PacketV>) -> Seq<AnswerV>
    decreases ps.len(),
{
    if ps.len() == 0 {
        seq![]
    } else {
        ps[0].answers + spec_concat_answers(ps.drop_first())
    }
}

/// The merge of a non-empty run of messages: the first message's header
/// with both counts set to the number of messages, and the question and
/// answer sections concatenated in order.
pub open spec fn spec_merge(ps: Seq<PacketV>) -> PacketV
    recommends
        ps.len() > 0,
{
    PacketV {
        header: DnsHeader {
            question_count: ps.len() as u16,
            answer_record_count: ps.len() as u16,
            ..ps[0].header
        },
        questions: spec_concat_questions(ps),
        answers: spec_concat_answers(ps),
    }
}

/// The reply generated locally for a request: the derived reply header,
/// the request's questions echoed, and one synthetic answer per question.
pub open spec fn spec_generate_response(p: PacketV) -> PacketV {
    PacketV {
        header: spec_reply_header(p.header),
        questions: p.questions,
        answers: p.questions.map_values(|q: QuestionV| spec_answer_from_question(q)),
    }
}

impl Encodable for DnsPacket {
    /// The header's multi-bit fields fit and every section entry is well
    /// formed.
    open spec fn wf(&self) -> bool {
        &&& self.dns_header.wf()
        &&& forall|i: int|
            0 <= i < self.dns_questions@.len() ==> (#[trigger] self.dns_questions@[i]).wf()
        &&& forall|i: int|
            0 <= i < self.dns_answers@.len() ==> (#[trigger] self.dns_answers@[i]).wf()
    }

    open spec fn wire(&self) -> Seq<u8> {
        spec_packet_bytes(self@)
    }

    /// Header bytes, then each question's bytes in order, then each
    /// answer's bytes in order.
    fn encode(&self) -> (r: Vec<u8>)
        ensures
            r@ == self.wire(),
    {
        let ghost qs = questions_view(self.dns_questions@);
        let ghost ans = answers_view(self.dns_answers@);
        let mut r: Vec<u8> = self.dns_header.encode();
        let mut i: usize = 0;
        while i < self.dns_questions.len()
            invariant
                i <= self.dns_questions@.len(),
                r@ == spec_header_bytes(self.dns_header) + spec_questions_bytes(
                    qs.take(i as int),
                ),
            decreases self.dns_questions@.len() - i,
        {
            let mut bytes = self.dns_questions[i].encode();
            r.append(&mut bytes);
            proof {
                assert(qs.take(i + 1) =~= qs.take(i as int).push(qs[i as int]));
                lemma_questions_bytes_push(qs.take(i as int), qs[i as int]);
                assert(r@ =~= spec_header_bytes(self.dns_header) + spec_questions_bytes(
                    qs.take(i + 1),
                ));
            }
            i = i + 1;
        }
        proof {
            assert(qs.take(qs.len() as int) =~= qs);
        }
        let mut j: usize = 0;
        while j < self.dns_answers.len()
            invariant
                j <= self.dns_answers@.len(),
                r@ == spec_header_bytes(self.dns_header) + spec_questions_bytes(qs)
                    + spec_answers_bytes(ans.take(j as int)),
            decreases self.dns_answers@.len() - j,
        {
            let mut bytes = self.dns_answers[j].encode();
            r.append(&mut bytes);
            proof {
                assert(ans.take(j + 1) =~= ans.take(j as int).push(ans[j as int]));
                lemma_answers_bytes_push(ans.take(j as int), ans[j as int]);
                assert(r@ =~= spec_header_bytes(self.dns_header) + spec_questions_bytes(qs)
                    + spec_answers_bytes(ans.take(j + 1)));
            }
            j = j + 1;
        }
        proof {
            assert(ans.take(ans.len() as int) =~= ans);
            assert(r@ =~= self.wire());
        }
        r
    }
}

impl DnsPacket {
    /// Decodes a whole message: the header, then exactly as many questions
    /// and answers as the header's counts announce, from one advancing
    /// cursor.  On success the counts therefore match the sections.
    #[verifier::rlimit(60)]
    #[verifier::spinoff_prover]
    pub fn decode(buffer: &[u8]) -> (r: Result<DnsPacket, DnsError>)
        ensures
            match r {
                Ok(p) => {
                    &&& spec_parse_packet(buffer@) == Ok::<PacketV, DnsError>(p@)
                    &&& p.wf()
                    &&& p@.questions.len() == p@.header.question_count
                    &&& p@.answers.len() == p@.header.answer_record_count
                },
                Err(e) => spec_parse_packet(buffer@) == Err::<PacketV, DnsError>(e),
            },
    {
        let mut cursor: usize = 0;
        let dns_header = match DnsHeader::decode_with_cursor(buffer, &mut cursor) {
            Ok(h) => h,
            Err(e) => {
                return Err(e);
            },
        };
        let qcount: usize = dns_header.question_count as usize;
        let acount: usize = dns_header.answer_record_count as usize;
        let ghost p0 = cursor as int;
        let mut dns_questions: Vec<DnsQuestion> = Vec::new();
        proof {
            assert(questions_view(dns_questions@) =~= Seq::<QuestionV>::empty());
            match spec_parse_questions(buffer@, p0, qcount as nat) {
                Ok(p) => {
                    assert(Seq::<QuestionV>::empty() + p.0 =~= p.0);
                },
                Err(e) => {},
            }
        }
        let mut i: usize = 0;
        while i < qcount
            invariant
                i <= qcount,
                dns_questions@.len() == i,
                forall|k: int| 0 <= k < i ==> (#[trigger] dns_questions@[k]).wf(),
                spec_parse_questions(buffer@, p0, qcount as nat) == spec_combine_questions(
                    questions_view(dns_questions@),
                    spec_parse_questions(buffer@, cursor as int, (qcount - i) as nat),
                ),
            decreases qcount - i,
        {
            let ghost prev = cursor as int;
            let ghost prefix = questions_view(dns_questions@);
            let q = match DnsQuestion::decode_with_cursor(buffer, &mut cursor) {
                Ok(q) => q,
                Err(e) => {
                    return Err(e);
                },
            };
            proof {
                let k = (qcount - i) as nat;
                match spec_parse_questions(buffer@, cursor as int, (k - 1) as nat) {
                    Ok(p) => {
                        assert(spec_parse_questions(buffer@, prev, k) == Ok::<
                            (Seq<QuestionV>, int),
                            DnsError,
                        >((seq![q@] + p.0, p.1)));
                        assert(prefix + (seq![q@] + p.0) =~= (prefix + seq![q@]) + p.0);
                        assert(questions_view(dns_questions@.push(q)) =~= prefix + seq![q@]);
                    },
                    Err(e2) => {
                        assert(spec_parse_questions(buffer@, prev, k) == Err::<
                            (Seq<QuestionV>, int),
                            DnsError,
                        >(e2));
                    },
                }
            }
            dns_questions.push(q);
            i = i + 1;
        }
        proof {
            assert(questions_view(dns_questions@) + Seq::<QuestionV>::empty() =~= questions_view(
                dns_questions@,
            ));
            assert(spec_parse_questions(buffer@, p0, qcount as nat) == Ok::<
                (Seq<QuestionV>, int),
                DnsError,
            >((questions_view(dns_questions@), cursor as int)));
        }
        let ghost q_end = cursor as int;
        let mut dns_answers: Vec<DnsAnswer> = Vec::new();
        proof {
            assert(answers_view(dns_answers@) =~= Seq::<AnswerV>::empty());
            match spec_parse_answers(buffer@, q_end, acount as nat) {
                Ok(p) => {
                    assert(Seq::<AnswerV>::empty() + p.0 =~= p.0);
                },
                Err(e) => {},
            }
        }
        let mut j: usize = 0;
        while j < acount
            invariant
                j <= acount,
                dns_answers@.len() == j,
                forall|k: int| 0 <= k < j ==> (#[trigger] dns_answers@[k]).wf(),
                spec_parse_answers(buffer@, q_end, acount as nat) == spec_combine_answers(
                    answers_view(dns_answers@),
                    spec_parse_answers(buffer@, cursor as int, (acount - j) as nat),
                ),
            decreases acount - j,
        {
            let ghost prev = cursor as int;
            let ghost prefix = answers_view(dns_answers@);
            let a = match DnsAnswer::decode_with_cursor(buffer, &mut cursor) {
                Ok(a) => a,
                Err(e) => {
                    return Err(e);
                },
            };
            proof {
                let k = (acount - j) as nat;
                match spec_parse_answers(buffer@, cursor as int, (k - 1) as nat) {
                    Ok(p) => {
                        assert(spec_parse_answers(buffer@, prev, k) == Ok::<
                            (Seq<AnswerV>, int),
                            DnsError,
                        >((seq![a@] + p.0, p.1)));
                        assert(prefix + (seq![a@] + p.0) =~= (prefix + seq![a@]) + p.0);
                        assert(answers_view(dns_answers@.push(a)) =~= prefix + seq![a@]);
                    },
                    Err(e2) => {
                        assert(spec_parse_answers(buffer@, prev, k) == Err::<
                            (Seq<AnswerV>, int),
                            DnsError,
                        >(e2));
                    },
                }
            }
            dns_answers.push(a);
            j = j + 1;
        }
        proof {
            assert(answers_view(dns_answers@) + Seq::<AnswerV>::empty() =~= answers_view(
                dns_answers@,
            ));
            assert(spec_parse_answers(buffer@, q_end, acount as nat) == Ok::<
                (Seq<AnswerV>, int),
                DnsError,
            >((answers_view(dns_answers@), cursor as int)));
        }
        let p = DnsPacket { dns_header, dns_questions, dns_answers };
        proof {
            assert(spec_parse_packet(buffer@) == Ok::<PacketV, DnsError>(p@));
        }
        Ok(p)
    }

    /// Splits a message into one single-question message per question, in
    /// question order, each carrying a copy of the header with question
    /// count one and an empty answer list.  A message with no questions
    /// splits into an empty list.
    pub fn split(&self) -> (r: Vec<DnsPacket>)
        ensures
            r@.len() == self@.questions.len(),
            packets_view(r@) == spec_split(self@),
            self.wf() ==> forall|i: int| 0 <= i < r@.len() ==> (#[trigger] r@[i]).wf(),
    {
        let mut dns_header = self.dns_header;
        dns_header.question_count = 1;
        let mut out: Vec<DnsPacket> = Vec::new();
        let mut i: usize = 0;
        while i < self.dns_questions.len()
            invariant
                i <= self.dns_questions@.len(),
                out@.len() == i,
                dns_header == spec_split_header(self.dns_header),
                packets_view(out@) =~~= spec_split(self@).take(i as int),
                self.wf() ==> forall|k: int| 0 <= k < i ==> (#[trigger] out@[k]).wf(),
            decreases self.dns_questions@.len() - i,
        {
            let q = self.dns_questions[i].clone();
            let mut questions: Vec<DnsQuestion> = Vec::new();
            questions.push(q);
            let pkt = DnsPacket {
                dns_header,
                dns_questions: questions,
                dns_answers: Vec::new(),
            };
            proof {
                assert(pkt@.questions =~= seq![self@.questions[i as int]]);
                assert(pkt@.answers =~= Seq::<AnswerV>::empty());
                assert(pkt@ =~~= spec_split(self@)[i as int]);
            }
            out.push(pkt);
            proof {
                assert(packets_view(out@) =~~= spec_split(self@).take(i + 1));
            }
            i = i + 1;
        }
        proof {
            assert(spec_split(self@).take(self@.questions.len() as int) =~~= spec_split(self@));
        }
        out
    }

    /// Merges single-answer replies into one message: the first reply's
    /// header with both counts set to the number of replies, every reply's
    /// questions concatenated in order, and every reply's answers
    /// concatenated in order.  Merging zero messages fails with
    /// `EmptyMergeSet`.
    pub fn merge(dns_packets: Vec<DnsPacket>) -> (r: Result<DnsPacket, DnsError>)
        requires
            dns_packets@.len() <= u16::MAX,
        ensures
            match r {
                Ok(p) => {
                    &&& dns_packets@.len() > 0
                    &&& p@ == spec_merge(packets_view(dns_packets@))
                    &&& (forall|i: int|
                        0 <= i < dns_packets@.len() ==> (#[trigger] dns_packets@[i]).wf())
                        ==> p.wf()
                },
                Err(e) => {
                    &&& e == DnsError::EmptyMergeSet
                    &&& dns_packets@.len() == 0
                },
            },
    {
        if dns_packets.len() == 0 {
            return Err(DnsError::EmptyMergeSet);
        }
        let ghost opkts = dns_packets@;
        let ghost views = packets_view(dns_packets@);
        let n = dns_packets.len();
        let mut packets = dns_packets;
        let mut dns_header = packets[0].dns_header;
        dns_header.question_count = n as u16;
        dns_header.answer_record_count = n as u16;
        let mut dns_questions: Vec<DnsQuestion> = Vec::new();
        let mut dns_answers: Vec<DnsAnswer> = Vec::new();
        let mut i: usize = 0;
        while i < n
            invariant
                i <= n,
                n == opkts.len(),
                packets@ =~= opkts.skip(i as int),
                views == packets_view(opkts),
                questions_view(dns_questions@) =~= spec_concat_questions(views.take(i as int)),
                answers_view(dns_answers@) =~= spec_concat_answers(views.take(i as int)),
                (forall|k: int| 0 <= k < n ==> (#[trigger] opkts[k]).wf()) ==> (forall|k: int|
                    0 <= k < dns_questions@.len() ==> (#[trigger] dns_questions@[k]).wf()),
                (forall|k: int| 0 <= k < n ==> (#[trigger] opkts[k]).wf()) ==> (forall|k: int|
                    0 <= k < dns_answers@.len() ==> (#[trigger] dns_answers@[k]).wf()),
            decreases n - i,
        {
            let ghost q_prefix = questions_view(dns_questions@);
            let ghost a_prefix = answers_view(dns_answers@);
            let p = packets.remove(0);
            proof {
                assert(p == opkts[i as int]);
                assert(packets@ =~= opkts.skip(i + 1));
            }
            let mut qs = p.dns_questions;
            dns_questions.append(&mut qs);
            let mut ans = p.dns_answers;
            dns_answers.append(&mut ans);
            proof {
                assert(views.take(i + 1) =~= views.take(i as int).push(views[i as int]));
                lemma_concat_questions_push(views.take(i as int), views[i as int]);
                lemma_concat_answers_push(views.take(i as int), views[i as int]);
                assert(questions_view(dns_questions@) =~= q_prefix + views[i as int].questions);
                assert(answers_view(dns_answers@) =~= a_prefix + views[i as int].answers);
            }
            i = i + 1;
        }
        proof {
            assert(views.take(n as int) =~= views);
        }
        let p = DnsPacket { dns_header, dns_questions, dns_answers };
        proof {
            assert(views[0] == opkts[0]@);
            assert(p@ =~~= spec_merge(views));
        }
        Ok(p)
    }
}

/// Appending a packet extends the concatenated questions by that packet's
/// questions.
pub proof fn lemma_concat_questions_push(ps: Seq<PacketV>, p: PacketV)
    ensures
        spec_concat_questions(ps.push(p)) == spec_concat_questions(ps) + p.questions,
    decreases ps.len(),
{
    let w = ps.push(p);
    if ps.len() == 0 {
        assert(w.drop_first() =~= Seq::<PacketV>::empty());
        assert(w[0] == p);
        assert(spec_concat_questions(w) == w[0].questions + spec_concat_questions(w.drop_first()));
        assert(spec_concat_questions(w) =~= spec_concat_questions(ps) + p.questions);
    } else {
        assert(w.drop_first() =~= ps.drop_first().push(p));
        lemma_concat_questions_push(ps.drop_first(), p);
        assert(w[0] == ps[0]);
        assert(spec_concat_questions(w) == w[0].questions + spec_concat_questions(w.drop_first()));
        assert(spec_concat_questions(ps) == ps[0].questions + spec_concat_questions(
            ps.drop_first(),
        ));
        assert(spec_concat_questions(w) =~= spec_concat_questions(ps) + p.questions);
    }
}

/// Appending a packet extends the concatenated answers by that packet's
/// answers.
pub proof fn lemma_concat_answers_push(ps: Seq<PacketV>, p: PacketV)
    ensures
        spec_concat_answers(ps.push(p)) == spec_concat_answers(ps) + p.answers,
    decreases ps.len(),
{
    let w = ps.push(p);
    if ps.len() == 0 {
        assert(w.drop_first() =~= Seq::<PacketV>::empty());
        assert(w[0] == p);
        assert(spec_concat_answers(w) == w[0].answers + spec_concat_answers(w.drop_first()));
        assert(spec_concat_answers(w) =~= spec_concat_answers(ps) + p.answers);
    } else {
        assert(w.drop_first() =~= ps.drop_first().push(p));
        lemma_concat_answers_push(ps.drop_first(), p);
        assert(w[0] == ps[0]);
        assert(spec_concat_answers(w) == w[0].answers + spec_concat_answers(w.drop_first()));
        assert(spec_concat_answers(ps) == ps[0].answers + spec_concat_answers(ps.drop_first()));
        assert(spec_concat_answers(w) =~= spec_concat_answers(ps) + p.answers);
    }
}

/// Builds a reply for a request without consulting an upstream: the
/// derived reply header, the request's questions echoed in order, and
/// one synthetic answer per question.
pub fn generate_response(dns_request: DnsPacket) -> (r: DnsPacket)
    ensures
        r@ == spec_generate_response(dns_request@),
        dns_request.wf() ==> r.wf(),
{
    let dns_header = DnsHeader::from_request_header(dns_request.dns_header);
    let mut dns_questions: Vec<DnsQuestion> = Vec::new();
    let mut dns_answers: Vec<DnsAnswer> = Vec::new();
    let ghost qs = dns_request@.questions;
    let mut i: usize = 0;
    while i < dns_request.dns_questions.len()
        invariant
            i <= dns_request.dns_questions@.len(),
            qs == dns_request@.questions,
            questions_view(dns_questions@) =~= qs.take(i as int),
            dns_answers@.len() == i,
            forall|k: int|
                0 <= k < i ==> answers_view(dns_answers@)[k] == spec_answer_from_question(
                    qs[k],
                ),
            dns_request.wf() ==> forall|k: int|
                0 <= k < dns_questions@.len() ==> (#[trigger] dns_questions@[k]).wf(),
            dns_request.wf() ==> forall|k: int|
                0 <= k < dns_answers@.len() ==> (#[trigger] dns_answers@[k]).wf(),
        decreases dns_request.dns_questions@.len() - i,
    {
        let question = dns_request.dns_questions[i].clone();
        let answer = DnsAnswer::from_request_question(&dns_request.dns_questions[i]);
        dns_questions.push(question);
        let ghost prev_answers = dns_answers@;
        dns_answers.push(answer);
        proof {
            assert(questions_view(dns_questions@) =~= qs.take(i + 1));
            assert(qs[i as int] == dns_request.dns_questions@[i as int]@);
            assert forall|k: int| 0 <= k < i + 1 implies answers_view(dns_answers@)[k]
                == spec_answer_from_question(qs[k]) by {
                if k < i {
                    assert(dns_answers@[k] == prev_answers[k]);
                    assert(answers_view(prev_answers)[k] == spec_answer_from_question(qs[k]));
                } else {
                    assert(dns_answers@[k] == answer);
                }
            }
        }
        i = i + 1;
    }
    let r = DnsPacket { dns_header, dns_questions, dns_answers };
    proof {
        assert(qs.take(qs.len() as int) =~= qs);
        let f = |q: QuestionV| spec_answer_from_question(q);
        assert forall|k: int| 0 <= k < qs.len() implies answers_view(dns_answers@)[k]
            == qs.map_values(f)[k] by {
            assert(qs.map_values(f)[k] == f(qs[k]));
        }
        assert(answers_view(dns_answers@) =~= qs.map_values(f));
        assert(r@ =~~= spec_generate_response(dns_request@));
    }
    r
}

/// Whatever a question-section parse yields has exactly the announced
/// number of entries, each valid, and ends within the buffer.
pub proof fn lemma_parse_questions_wf(buf: Seq<u8>, pos: int, n: nat)
    ensures
        spec_parse_questions(buf, pos, n) matches Ok(p) ==> {
            &&& p.0.len() == n
            &&& forall|i: int|
                0 <= i < p.0.len() ==> crate::dns_question::question_v_wf(#[trigger] p.0[i])
            &&& pos <= p.1 <= buf.len() || n == 0
        },
    decreases n,
{
    if n == 0 {
    } else {
        crate::dns_question::lemma_parse_question_wf(buf, pos);
        match DnsQuestion::spec_parse(buf, pos) {
            Err(_) => {},
            Ok((q, p)) => {
                lemma_parse_questions_wf(buf, p, (n - 1) as nat);
                match spec_parse_questions(buf, p, (n - 1) as nat) {
                    Err(_) => {},
                    Ok((qs, _)) => {
                        assert(forall|i: int|
                            0 <= i < qs.len() ==> (seq![q] + qs)[i + 1] == #[trigger] qs[i]);
                    },
                }
            },
        }
    }
}

/// Whatever an answer-section parse yields has exactly the announced
/// number of entries, each valid, and ends within the buffer.
pub proof fn lemma_parse_answers_wf(buf: Seq<u8>, pos: int, n: nat)
    ensures
        spec_parse_answers(buf, pos, n) matches Ok(p) ==> {
            &&& p.0.len() == n
            &&& forall|i: int|
                0 <= i < p.0.len() ==> crate::dns_answer::answer_v_wf(#[trigger] p.0[i])
            &&& pos <= p.1 <= buf.len() || n == 0
        },
    decreases n,
{
    if n == 0 {
    } else {
        crate::dns_answer::lemma_parse_answer_wf(buf, pos);
        match DnsAnswer::spec_parse(buf, pos) {
            Err(_) => {},
            Ok((a, p)) => {
                lemma_parse_answers_wf(buf, p, (n - 1) as nat);
                match spec_parse_answers(buf, p, (n - 1) as nat) {
                    Err(_) => {},
                    Ok((ans, _)) => {
                        assert(forall|i: int|
                            0 <= i < ans.len() ==> (seq![a] + ans)[i + 1] == #[trigger] ans[i]);
                    },
                }
            },
        }
    }
}

/// A run of valid questions parses back from its wire bytes wherever they
/// sit in a buffer.
pub proof fn lemma_parse_questions_of_encoding(buf: Seq<u8>, pos: int, qs: Seq<QuestionV>)
    requires
        forall|i: int| 0 <= i < qs.len() ==> crate::dns_question::question_v_wf(#[trigger] qs[i]),
        0 <= pos,
        pos + spec_questions_bytes(qs).len() <= buf.len(),
        buf.subrange(pos, pos + spec_questions_bytes(qs).len()) == spec_questions_bytes(qs),
    ensures
        spec_parse_questions(buf, pos, qs.len()) == Ok::<(Seq<QuestionV>, int), DnsError>(
            (qs, pos + spec_questions_bytes(qs).len()),
        ),
    decreases qs.len(),
{
    let bytes = spec_questions_bytes(qs);
    let total = bytes.len();
    assert(forall|k: int| 0 <= k < total ==> buf[pos + k] == #[trigger] bytes[k]) by {
        assert(forall|k: int|
            0 <= k < total ==> buf.subrange(pos, pos + total)[k] == #[trigger] bytes[k]);
    }
    if qs.len() == 0 {
        assert(qs =~= Seq::<QuestionV>::empty());
    } else {
        let q = qs[0];
        let qb = spec_question_bytes(q);
        let rest = qs.drop_first();
        let rb = spec_questions_bytes(rest);
        assert(bytes == qb + rb);
        assert(forall|k: int| 0 <= k < qb.len() ==> bytes[k] == #[trigger] qb[k]);
        assert(buf.subrange(pos, pos + qb.len() as int) =~= qb);
        crate::dns_question::lemma_parse_question_of_encoding(buf, pos, q);
        let p = pos + qb.len() as int;
        assert(forall|k: int| 0 <= k < rb.len() ==> bytes[qb.len() + k] == #[trigger] rb[k]);
        assert(forall|k: int| 0 <= k < rb.len() ==> buf[pos + (qb.len() + k)] == #[trigger] bytes[
            qb.len() + k
        ]);
        assert(buf.subrange(p, p + rb.len() as int) =~= rb);
        lemma_parse_questions_of_encoding(buf, p, rest);
        assert(seq![q] + rest =~= qs);
    }
}

/// A run of valid answers parses back from its wire bytes wherever they
/// sit in a buffer.
pub proof fn lemma_parse_answers_of_encoding(buf: Seq<u8>, pos: int, ans: Seq<AnswerV>)
    requires
        forall|i: int| 0 <= i < ans.len() ==> crate::dns_answer::answer_v_wf(#[trigger] ans[i]),
        0 <= pos,
        pos + spec_answers_bytes(ans).len() <= buf.len(),
        buf.subrange(pos, pos + spec_answers_bytes(ans).len()) == spec_answers_bytes(ans),
    ensures
        spec_parse_answers(buf, pos, ans.len()) == Ok::<(Seq<AnswerV>, int), DnsError>(
            (ans, pos + spec_answers_bytes(ans).len()),
        ),
    decreases ans.len(),
{
    let bytes = spec_answers_bytes(ans);
    let total = bytes.len();
    assert(forall|k: int| 0 <= k < total ==> buf[pos + k] == #[trigger] bytes[k]) by {
        assert(forall|k: int|
            0 <= k < total ==> buf.subrange(pos, pos + total)[k] == #[trigger] bytes[k]);
    }
    if ans.len() == 0 {
        assert(ans =~= Seq::<AnswerV>::empty());
    } else {
        let a = ans[0];
        let ab = spec_answer_bytes(a);
        let rest = ans.drop_first();
        let rb = spec_answers_bytes(rest);
        assert(bytes == ab + rb);
        assert(forall|k: int| 0 <= k < ab.len() ==> bytes[k] == #[trigger] ab[k]);
        assert(buf.subrange(pos, pos + ab.len() as int) =~= ab);
        crate::dns_answer::lemma_parse_answer_of_encoding(buf, pos, a);
        let p = pos + ab.len() as int;
        assert(forall|k: int| 0 <= k < rb.len() ==> bytes[ab.len() + k] == #[trigger] rb[k]);
        assert(forall|k: int| 0 <= k < rb.len() ==> buf[pos + (ab.len() + k)] == #[trigger] bytes[
            ab.len() + k
        ]);
        assert(buf.subrange(p, p + rb.len() as int) =~= rb);
        lemma_parse_answers_of_encoding(buf, p, rest);
        assert(seq![a] + rest =~= ans);
    }
}

/// Round trip for whole messages: any message obtained by decoding some
/// buffer, when encoded again, decodes to the very same message, field for
/// field — even where the original buffer used compression, since encoding
/// spells every name out.
pub proof fn lemma_packet_round_trip(buf: Seq<u8>, p: PacketV)
    requires
        spec_parse_packet(buf) == Ok::<PacketV, DnsError>(p),
    ensures
        spec_parse_packet(spec_packet_bytes(p)) == Ok::<PacketV, DnsError>(p),
{
    lemma_parse_packet_wf(buf, p);
    lemma_parse_packet_of_encoding(p);
}

/// Whatever a whole-message parse yields is consistent: a valid header
/// whose counts match the sections, and valid section entries throughout.
#[verifier::spinoff_prover]
pub proof fn lemma_parse_packet_wf(buf: Seq<u8>, p: PacketV)
    requires
        spec_parse_packet(buf) == Ok::<PacketV, DnsError>(p),
    ensures
        p.header.wf(),
        p.questions.len() == p.header.question_count,
        p.answers.len() == p.header.answer_record_count,
        forall|i: int|
            0 <= i < p.questions.len() ==> crate::dns_question::question_v_wf(
                #[trigger] p.questions[i],
            ),
        forall|i: int|
            0 <= i < p.answers.len() ==> crate::dns_answer::answer_v_wf(#[trigger] p.answers[i]),
{
    let h = p.header;
    match DnsHeader::spec_parse(buf, 0) {
        Err(_) => {},
        Ok((h0, p0)) => {
            assert(h == h0 && p0 == 12);
            assert(h.wf());
            lemma_parse_questions_wf(buf, p0, h.question_count as nat);
            match spec_parse_questions(buf, p0, h.question_count as nat) {
                Err(_) => {},
                Ok((qs, p1)) => {
                    lemma_parse_answers_wf(buf, p1, h.answer_record_count as nat);
                    assert(qs == p.questions);
                },
            }
        },
    }
}

/// A message whose header counts match its valid sections parses back from
/// its own wire bytes.
#[verifier::rlimit(80)]
#[verifier::spinoff_prover]
pub proof fn lemma_parse_packet_of_encoding(p: PacketV)
    requires
        p.header.wf(),
        p.questions.len() == p.header.question_count,
        p.answers.len() == p.header.answer_record_count,
        forall|i: int|
            0 <= i < p.questions.len() ==> crate::dns_question::question_v_wf(
                #[trigger] p.questions[i],
            ),
        forall|i: int|
            0 <= i < p.answers.len() ==> crate::dns_answer::answer_v_wf(#[trigger] p.answers[i]),
    ensures
        spec_parse_packet(spec_packet_bytes(p)) == Ok::<PacketV, DnsError>(p),
{
    let h = p.header;
    let enc = spec_packet_bytes(p);
    let hb = spec_header_bytes(h);
    let qb = spec_questions_bytes(p.questions);
    let ab = spec_answers_bytes(p.answers);
    assert(spec_u16_bytes(h.packet_identifier).len() == 2);
    assert(hb.len() == 12);
    assert(enc.len() == 12 + qb.len() + ab.len());
    assert(forall|k: int| 0 <= k < 12 ==> enc[k] == #[trigger] hb[k]);
    assert(enc.subrange(0, 12) =~= hb);
    crate::dns_header::lemma_parse_header_at(enc, 0, h);
    assert(forall|k: int| 0 <= k < qb.len() ==> enc[12 + k] == #[trigger] qb[k]);
    assert(enc.subrange(12, 12 + qb.len() as int) =~= qb);
    lemma_parse_questions_of_encoding(enc, 12, p.questions);
    let p1 = 12 + qb.len() as int;
    assert(forall|k: int| 0 <= k < ab.len() ==> enc[p1 + k] == #[trigger] ab[k]);
    assert(enc.subrange(p1, p1 + ab.len() as int) =~= ab);
    lemma_parse_answers_of_encoding(enc, p1, p.answers);
    assert(spec_parse_packet(enc) == Ok::<PacketV, DnsError>(
        PacketV { header: h, questions: p.questions, answers: p.answers },
    ));
    assert(PacketV { header: h, questions: p.questions, answers: p.answers } =~= p);
}

/// Split/merge identity: when each reply `i` carries exactly question `i`
/// of the original message and a single answer, merging the replies gives
/// back the original questions in order, and both header counts equal the
/// number of replies, which also equals the number of answers.
pub proof fn lemma_split_merge_identity(m: PacketV, replies: Seq<PacketV>)
    requires
        replies.len() == m.questions.len(),
        0 < replies.len() <= u16::MAX,
        forall|i: int|
            0 <= i < replies.len() ==> (#[trigger] replies[i]).questions == seq![m.questions[i]],
        forall|i: int| 0 <= i < replies.len() ==> (#[trigger] replies[i]).answers.len() == 1,
    ensures
        spec_merge(replies).questions == m.questions,
        spec_merge(replies).header.question_count == replies.len(),
        spec_merge(replies).header.answer_record_count == replies.len(),
        spec_merge(replies).answers.len() == replies.len(),
{
    lemma_merge_sections(m, replies, 0);
    assert(replies.skip(0) =~= replies);
    assert(m.questions.skip(0) =~= m.questions);
}

/// The suffix form of the split/merge identity, proved by induction from
/// the back of the reply list.
proof fn lemma_merge_sections(m: PacketV, replies: Seq<PacketV>, k: int)
    requires
        replies.len() == m.questions.len(),
        0 <= k <= replies.len(),
        forall|i: int|
            0 <= i < replies.len() ==> (#[trigger] replies[i]).questions == seq![m.questions[i]],
        forall|i: int| 0 <= i < replies.len() ==> (#[trigger] replies[i]).answers.len() == 1,
    ensures
        spec_concat_questions(replies.skip(k)) == m.questions.skip(k),
        spec_concat_answers(replies.skip(k)).len() == replies.len() - k,
    decreases replies.len() - k,
{
    if k == replies.len() {
        assert(replies.skip(k) =~= Seq::<PacketV>::empty());
        assert(m.questions.skip(k) =~= Seq::<QuestionV>::empty());
    } else {
        lemma_merge_sections(m, replies, k + 1);
        let s = replies.skip(k);
        assert(s.len() > 0);
        assert(s[0] == replies[k]);
        assert(s.drop_first() =~= replies.skip(k + 1));
        assert(spec_concat_questions(s) == replies[k].questions + spec_concat_questions(
            replies.skip(k + 1),
        ));
        assert(spec_concat_questions(s) =~= m.questions.skip(k)) by {
            assert(replies[k].questions == seq![m.questions[k]]);
        }
        assert(spec_concat_answers(s) == replies[k].answers + spec_concat_answers(
            replies.skip(k + 1),
        ));
    }
}

} // verus!
