use dns_codec::class::Class;
use dns_codec::dns_answer::DnsAnswer;
use dns_codec::dns_header::{DnsHeader, QueryResponse};
use dns_codec::dns_packet::{generate_response, DnsPacket};
use dns_codec::dns_question::DnsQuestion;
use dns_codec::errors::DnsError;
use dns_codec::label::{decode_name, encode_name, Label};
use dns_codec::record_type::RecordType;
use dns_codec::traits::{Decodable, Encodable};

fn label(s: &str) -> Label {
    Label::from_string(s.to_string())
}

fn sample_header() -> DnsHeader {
    DnsHeader {
        packet_identifier: 0x1234,
        query_response_indicator: QueryResponse::ReplyPacket,
        operation_code: 4,
        authoritative_answer: true,
        truncation: false,
        recursion_desired: true,
        recursion_available: false,
        reserved: 5,
        response_code: 3,
        question_count: 2,
        answer_record_count: 1,
        authority_record_count: 7,
        additional_record_count: 9,
    }
}

#[test]
fn header_round_trip() {
    let h = sample_header();
    let bytes = h.encode();
    assert_eq!(bytes.len(), 12);
    let decoded = DnsHeader::decode(&bytes).unwrap();
    assert_eq!(decoded, h);
}

#[test]
fn header_decode_known_bytes() {
    let bytes = vec![0x00, 0x01, 0x01, 0x00, 0x00, 0x01, 0x00, 0x00, 0x00, 0x00, 0x00, 0x00];
    let h = DnsHeader::decode(&bytes).unwrap();
    assert_eq!(h.packet_identifier, 1);
    assert_eq!(h.query_response_indicator, QueryResponse::QuestionPacket);
    assert_eq!(h.operation_code, 0);
    assert!(!h.authoritative_answer);
    assert!(!h.truncation);
    assert!(h.recursion_desired);
    assert!(!h.recursion_available);
    assert_eq!(h.reserved, 0);
    assert_eq!(h.response_code, 0);
    assert_eq!(h.question_count, 1);
    assert_eq!(h.answer_record_count, 0);
}

#[test]
fn header_too_short_is_truncated() {
    let bytes = vec![0u8; 11];
    assert!(matches!(DnsHeader::decode(&bytes), Err(DnsError::TruncatedBuffer)));
}

#[test]
fn reply_header_standard_query() {
    let mut req = sample_header();
    req.operation_code = 0;
    let reply = DnsHeader::from_request_header(req);
    assert_eq!(reply.packet_identifier, req.packet_identifier);
    assert_eq!(reply.query_response_indicator, QueryResponse::ReplyPacket);
    assert_eq!(reply.response_code, 0);
    assert_eq!(reply.recursion_desired, req.recursion_desired);
    assert!(!reply.authoritative_answer);
    assert!(!reply.truncation);
    assert!(!reply.recursion_available);
    assert_eq!(reply.reserved, 0);
    assert_eq!(reply.question_count, req.question_count);
    assert_eq!(reply.answer_record_count, req.question_count);
    assert_eq!(reply.authority_record_count, 0);
    assert_eq!(reply.additional_record_count, 0);
}

#[test]
fn reply_header_other_opcode_is_not_implemented() {
    let mut req = sample_header();
    req.operation_code = 5;
    let reply = DnsHeader::from_request_header(req);
    assert_eq!(reply.response_code, 4);
}

#[test]
fn label_from_string() {
    let l = label("abc");
    assert_eq!(l.length, 3);
    assert_eq!(l.content, b"abc".to_vec());
}

#[test]
fn label_encode_exact_bytes() {
    let l = label("ab");
    assert_eq!(l.encode(), vec![2u8, b'a', b'b']);
}

#[test]
fn name_round_trip() {
    let name = vec![label("example"), label("com")];
    let mut bytes: Vec<u8> = Vec::new();
    encode_name(&name, &mut bytes);
    assert_eq!(bytes[0], 7);
    assert_eq!(*bytes.last().unwrap(), 0);
    let mut cursor: usize = 0;
    let decoded = decode_name(&bytes, &mut cursor).unwrap();
    assert_eq!(cursor, bytes.len());
    assert_eq!(decoded.len(), 2);
    assert_eq!(decoded[0].content, b"example".to_vec());
    assert_eq!(decoded[1].content, b"com".to_vec());
}

#[test]
fn label_length_63_round_trips() {
    let text: String = "a".repeat(63);
    let name = vec![label(&text)];
    let mut bytes: Vec<u8> = Vec::new();
    encode_name(&name, &mut bytes);
    assert_eq!(bytes.len(), 65);
    assert_eq!(bytes[0], 63);
    let mut cursor: usize = 0;
    let decoded = decode_name(&bytes, &mut cursor).unwrap();
    assert_eq!(decoded.len(), 1);
    assert_eq!(decoded[0].length, 63);
    assert_eq!(decoded[0].content, text.into_bytes());
}

#[test]
fn label_length_64_is_rejected() {
    let mut bytes = vec![64u8];
    bytes.extend(std::iter::repeat(b'a').take(64));
    bytes.push(0);
    let mut cursor: usize = 0;
    assert!(matches!(decode_name(&bytes, &mut cursor), Err(DnsError::MalformedName)));
}

#[test]
fn non_text_content_is_rejected() {
    let bytes = vec![1u8, 0x80, 0];
    let mut cursor: usize = 0;
    assert!(matches!(decode_name(&bytes, &mut cursor), Err(DnsError::MalformedName)));
}

#[test]
fn unterminated_name_is_rejected() {
    let bytes = vec![3u8, b'a', b'b', b'c'];
    let mut cursor: usize = 0;
    assert!(matches!(decode_name(&bytes, &mut cursor), Err(DnsError::MalformedName)));
}

#[test]
fn pointer_decodes_to_spelled_out_name() {
    // Twelve bytes of padding, the name "abc" spelled out at offset 12,
    // then a second name that is only a pointer back to offset 12.
    let mut bytes = vec![0u8; 12];
    bytes.extend(vec![3u8, b'a', b'b', b'c', 0u8]);
    bytes.extend(vec![0xc0u8, 12u8]);
    let mut cursor: usize = 12;
    let direct = decode_name(&bytes, &mut cursor).unwrap();
    assert_eq!(cursor, 17);
    let mut cursor2: usize = 17;
    let via_pointer = decode_name(&bytes, &mut cursor2).unwrap();
    assert_eq!(cursor2, 19);
    assert_eq!(direct.len(), 1);
    assert_eq!(via_pointer.len(), 1);
    assert_eq!(direct[0].content, via_pointer[0].content);
    assert_eq!(via_pointer[0].content, b"abc".to_vec());
}

#[test]
fn forward_pointer_is_rejected() {
    // A pointer may only lead strictly backward; one that points at or
    // past its own name is malformed.
    let bytes = vec![0xc0u8, 0u8];
    let mut cursor: usize = 0;
    assert!(matches!(decode_name(&bytes, &mut cursor), Err(DnsError::MalformedName)));
}

#[test]
fn question_round_trip() {
    let q = DnsQuestion {
        record_type: RecordType::MX,
        class: Class::CH,
        labels: vec![label("mail"), label("example"), label("org")],
    };
    let bytes = q.encode();
    let mut cursor: usize = 0;
    let decoded = DnsQuestion::decode_with_cursor(&bytes, &mut cursor).unwrap();
    assert_eq!(cursor, bytes.len());
    assert_eq!(decoded.record_type, RecordType::MX);
    assert_eq!(decoded.class, Class::CH);
    assert_eq!(decoded.labels.len(), 3);
    assert_eq!(decoded.labels[0].content, b"mail".to_vec());
    assert_eq!(decoded.labels[2].content, b"org".to_vec());
}

#[test]
fn unknown_record_type_code() {
    // Code 3 is not in the closed enumeration of record types.
    let bytes = vec![1u8, b'a', 0u8, 0x00, 0x03, 0x00, 0x01];
    assert!(matches!(DnsQuestion::decode(&bytes), Err(DnsError::UnknownRecordType)));
}

#[test]
fn unknown_class_code() {
    let bytes = vec![1u8, b'a', 0u8, 0x00, 0x01, 0x00, 0x05];
    assert!(matches!(DnsQuestion::decode(&bytes), Err(DnsError::UnknownClass)));
}

#[test]
fn record_type_codes() {
    assert_eq!(RecordType::A.code(), 1);
    assert_eq!(RecordType::MINFO.code(), 14);
    assert_eq!(RecordType::TXT.code(), 16);
    assert_eq!(Class::IN.code(), 1);
    assert_eq!(Class::HS.code(), 4);
}

#[test]
fn answer_round_trip() {
    let a = DnsAnswer {
        name: vec![label("host"), label("example")],
        record_type: RecordType::A,
        class: Class::IN,
        time_to_live: 3600,
        length: 4,
        data: vec![192, 168, 0, 1],
    };
    let bytes = a.encode();
    let mut cursor: usize = 0;
    let decoded = DnsAnswer::decode_with_cursor(&bytes, &mut cursor).unwrap();
    assert_eq!(cursor, bytes.len());
    assert_eq!(decoded.name.len(), 2);
    assert_eq!(decoded.name[0].content, b"host".to_vec());
    assert_eq!(decoded.record_type, RecordType::A);
    assert_eq!(decoded.class, Class::IN);
    assert_eq!(decoded.time_to_live, 3600);
    assert_eq!(decoded.length, 4);
    assert_eq!(decoded.data, vec![192, 168, 0, 1]);
}

#[test]
fn answer_truncated_rdata_is_rejected() {
    // Declared rdata length 6, but only four bytes follow.
    let mut bytes = vec![1u8, b'a', 0u8];
    bytes.extend(vec![0x00, 0x01, 0x00, 0x01]);
    bytes.extend(vec![0x00, 0x00, 0x0e, 0x10]);
    bytes.extend(vec![0x00, 0x06]);
    bytes.extend(vec![8u8, 8, 8, 8]);
    assert!(matches!(DnsAnswer::decode(&bytes), Err(DnsError::TruncatedBuffer)));
}

#[test]
fn packet_decode_reencode_29_bytes() {
    let mut bytes = vec![0x00u8, 0x01, 0x01, 0x00, 0x00, 0x01, 0x00, 0x00, 0x00, 0x00, 0x00, 0x00];
    bytes.extend(vec![
        0x07, 0x65, 0x78, 0x61, 0x6d, 0x70, 0x6c, 0x65, 0x03, 0x63, 0x6f, 0x6d, 0x00, 0x00, 0x01,
        0x00, 0x01,
    ]);
    assert_eq!(bytes.len(), 29);
    let packet = DnsPacket::decode(&bytes).unwrap();
    assert_eq!(packet.dns_header.packet_identifier, 1);
    assert!(packet.dns_header.recursion_desired);
    assert_eq!(packet.dns_header.question_count, 1);
    assert_eq!(packet.dns_questions.len(), 1);
    assert_eq!(packet.dns_answers.len(), 0);
    let q = &packet.dns_questions[0];
    assert_eq!(q.labels.len(), 2);
    assert_eq!(q.labels[0].content, b"example".to_vec());
    assert_eq!(q.labels[1].content, b"com".to_vec());
    assert_eq!(q.record_type, RecordType::A);
    assert_eq!(q.class, Class::IN);
    let reencoded = packet.encode();
    assert_eq!(reencoded, bytes);
}

#[test]
fn packet_two_questions_second_compressed() {
    // Two questions for the same name "abc"; the second name is encoded
    // purely as a two-byte pointer to the first at offset 12.
    let mut bytes = vec![0x00u8, 0x01, 0x00, 0x00, 0x00, 0x02, 0x00, 0x00, 0x00, 0x00, 0x00, 0x00];
    bytes.extend(vec![3u8, b'a', b'b', b'c', 0u8, 0x00, 0x01, 0x00, 0x01]);
    bytes.extend(vec![0xc0u8, 12u8, 0x00, 0x01, 0x00, 0x01]);
    let packet = DnsPacket::decode(&bytes).unwrap();
    assert_eq!(packet.dns_questions.len(), 2);
    for q in &packet.dns_questions {
        assert_eq!(q.labels.len(), 1);
        assert_eq!(q.labels[0].content, b"abc".to_vec());
    }
}

#[test]
fn packet_reencode_after_compression_is_field_equal() {
    // Decoding a compressed message, encoding it (which spells every name
    // out), and decoding again gives the same message field for field.
    let mut bytes = vec![0x00u8, 0x01, 0x00, 0x00, 0x00, 0x02, 0x00, 0x00, 0x00, 0x00, 0x00, 0x00];
    bytes.extend(vec![3u8, b'a', b'b', b'c', 0u8, 0x00, 0x01, 0x00, 0x01]);
    bytes.extend(vec![0xc0u8, 12u8, 0x00, 0x01, 0x00, 0x01]);
    let first = DnsPacket::decode(&bytes).unwrap();
    let reencoded = first.encode();
    let second = DnsPacket::decode(&reencoded).unwrap();
    assert_eq!(second.dns_header, first.dns_header);
    assert_eq!(second.dns_questions.len(), first.dns_questions.len());
    for (a, b) in second.dns_questions.iter().zip(first.dns_questions.iter()) {
        assert_eq!(a.record_type, b.record_type);
        assert_eq!(a.class, b.class);
        assert_eq!(a.labels.len(), b.labels.len());
        for (la, lb) in a.labels.iter().zip(b.labels.iter()) {
            assert_eq!(la.content, lb.content);
        }
    }
    assert_eq!(second.dns_answers.len(), 0);
}

#[test]
fn packet_decode_with_trailing_padding() {
    // A datagram buffer is usually longer than the message it holds; the
    // bytes past the announced sections are ignored.
    let mut buf = [0u8; 512];
    let message = vec![
        0x00u8, 0x01, 0x01, 0x00, 0x00, 0x01, 0x00, 0x00, 0x00, 0x00, 0x00, 0x00, 0x03, b'a',
        b'b', b'c', 0x00, 0x00, 0x01, 0x00, 0x01,
    ];
    buf[..message.len()].copy_from_slice(&message);
    let packet = DnsPacket::decode(&buf).unwrap();
    assert_eq!(packet.dns_questions.len(), 1);
    assert_eq!(packet.encode(), message);
}

#[test]
fn split_preserves_order_and_forces_one_question() {
    let bytes = two_question_request();
    let packet = DnsPacket::decode(&bytes).unwrap();
    let parts = packet.split();
    assert_eq!(parts.len(), 2);
    for part in &parts {
        assert_eq!(part.dns_header.question_count, 1);
        assert_eq!(part.dns_questions.len(), 1);
        assert_eq!(part.dns_answers.len(), 0);
        assert_eq!(part.dns_header.packet_identifier, packet.dns_header.packet_identifier);
    }
    assert_eq!(parts[0].dns_questions[0].labels[0].content, b"aa".to_vec());
    assert_eq!(parts[1].dns_questions[0].labels[0].content, b"bb".to_vec());
}

#[test]
fn split_of_no_questions_is_empty() {
    let bytes = vec![0x00u8, 0x07, 0x00, 0x00, 0x00, 0x00, 0x00, 0x00, 0x00, 0x00, 0x00, 0x00];
    let packet = DnsPacket::decode(&bytes).unwrap();
    assert!(packet.split().is_empty());
}

#[test]
fn merge_of_empty_list_fails() {
    assert!(matches!(DnsPacket::merge(Vec::new()), Err(DnsError::EmptyMergeSet)));
}

#[test]
fn split_then_merge_restores_questions_and_counts() {
    let bytes = two_question_request();
    let packet = DnsPacket::decode(&bytes).unwrap();
    let replies: Vec<DnsPacket> = packet
        .split()
        .into_iter()
        .map(generate_response)
        .collect();
    let merged = DnsPacket::merge(replies).unwrap();
    assert_eq!(merged.dns_header.question_count, 2);
    assert_eq!(merged.dns_header.answer_record_count, 2);
    assert_eq!(merged.dns_questions.len(), 2);
    assert_eq!(merged.dns_answers.len(), 2);
    assert_eq!(merged.dns_questions[0].labels[0].content, b"aa".to_vec());
    assert_eq!(merged.dns_questions[1].labels[0].content, b"bb".to_vec());
}

#[test]
fn generate_response_synthesizes_one_answer_per_question() {
    let bytes = two_question_request();
    let packet = DnsPacket::decode(&bytes).unwrap();
    let response = generate_response(packet);
    assert_eq!(response.dns_header.query_response_indicator, QueryResponse::ReplyPacket);
    assert_eq!(response.dns_header.response_code, 0);
    assert_eq!(response.dns_questions.len(), 2);
    assert_eq!(response.dns_answers.len(), 2);
    for (q, a) in response.dns_questions.iter().zip(response.dns_answers.iter()) {
        assert_eq!(a.name[0].content, q.labels[0].content);
        assert_eq!(a.record_type, RecordType::A);
        assert_eq!(a.class, Class::IN);
        assert_eq!(a.time_to_live, 60);
        assert_eq!(a.length, 4);
        assert_eq!(a.data, vec![8u8, 8, 8, 8]);
    }
}

fn two_question_request() -> Vec<u8> {
    let mut bytes = vec![0x12u8, 0x34, 0x01, 0x00, 0x00, 0x02, 0x00, 0x00, 0x00, 0x00, 0x00, 0x00];
    bytes.extend(vec![2u8, b'a', b'a', 0u8, 0x00, 0x01, 0x00, 0x01]);
    bytes.extend(vec![2u8, b'b', b'b', 0u8, 0x00, 0x01, 0x00, 0x01]);
    bytes
}
