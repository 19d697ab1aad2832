use dns_stub::header::{header_to_bytes, parse_header, DnsHeader};
use dns_stub::name::{decord_name, encode_dns_name};
use dns_stub::packet::parse_dns_packet;
use dns_stub::query::{build_query, build_query_with_id, first_answer_ipv4, Ipv4Address};
use dns_stub::question::{parse_question, question_to_bytes, Class, DnsQuestion, RecordType};
use dns_stub::record::parse_record;
use dns_stub::DnsError;

#[test]
fn test_header() {
    let h = DnsHeader {
        id: 0x1314,
        flags: 000000000,
        num_questions: 1,
        num_answers: 0,
        num_authorities: 0,
        num_additional: 0,
    };
    let h = header_to_bytes(h);
    println!("DNS Header -> {:02x?}", h)
}

#[test]
fn test_encode_dns_name() {
    let e = encode_dns_name(&b"google.com".to_vec()).unwrap();
    assert_eq!(e[0], 6);
    assert_eq!(e[7], 3);
}

#[test]
fn test_build_query() {
    let q = build_query(&b"www.example.com".to_vec(), RecordType::A).unwrap();
    println!("Build Query -> {:02x?}", q)
}

#[test]
fn test_decode_name() {
    let mut buf = vec![0u8; 1024];
    buf[0] = 3;
    buf[1] = 'w' as u8;
    buf[2] = 'w' as u8;
    buf[3] = 'w' as u8;
    buf[4] = 7;
    buf[5] = 'e' as u8;
    buf[6] = 'x' as u8;
    buf[7] = 'a' as u8;
    buf[8] = 'm' as u8;
    buf[9] = 'p' as u8;
    buf[10] = 'l' as u8;
    buf[11] = 'e' as u8;
    buf[12] = 3;
    buf[13] = 'c' as u8;
    buf[14] = 'o' as u8;
    buf[15] = 'm' as u8;
    buf[16] = 0;

    let (name, cursor) = decord_name(&buf, 0).unwrap();
    assert_eq!(name, b"www.example.com".to_vec());
    assert_eq!(cursor, 17);
}

#[test]
fn header_bytes_exact() {
    let h = DnsHeader {
        id: 0x1314,
        flags: 0x0100,
        num_questions: 1,
        num_answers: 0,
        num_authorities: 0,
        num_additional: 0,
    };
    assert_eq!(
        header_to_bytes(h),
        vec![0x13, 0x14, 0x01, 0x00, 0x00, 0x01, 0, 0, 0, 0, 0, 0]
    );
}

#[test]
fn question_bytes_exact() {
    let name = encode_dns_name(&b"ab".to_vec()).unwrap();
    assert_eq!(name, vec![2, 97, 98, 0]);
    let q = DnsQuestion {
        name,
        kind: RecordType::A,
        class: Class::In,
    };
    assert_eq!(question_to_bytes(q), vec![2, 97, 98, 0, 0, 1, 0, 1]);
}

#[test]
fn header_round_trip() {
    let h = DnsHeader {
        id: 0xabcd,
        flags: 0x0100,
        num_questions: 1,
        num_answers: 2,
        num_authorities: 3,
        num_additional: 4,
    };
    let bytes = header_to_bytes(h);
    assert_eq!(bytes.len(), 12);
    let (back, pos) = parse_header(&bytes, 0).unwrap();
    assert_eq!(back, h);
    assert_eq!(pos, 12);
}

#[test]
fn name_round_trip() {
    let name = b"www.example.com".to_vec();
    let encoded = encode_dns_name(&name).unwrap();
    let (decoded, cursor) = decord_name(&encoded, 0).unwrap();
    assert_eq!(decoded, name);
    assert_eq!(cursor, encoded.len());
}

#[test]
fn decode_compressed_pointer() {
    // A valid name at offset 0, then at offset 17 a name that is a single
    // pointer back to it.
    let mut buf = vec![0u8; 1024];
    let encoded = encode_dns_name(&b"www.example.com".to_vec()).unwrap();
    buf[..17].copy_from_slice(&encoded);
    buf[17] = 0xc0;
    buf[18] = 0x00;
    let (name, cursor) = decord_name(&buf, 17).unwrap();
    assert_eq!(name, b"www.example.com".to_vec());
    assert_eq!(cursor, 19);
}

#[test]
fn pointer_not_backwards_is_malformed() {
    // A pointer at offset 0 can target nothing before itself.
    let buf = vec![0xc0u8, 0x00];
    assert_eq!(decord_name(&buf, 0), Err(DnsError::MalformedName));
    // A forward pointer is rejected as well.
    let buf = vec![0xc0u8, 0x05, 0, 0, 0, 0];
    assert_eq!(decord_name(&buf, 0), Err(DnsError::MalformedName));
}

#[test]
fn label_length_byte_out_of_range_is_malformed() {
    // 64..=191 is neither a label length nor a pointer tag.
    let buf = vec![0x40u8, 0x00];
    assert_eq!(decord_name(&buf, 0), Err(DnsError::MalformedName));
}

#[test]
fn truncated_label_fails() {
    // Length byte 3 with only two bytes after it.
    let buf = vec![3u8, 'w' as u8, 'w' as u8];
    assert_eq!(decord_name(&buf, 0), Err(DnsError::Truncated));
}

#[test]
fn encode_rejects_long_label() {
    let mut name = vec!['a' as u8; 64];
    name.push('.' as u8);
    name.extend_from_slice(b"com");
    assert_eq!(encode_dns_name(&name), Err(DnsError::LabelTooLong));
}

#[test]
fn encode_longest_label() {
    let name = vec!['a' as u8; 63];
    let e = encode_dns_name(&name).unwrap();
    assert_eq!(e.len(), 65);
    assert_eq!(e[0], 63);
    assert_eq!(e[64], 0);
}

#[test]
fn encode_empty_name() {
    let e = encode_dns_name(&Vec::new()).unwrap();
    assert_eq!(e, vec![0u8, 0u8]);
}

#[test]
fn build_query_layout() {
    let q = build_query_with_id(&b"www.example.com".to_vec(), RecordType::A, 0x1234).unwrap();
    let (h, p) = parse_header(&q, 0).unwrap();
    assert_eq!(h.id, 0x1234);
    assert_eq!(h.flags, 0x0100);
    assert_eq!(h.num_questions, 1);
    assert_eq!(h.num_answers, 0);
    assert_eq!(h.num_authorities, 0);
    assert_eq!(h.num_additional, 0);
    let (question, end) = parse_question(&q, p).unwrap();
    assert_eq!(question.name, b"www.example.com".to_vec());
    assert_eq!(question.kind, RecordType::A);
    assert_eq!(question.class, Class::In);
    assert_eq!(end, q.len());
}

#[test]
fn build_query_random_id_layout() {
    let q = build_query(&b"www.example.com".to_vec(), RecordType::A).unwrap();
    let (h, p) = parse_header(&q, 0).unwrap();
    assert_eq!(h.flags, 0x0100);
    assert_eq!(h.num_questions, 1);
    assert_eq!(h.num_answers, 0);
    let (question, _) = parse_question(&q, p).unwrap();
    assert_eq!(question.name, b"www.example.com".to_vec());
}

#[test]
fn unknown_record_type_fails() {
    // Name "a", type 2, class 1.
    let buf = vec![1u8, 'a' as u8, 0, 0, 2, 0, 1];
    assert_eq!(parse_question(&buf, 0), Err(DnsError::UnknownRecordType));
}

#[test]
fn unknown_class_fails() {
    // Name "a", type 1, class 2.
    let buf = vec![1u8, 'a' as u8, 0, 0, 1, 0, 2];
    assert_eq!(parse_question(&buf, 0), Err(DnsError::UnknownClass));
}

#[test]
fn record_data_past_end_is_truncated() {
    // Root name, type 1, class 1, ttl 0, declared data length 100, but only
    // two data bytes present: the parse must fail rather than read past the
    // end.
    let mut buf = vec![0u8];
    buf.extend_from_slice(&[0, 1, 0, 1, 0, 0, 0, 0, 0, 100]);
    buf.extend_from_slice(&[9, 9]);
    assert_eq!(parse_record(&buf, 0), Err(DnsError::Truncated));
}

#[test]
fn record_with_exact_data_parses() {
    let mut buf = vec![1u8, 'a' as u8, 0];
    buf.extend_from_slice(&[0, 1, 0, 1, 0, 0, 1, 44, 0, 4]);
    buf.extend_from_slice(&[93, 184, 216, 34]);
    let (rec, end) = parse_record(&buf, 0).unwrap();
    assert_eq!(rec.name, b"a".to_vec());
    assert_eq!(rec.kind, RecordType::A);
    assert_eq!(rec.class, Class::In);
    assert_eq!(rec.ttl, 300);
    assert_eq!(rec.data, vec![93, 184, 216, 34]);
    assert_eq!(end, buf.len());
}

fn sample_response(data: &[u8]) -> Vec<u8> {
    // Header: id 0x1234, flags 0x8180, one question, one answer.
    let mut buf = vec![0x12u8, 0x34, 0x81, 0x80, 0, 1, 0, 1, 0, 0, 0, 0];
    // Question: www.example.com, type A, class IN.
    let name = encode_dns_name(&b"www.example.com".to_vec()).unwrap();
    buf.extend_from_slice(&name);
    buf.extend_from_slice(&[0, 1, 0, 1]);
    // Answer: a pointer back to the question's name, type A, class IN,
    // ttl 300, then the data.
    buf.extend_from_slice(&[0xc0, 0x0c]);
    buf.extend_from_slice(&[0, 1, 0, 1, 0, 0, 1, 44]);
    buf.push(0);
    buf.push(data.len() as u8);
    buf.extend_from_slice(data);
    buf
}

#[test]
fn parse_whole_response() {
    let buf = sample_response(&[93, 184, 216, 34]);
    let packet = parse_dns_packet(&buf).unwrap();
    assert_eq!(packet.header.id, 0x1234);
    assert_eq!(packet.header.num_questions, 1);
    assert_eq!(packet.header.num_answers, 1);
    assert_eq!(packet.questions.len(), 1);
    assert_eq!(packet.questions[0].name, b"www.example.com".to_vec());
    assert_eq!(packet.answers.len(), 1);
    assert_eq!(packet.answers[0].name, b"www.example.com".to_vec());
    assert_eq!(packet.answers[0].ttl, 300);
    assert_eq!(packet.answers[0].data, vec![93, 184, 216, 34]);
    assert_eq!(packet.authorities.len(), 0);
    assert_eq!(packet.additional.len(), 0);
    let ip = first_answer_ipv4(&packet).unwrap();
    assert_eq!(ip, Ipv4Address { o1: 93, o2: 184, o3: 216, o4: 34 });
}

#[test]
fn trailing_bytes_are_ignored() {
    // A response received into a larger zero-filled buffer still parses.
    let mut buf = sample_response(&[93, 184, 216, 34]);
    let used = buf.len();
    buf.resize(1024, 0);
    let packet = parse_dns_packet(&buf).unwrap();
    assert_eq!(packet.answers.len(), 1);
    let _ = used;
}

#[test]
fn no_answers_fails() {
    // Header announcing nothing but one question.
    let mut buf = vec![0x12u8, 0x34, 0x81, 0x80, 0, 1, 0, 0, 0, 0, 0, 0];
    let name = encode_dns_name(&b"www.example.com".to_vec()).unwrap();
    buf.extend_from_slice(&name);
    buf.extend_from_slice(&[0, 1, 0, 1]);
    let packet = parse_dns_packet(&buf).unwrap();
    assert_eq!(first_answer_ipv4(&packet), Err(DnsError::NoAnswers));
}

#[test]
fn answer_data_of_wrong_length_fails() {
    let buf = sample_response(&[93, 184, 216]);
    let packet = parse_dns_packet(&buf).unwrap();
    assert_eq!(first_answer_ipv4(&packet), Err(DnsError::BadAnswerData));
}

#[test]
fn short_header_is_truncated() {
    let buf = vec![0u8; 11];
    assert_eq!(parse_dns_packet(&buf), Err(DnsError::Truncated));
}
