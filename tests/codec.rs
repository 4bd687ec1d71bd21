use dns_responder::{
    build_response, decode_header, decode_labels, decode_query, decode_question, decode_questions,
    encoded_length, example_com_response, server_step, DecodeError, QuestionSize, ServerAction,
    ServerEvent, ServerState,
};

fn example_com_query() -> Vec<u8> {
    vec![
        0xE2, 0x61, 0x01, 0x20, 0x00, 0x01, 0x00, 0x00, 0x00, 0x00, 0x00, 0x01, 0x07, 0x65, 0x78,
        0x61, 0x6D, 0x70, 0x6C, 0x65, 0x03, 0x63, 0x6F, 0x6D, 0x00, 0x00, 0x01, 0x00, 0x01, 0x00,
        0x00, 0x29, 0x04, 0xD0, 0x00, 0x00, 0x00, 0x00, 0x00, 0x0C, 0x00, 0x0A, 0x00, 0x08, 0x1D,
        0xB6, 0x2D, 0x09, 0x30, 0xD8, 0x1A, 0xFB,
    ]
}

fn short_query() -> Vec<u8> {
    vec![
        0x12, 0x34, 0x01, 0x20, 0x00, 0x01, 0x00, 0x00, 0x00, 0x00, 0x00, 0x00, 0x07, b'e', b'x',
        b'a', b'm', b'p', b'l', b'e', 0x03, b'c', b'o', b'm', 0x00, 0x00, 0x01, 0x00, 0x01,
    ]
}

/// Wire encoding of a name, written out by hand for the tests.
fn encode(labels: &[&str]) -> Vec<u8> {
    let mut out = Vec::new();
    for l in labels {
        out.push(l.len() as u8);
        out.extend_from_slice(l.as_bytes());
    }
    out.push(0);
    out
}

#[test]
fn test_decode_questions() {
    let buf: Vec<u8> = vec![0x2, 'x' as u8, 'y' as u8, 0x1, 'z' as u8, 0x0, 0x01, 0x56, 0x02, 0xFF];
    let questions = decode_questions(&buf).unwrap();
    assert_eq!(1, questions.len());
    let question = &questions[0];
    let expected = &vec!["xy".to_string(), "z".to_string()];
    assert_eq!(expected, &question.qname);
    assert_eq!(342, question.qtype);
    assert_eq!(767, question.qclass);
    assert_eq!(3 + 2 + 1 + 2 + 2, questions.size())
}

#[test]
fn test_decode_query() {
    let query = decode_query(&example_com_query()).unwrap();
    let questions = query.questions;
    assert_eq!(1, questions.len());
    let actual = &questions[0].qname;
    let expected = &vec!["example".to_string(), "com".to_string()];
    assert_eq!(expected, actual)
}

#[test]
fn decode_labels_two_labels() {
    let buf = vec![0x02, b'x', b'y', 0x01, b'z', 0x00];
    let (labels, end) = decode_labels(&buf, 0).unwrap();
    assert_eq!(labels, vec!["xy".to_string(), "z".to_string()]);
    assert_eq!(end, 6);
}

#[test]
fn decode_labels_empty_name() {
    let (labels, end) = decode_labels(&[0x00, 0xAA], 0).unwrap();
    assert!(labels.is_empty());
    assert_eq!(end, 1);
}

#[test]
fn decode_labels_at_offset() {
    let buf = vec![0xFF, 0xFF, 0x03, b'w', b'w', b'w', 0x00];
    let (labels, end) = decode_labels(&buf, 2).unwrap();
    assert_eq!(labels, vec!["www".to_string()]);
    assert_eq!(end, 7);
}

#[test]
fn decode_labels_multibyte_text() {
    let buf = vec![0x03, b'c', 0xC3, 0xA9, 0x00];
    let (labels, end) = decode_labels(&buf, 0).unwrap();
    assert_eq!(labels, vec!["c\u{e9}".to_string()]);
    assert_eq!(end, 5);
    assert_eq!(encoded_length(&labels), 5);
}

#[test]
fn decode_labels_round_trip() {
    let names: Vec<Vec<&str>> = vec![
        vec![],
        vec!["a"],
        vec!["example", "com"],
        vec!["a-very-long-label-with-exactly-sixty-three-bytes-in-it-abcdefgh", "org"],
        vec!["\u{e9}t\u{e9}", "fr"],
    ];
    for name in names {
        let mut buf = encode(&name);
        let enc_len = buf.len();
        buf.extend_from_slice(&[0x00, 0x01, 0xC0]);
        let (labels, end) = decode_labels(&buf, 0).unwrap();
        let expected: Vec<String> = name.iter().map(|s| s.to_string()).collect();
        assert_eq!(labels, expected);
        assert_eq!(end, enc_len);
        assert_eq!(encoded_length(&labels), end);
    }
}

#[test]
fn encoded_length_values() {
    assert_eq!(encoded_length(&vec![]), 1);
    assert_eq!(encoded_length(&vec!["example".to_string(), "com".to_string()]), 13);
    assert_eq!(encoded_length(&vec!["xy".to_string(), "z".to_string()]), 6);
}

#[test]
fn decode_labels_compression_pointer() {
    assert_eq!(decode_labels(&[0xC0, 0x0C], 0), Err(DecodeError::UnsupportedCompression));
    let buf = vec![0x01, b'a', 0xC0, 0x0C];
    assert_eq!(decode_labels(&buf, 0), Err(DecodeError::UnsupportedCompression));
    assert_eq!(decode_labels(&[0xFF], 0), Err(DecodeError::UnsupportedCompression));
}

#[test]
fn decode_labels_underrun() {
    assert_eq!(decode_labels(&[], 0), Err(DecodeError::BufferUnderrun));
    assert_eq!(decode_labels(&[0x00], 1), Err(DecodeError::BufferUnderrun));
    assert_eq!(decode_labels(&[0x03, b'a', b'b'], 0), Err(DecodeError::BufferUnderrun));
    assert_eq!(decode_labels(&[0x01, b'a'], 0), Err(DecodeError::BufferUnderrun));
}

#[test]
fn decode_labels_invalid_text() {
    assert_eq!(decode_labels(&[0x02, 0xFF, 0xFE, 0x00], 0), Err(DecodeError::InvalidLabelEncoding));
}

#[test]
fn decode_header_fields() {
    let h = decode_header(&example_com_query()).unwrap();
    assert_eq!(h.id, 0xE261);
    assert_eq!(h.flags, 0x0120);
    assert_eq!(h.qdcount, 1);
    assert_eq!(h.ancount, 0);
    assert_eq!(h.nscount, 0);
    assert_eq!(h.arcount, 1);
    assert_eq!(decode_header(&[0u8; 11]), Err(DecodeError::BufferUnderrun));
}

#[test]
fn decode_question_reports_end() {
    let (q, end) = decode_question(&example_com_query(), 12).unwrap();
    assert_eq!(q.qname, vec!["example".to_string(), "com".to_string()]);
    assert_eq!(q.qtype, 1);
    assert_eq!(q.qclass, 1);
    assert_eq!(end, 29);
    assert_eq!(q.size(), 17);
}

#[test]
fn decode_query_multiple_questions() {
    let mut buf = short_query();
    buf[5] = 0x02;
    assert!(matches!(decode_query(&buf), Err(DecodeError::MultipleQuestionsUnsupported)));
    buf[5] = 0x00;
    assert!(matches!(decode_query(&buf), Err(DecodeError::MultipleQuestionsUnsupported)));
}

#[test]
fn decode_query_section_end() {
    let query = decode_query(&short_query()).unwrap();
    assert_eq!(query.header.id, 0x1234);
    assert_eq!(query.question_index_end(), 29);
}

#[test]
fn truncated_query_underruns() {
    let full = short_query();
    for k in 0..full.len() {
        assert!(matches!(decode_query(&full[..k]), Err(DecodeError::BufferUnderrun)), "prefix {}", k);
        assert!(matches!(build_response(&full[..k]), Err(DecodeError::BufferUnderrun)));
    }
    assert!(decode_query(&full).is_ok());
}

#[test]
fn build_response_end_to_end() {
    let q = short_query();
    let r = build_response(&q).unwrap();
    assert_eq!(&r[0..2], &[0x12, 0x34]);
    assert_eq!(&r[6..8], &[0x00, 0x01]);
    assert_eq!(&r[r.len() - 4..], &[1, 1, 1, 1]);
}

#[test]
fn build_response_full_bytes() {
    let r = build_response(&example_com_query()).unwrap();
    let expected: Vec<u8> = vec![
        0xE2, 0x61, 0x84, 0x00, 0x00, 0x01, 0x00, 0x01, 0x00, 0x00, 0x00, 0x00, 0x07, 0x65, 0x78,
        0x61, 0x6D, 0x70, 0x6C, 0x65, 0x03, 0x63, 0x6F, 0x6D, 0x00, 0x00, 0x01, 0x00, 0x01, 0xC0,
        0x0C, 0x00, 0x01, 0x00, 0x01, 0x00, 0x00, 0x02, 0x58, 0x00, 0x04, 0x01, 0x01, 0x01, 0x01,
    ];
    assert_eq!(r, expected);
    assert_eq!(r[2] & 0x80, 0x80);
}

#[test]
fn build_response_matches_recorded_reply() {
    let mut q = example_com_query();
    q[0] = 0x18;
    q[1] = 0x23;
    let r = build_response(&q).unwrap();
    let recorded = example_com_response();
    assert_eq!(r.len(), recorded.len());
    // The recorded reply has a TTL of 400 seconds; everything else agrees.
    assert_eq!(&r[..37], &recorded[..37]);
    assert_eq!(&r[37..39], &[0x02, 0x58]);
    assert_eq!(&recorded[37..39], &[0x01, 0x90]);
    assert_eq!(&r[39..], &recorded[39..]);
}

#[test]
fn build_response_rejects_compressed_name() {
    let mut q = short_query();
    q[12] = 0xC0;
    assert_eq!(build_response(&q), Err(DecodeError::UnsupportedCompression));
}

#[test]
fn server_step_transitions() {
    let (s, a) = server_step(ServerState::Bound, ServerEvent::Datagram(short_query()));
    assert_eq!(s, ServerState::Bound);
    match a {
        ServerAction::Reply(bytes) => assert_eq!(bytes, build_response(&short_query()).unwrap()),
        _ => panic!("expected a reply"),
    }
    let (s, a) = server_step(ServerState::Bound, ServerEvent::Datagram(vec![0x01]));
    assert_eq!(s, ServerState::Bound);
    assert!(matches!(a, ServerAction::Ignore));
    let (s, a) = server_step(ServerState::Bound, ServerEvent::SocketError { socket_usable: true });
    assert_eq!(s, ServerState::Bound);
    assert!(matches!(a, ServerAction::Ignore));
    let (s, a) = server_step(ServerState::Bound, ServerEvent::SocketError { socket_usable: false });
    assert_eq!(s, ServerState::Stopped);
    assert!(matches!(a, ServerAction::Halt));
    let (s, a) = server_step(ServerState::Bound, ServerEvent::StopRequested);
    assert_eq!(s, ServerState::Stopped);
    assert!(matches!(a, ServerAction::Halt));
    let (s, a) = server_step(ServerState::Stopped, ServerEvent::Datagram(short_query()));
    assert_eq!(s, ServerState::Stopped);
    assert!(matches!(a, ServerAction::Halt));
}
