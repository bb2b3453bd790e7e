use dns_wire::err::ErrorKind;
use dns_wire::message::{Message, QUERY_ID};
use dns_wire::qtype::{QClass, QType};

#[test]
fn builders_set_type_and_class() {
    let cases: Vec<(Message, QType)> = vec![
        (Message::a(b"example.com".to_vec()), QType::A),
        (Message::aaaa(b"example.com".to_vec()), QType::AAAA),
        (Message::cname(b"example.com".to_vec()), QType::CNAME),
        (Message::ns(b"example.com".to_vec()), QType::NS),
        (Message::mx(b"example.com".to_vec()), QType::MX),
        (Message::soa(b"example.com".to_vec()), QType::SOA),
        (Message::txt(b"example.com".to_vec()), QType::TXT),
    ];
    for (m, qt) in cases {
        assert_eq!(m.question.qtype, qt);
        assert_eq!(m.question.qclass, QClass::IN);
        assert_eq!(m.question.qname, b"example.com".to_vec());
        assert_eq!(m.header.qr, 0);
        assert_eq!(m.header.opcode, 0);
        assert_eq!(m.header.rd, 1);
        assert_eq!(m.header.qd_count, 1);
        assert_eq!(m.header.an_count, 0);
        assert_eq!(m.header.ns_count, 0);
        assert_eq!(m.header.ar_count, 0);
        assert!(m.records.is_empty());
    }
}

#[test]
fn serialize_writes_expected_bytes() {
    let m = Message::a(b"ab".to_vec());
    let wire = m.serialize().unwrap();
    let mut expected = vec![
        (QUERY_ID >> 8) as u8,
        (QUERY_ID & 0xff) as u8,
        0x01, // rd bit in the high flag byte's low bit
        0x00,
        0x00,
        0x01, // qd_count = 1
        0x00,
        0x00,
        0x00,
        0x00,
        0x00,
        0x00,
    ];
    expected.extend_from_slice(&[2, b'a', b'b', 0]);
    expected.extend_from_slice(&[0x00, 0x01, 0x00, 0x01]);
    assert_eq!(wire, expected);
}

#[test]
fn serialize_rejects_invalid_name() {
    let m = Message::a(b"bad..name".to_vec());
    let e = m.serialize().unwrap_err();
    assert_eq!(e.kind, ErrorKind::MalformedName);
    let too_long = Message::a(vec![b'x'; 256]);
    assert_eq!(
        too_long.serialize().unwrap_err().kind,
        ErrorKind::MalformedName
    );
}

#[test]
fn query_encode_decode_round_trip() {
    let m = Message::txt(b"www.example.com".to_vec());
    let wire = m.serialize().unwrap();
    let (back, end) = Message::deserialize(&wire, 0).unwrap();
    assert_eq!(end, wire.len());
    assert_eq!(back.header, m.header);
    assert_eq!(back.question.qname, m.question.qname);
    assert_eq!(back.question.qtype, m.question.qtype);
    assert_eq!(back.question.qclass, m.question.qclass);
    assert!(back.records.is_empty());
}

#[test]
fn response_with_answers_decodes_in_wire_order() {
    // A response to an A query, with two A records that point back at
    // the question's name.
    let q = Message::a(b"example.com".to_vec());
    let mut wire = q.serialize().unwrap();
    // mark it a response carrying 2 answers
    wire[2] |= 0x80; // qr
    wire[7] = 2; // an_count
    let name_at = 12u16;
    for i in 0..2u8 {
        wire.extend_from_slice(&[0xc0, name_at as u8]);
        wire.extend_from_slice(&[0x00, 0x01, 0x00, 0x01]);
        wire.extend_from_slice(&[0x00, 0x00, 0x0e, 0x10]);
        wire.extend_from_slice(&[0x00, 0x04]);
        wire.extend_from_slice(&[10, 0, 0, i]);
    }
    let (m, end) = Message::deserialize(&wire, 0).unwrap();
    assert_eq!(end, wire.len());
    assert_eq!(m.header.qr, 1);
    assert_eq!(m.header.an_count, 2);
    assert_eq!(m.records.len(), 2);
    for (i, r) in m.records.iter().enumerate() {
        assert_eq!(r.name, b"example.com".to_vec());
        assert_eq!(r.qtype, QType::A);
        assert_eq!(r.ttl, 3600);
        assert_eq!(
            r.rdata,
            dns_wire::record::RData::A(vec![10, 0, 0, i as u8])
        );
    }
}

#[test]
fn question_qtype_255_is_unsupported() {
    let q = Message::a(b"ab".to_vec());
    let mut wire = q.serialize().unwrap();
    // overwrite the question's type code with 255
    let at = wire.len() - 4;
    wire[at] = 0x00;
    wire[at + 1] = 0xff;
    let e = Message::deserialize(&wire, 0).unwrap_err();
    assert_eq!(e.kind, ErrorKind::UnsupportedCode);
    assert_eq!(e.at, at);
}

#[test]
fn truncated_answer_section_fails() {
    let q = Message::a(b"ab".to_vec());
    let mut wire = q.serialize().unwrap();
    wire[7] = 1; // an_count = 1 but no record bytes follow
    let e = Message::deserialize(&wire, 0).unwrap_err();
    assert_eq!(e.kind, ErrorKind::TruncatedInput);
}
