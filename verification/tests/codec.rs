use dns_wire::err::ErrorKind;
use dns_wire::header::decode_header;
use dns_wire::name::{decode_name, encode_name, name_is_valid};
use dns_wire::qtype::{QClass, QType};
use dns_wire::record::{decode_record, RData, Record};

fn google_com_record() -> Vec<u8> {
    vec![
        0x06, 0x67, 0x6f, 0x6f, 0x67, 0x6c, 0x65, 0x03, 0x63, 0x6f, 0x6d, 0x00, 0x00, 0x01, 0x00,
        0x01, 0x00, 0x00, 0x0e, 0x10, 0x00, 0x04, 0x01, 0x02, 0x03, 0x04,
    ]
}

#[test]
fn parse_record() {
    let raw = google_com_record();
    let (actual, end) = decode_record(&raw, 0).unwrap();

    let expected = Record::new(
        b"google.com".to_vec(),
        QType::A,
        QClass::IN,
        3600,
        4,
        RData::A(vec![1, 2, 3, 4]),
    );

    assert_eq!(expected, actual);
    assert_eq!(end, raw.len());
}

#[test]
fn header_decodes_from_twelve_bytes() {
    let raw = vec![0u8; 12];
    let (h, end) = decode_header(&raw, 0).unwrap();
    assert_eq!(end, 12);
    assert_eq!(h.id, 0);
    assert_eq!(h.qd_count, 0);
}

#[test]
fn header_fails_on_eleven_bytes() {
    let raw = vec![0u8; 11];
    let e = decode_header(&raw, 0).unwrap_err();
    assert_eq!(e.kind, ErrorKind::TruncatedInput);
    assert_eq!(e.at, 0);
}

#[test]
fn header_unpacks_flag_bits() {
    // id 0xabcd, qr=1 opcode=2 aa=0 tc=1 rd=1 ra=1 z=0 rcode=3, counts 1..4
    let f: u16 = (1 << 15) | (2 << 11) | (1 << 9) | (1 << 8) | (1 << 7) | 3;
    let raw = vec![
        0xab,
        0xcd,
        (f >> 8) as u8,
        (f & 0xff) as u8,
        0,
        1,
        0,
        2,
        0,
        3,
        0,
        4,
    ];
    let (h, _) = decode_header(&raw, 0).unwrap();
    assert_eq!(h.id, 0xabcd);
    assert_eq!(h.qr, 1);
    assert_eq!(h.opcode, 2);
    assert_eq!(h.aa, 0);
    assert_eq!(h.tc, 1);
    assert_eq!(h.rd, 1);
    assert_eq!(h.ra, 1);
    assert_eq!(h.z, 0);
    assert_eq!(h.rcode, 3);
    assert_eq!(h.qd_count, 1);
    assert_eq!(h.an_count, 2);
    assert_eq!(h.ns_count, 3);
    assert_eq!(h.ar_count, 4);
}

#[test]
fn pointer_resolves_to_earlier_name() {
    // "google.com" at offset 0, then a pointer C0 00 elsewhere.
    let mut raw = google_com_record();
    raw.push(0xc0);
    raw.push(0x00);
    let at = raw.len() - 2;
    let (name, end) = decode_name(&raw, at).unwrap();
    assert_eq!(name, b"google.com".to_vec());
    assert_eq!(end, at + 2);
}

#[test]
fn labels_then_pointer_join_with_dot() {
    // "com" at 0; "google" + pointer to 0 at 5.
    let raw = vec![
        3, b'c', b'o', b'm', 0, 6, b'g', b'o', b'o', b'g', b'l', b'e', 0xc0, 0x00,
    ];
    let (name, end) = decode_name(&raw, 5).unwrap();
    assert_eq!(name, b"google.com".to_vec());
    assert_eq!(end, 14);
}

#[test]
fn pointer_to_visited_offset_is_malformed() {
    // A pointer at offset 0 that points back to offset 0.
    let raw = vec![0xc0, 0x00];
    let e = decode_name(&raw, 0).unwrap_err();
    assert_eq!(e.kind, ErrorKind::MalformedName);
}

#[test]
fn pointer_cycle_of_two_is_malformed() {
    // 0 -> 2 -> 0: each offset is entered once, the second entry fails.
    let raw = vec![0xc0, 0x02, 0xc0, 0x00];
    let e = decode_name(&raw, 0).unwrap_err();
    assert_eq!(e.kind, ErrorKind::MalformedName);
}

#[test]
fn reserved_length_bits_are_malformed() {
    let raw = vec![0x80, b'a', 0x00];
    let e = decode_name(&raw, 0).unwrap_err();
    assert_eq!(e.kind, ErrorKind::MalformedName);
}

#[test]
fn name_longer_than_255_is_malformed() {
    // Five 63-byte labels assemble to 319 bytes.
    let mut raw = Vec::new();
    for _ in 0..5 {
        raw.push(63u8);
        raw.extend_from_slice(&[b'x'; 63]);
    }
    raw.push(0);
    let e = decode_name(&raw, 0).unwrap_err();
    assert_eq!(e.kind, ErrorKind::MalformedName);
}

#[test]
fn truncated_label_fails() {
    let raw = vec![5, b'a', b'b'];
    let e = decode_name(&raw, 0).unwrap_err();
    assert_eq!(e.kind, ErrorKind::TruncatedInput);
}

#[test]
fn name_encode_decode_round_trip() {
    let name = b"www.example-site.co.uk".to_vec();
    assert!(name_is_valid(&name));
    let wire = encode_name(&name);
    assert_eq!(wire.len(), name.len() + 2);
    let (back, end) = decode_name(&wire, 0).unwrap();
    assert_eq!(back, name);
    assert_eq!(end, wire.len());
}

#[test]
fn name_validity_limits() {
    assert!(name_is_valid(&b"a".to_vec()));
    assert!(!name_is_valid(&Vec::new()));
    assert!(!name_is_valid(&b"a..b".to_vec()));
    assert!(!name_is_valid(&b".ab".to_vec()));
    assert!(!name_is_valid(&b"ab.".to_vec()));
    let label_63: Vec<u8> = vec![b'x'; 63];
    assert!(name_is_valid(&label_63));
    let label_64: Vec<u8> = vec![b'x'; 64];
    assert!(!name_is_valid(&label_64));
    // four labels of 63 bytes: 255 with the three dots
    let mut long = Vec::new();
    for i in 0..4 {
        if i > 0 {
            long.push(b'.');
        }
        long.extend_from_slice(&[b'y'; 63]);
    }
    assert_eq!(long.len(), 255);
    assert!(name_is_valid(&long));
    long.extend_from_slice(b".zz");
    assert!(!name_is_valid(&long));
}

#[test]
fn record_rdata_shorter_than_declared_fails() {
    // rd_length says 4 but only 2 bytes remain.
    let raw = vec![
        1, b'a', 0, 0x00, 0x01, 0x00, 0x01, 0x00, 0x00, 0x0e, 0x10, 0x00, 0x04, 0x01, 0x02,
    ];
    let e = decode_record(&raw, 0).unwrap_err();
    assert_eq!(e.kind, ErrorKind::TruncatedInput);
}

#[test]
fn record_rdata_length_mismatch_fails() {
    // An A payload is 4 bytes, but the record declares 5.
    let raw = vec![
        1, b'a', 0, 0x00, 0x01, 0x00, 0x01, 0x00, 0x00, 0x0e, 0x10, 0x00, 0x05, 0x01, 0x02, 0x03,
        0x04, 0x05,
    ];
    let e = decode_record(&raw, 0).unwrap_err();
    assert_eq!(e.kind, ErrorKind::LengthMismatch);
}

#[test]
fn record_qtype_255_is_unsupported() {
    let raw = vec![
        1, b'a', 0, 0x00, 0xff, 0x00, 0x01, 0x00, 0x00, 0x0e, 0x10, 0x00, 0x04, 0x01, 0x02, 0x03,
        0x04,
    ];
    let e = decode_record(&raw, 0).unwrap_err();
    assert_eq!(e.kind, ErrorKind::UnsupportedCode);
    assert_eq!(e.at, 3);
}

#[test]
fn record_qclass_2_is_unsupported() {
    let raw = vec![
        1, b'a', 0, 0x00, 0x01, 0x00, 0x02, 0x00, 0x00, 0x0e, 0x10, 0x00, 0x04, 0x01, 0x02, 0x03,
        0x04,
    ];
    let e = decode_record(&raw, 0).unwrap_err();
    assert_eq!(e.kind, ErrorKind::UnsupportedCode);
    assert_eq!(e.at, 5);
}

#[test]
fn txt_record_is_one_opaque_string() {
    let raw = vec![
        1, b't', 0, 0x00, 0x10, 0x00, 0x01, 0x00, 0x00, 0x00, 0x3c, 0x00, 0x05, b'h', b'e', b'l',
        b'l', b'o',
    ];
    let (r, end) = decode_record(&raw, 0).unwrap();
    assert_eq!(r.qtype, QType::TXT);
    assert_eq!(r.ttl, 60);
    assert_eq!(r.rd_length, 5);
    assert_eq!(r.rdata, RData::TXT(b"hello".to_vec()));
    assert_eq!(end, raw.len());
}

#[test]
fn mx_record_has_preference_and_exchange() {
    // preference 10, exchange "mx.a" written without compression: 4+2+2+2 wire bytes
    let raw = vec![
        1, b'a', 0, 0x00, 0x0f, 0x00, 0x01, 0x00, 0x00, 0x00, 0x3c, 0x00, 0x08, 0x00, 0x0a, 2,
        b'm', b'x', 1, b'a', 0,
    ];
    let (r, end) = decode_record(&raw, 0).unwrap();
    assert_eq!(
        r.rdata,
        RData::MX {
            preference: 10,
            exchange: b"mx.a".to_vec()
        }
    );
    assert_eq!(end, raw.len());
}

#[test]
fn soa_record_has_two_names_and_five_fields() {
    let mut raw = vec![1, b'a', 0, 0x00, 0x06, 0x00, 0x01, 0x00, 0x00, 0x00, 0x3c, 0x00, 0x1a];
    raw.extend_from_slice(&[2, b'n', b's', 0]); // mname "ns"
    raw.extend_from_slice(&[0xc0, 0x00]); // rname: pointer to "a"
    raw.extend_from_slice(&[0, 0, 0, 1]); // serial
    raw.extend_from_slice(&[0, 0, 0, 2]); // refresh
    raw.extend_from_slice(&[0, 0, 0, 3]); // retry
    raw.extend_from_slice(&[0, 0, 0, 4]); // expire
    raw.extend_from_slice(&[0, 0, 0, 5]); // minimum
    let (r, end) = decode_record(&raw, 0).unwrap();
    assert_eq!(
        r.rdata,
        RData::SOA {
            mname: b"ns".to_vec(),
            rname: b"a".to_vec(),
            serial: 1,
            refresh: 2,
            retry: 3,
            expire: 4,
            minimum: 5,
        }
    );
    assert_eq!(r.rd_length, 26);
    assert_eq!(end, raw.len());
}

#[test]
fn aaaa_record_is_sixteen_bytes() {
    let mut raw = vec![1, b'a', 0, 0x00, 0x1c, 0x00, 0x01, 0x00, 0x00, 0x0e, 0x10, 0x00, 0x10];
    let addr: Vec<u8> = (1..=16).collect();
    raw.extend_from_slice(&addr);
    let (r, end) = decode_record(&raw, 0).unwrap();
    assert_eq!(r.qtype, QType::AAAA);
    assert_eq!(r.rdata, RData::AAAA(addr));
    assert_eq!(end, raw.len());
}

#[test]
fn ttl_zero_decodes_as_zero() {
    let raw = vec![
        1, b'a', 0, 0x00, 0x01, 0x00, 0x01, 0x00, 0x00, 0x00, 0x00, 0x00, 0x04, 9, 9, 9, 9,
    ];
    let (r, _) = decode_record(&raw, 0).unwrap();
    assert_eq!(r.ttl, 0);
}
