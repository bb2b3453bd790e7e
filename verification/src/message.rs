//! The message aggregate: header, one question, and the decoded
//! records, with the query builders and the top-level encode and
//! decode entry points.

use vstd::prelude::*;

use crate::err::{res_matches, DnsError, ErrorKind};
use crate::header::{
    decode_header, encode_header, lemma_header_round_trip, spec_decode_header, spec_encode_header,
    Header,
};
use crate::name::{lemma_encode_name_len, name_is_valid, valid_dotted_name};
use crate::qtype::{QClass, QType};
use crate::question::{
    decode_question, encode_question, lemma_question_round_trip, spec_decode_question,
    spec_encode_question, Question, QuestionV,
};
use crate::record::{decode_record, spec_decode_record, Record, RecordV};

verus! {

/// The identifier written into outbound queries.
pub const QUERY_ID: u16 = 0x2b1a;

/// A whole message.  Outbound messages come from a query builder and
/// have no records; inbound ones are produced only by decoding.
#[derive(Debug, Clone, PartialEq, Eq)]
pub struct Message {
    pub header: Header,
    pub question: Question,
    pub records: Vec<Record>,
}

/// The mathematical image of a message.
#[verifier::ext_equal]
pub struct MessageV {
    pub header: Header,
    pub question: QuestionV,
    pub records: Seq<RecordV>,
}

/// The images of a sequence of records.
pub open spec fn seq_view(rs: Seq<Record>) -> Seq<RecordV> {
    rs.map_values(|r: Record| r@)
}

impl View for Message {
    type V = MessageV;

    open spec fn view(&self) -> MessageV {
        MessageV { header: self.header, question: self.question@, records: seq_view(self.records@) }
    }
}

/// The header a query builder writes: a standard query with recursion
/// desired, one question and no records.
pub open spec fn spec_query_header() -> Header {
    Header {
        id: QUERY_ID,
        qr: 0,
        opcode: 0,
        aa: 0,
        tc: 0,
        rd: 1,
        ra: 0,
        z: 0,
        rcode: 0,
        qd_count: 1,
        an_count: 0,
        ns_count: 0,
        ar_count: 0,
    }
}

/// The message a query builder returns for a name and a record type.
pub open spec fn spec_query(qname: Seq<u8>, qt: QType) -> MessageV {
    MessageV {
        header: spec_query_header(),
        question: QuestionV { qname, qtype: qt, qclass: QClass::IN },
        records: Seq::<RecordV>::empty(),
    }
}

/// A message on the wire, as this client transmits it: the header and
/// the question.  Records are never serialized; only queries go out.
pub open spec fn spec_encode_message(m: MessageV) -> Seq<u8> {
    spec_encode_header(m.header) + spec_encode_question(m.question)
}

/// Decoding `count` records in wire order.
pub open spec fn spec_decode_records(b: Seq<u8>, pos: usize, count: u16) -> Result<
    (Seq<RecordV>, usize),
    DnsError,
>
    decreases count,
{
    if count == 0 {
        Ok((Seq::<RecordV>::empty(), pos))
    } else {
        match spec_decode_record(b, pos) {
            Err(e) => Err(e),
            Ok((r, p1)) => match spec_decode_records(b, p1, (count - 1) as u16) {
                Err(e) => Err(e),
                Ok((rs, end)) => Ok((seq![r] + rs, end)),
            },
        }
    }
}

/// The strictly linear decode pipeline: header, then the question,
/// then exactly `an_count` records.
pub open spec fn spec_decode_message(b: Seq<u8>, pos: usize) -> Result<(MessageV, usize), DnsError> {
    match spec_decode_header(b, pos) {
        Err(e) => Err(e),
        Ok((h, p1)) => match spec_decode_question(b, p1) {
            Err(e) => Err(e),
            Ok((q, p2)) => match spec_decode_records(b, p2, h.an_count) {
                Err(e) => Err(e),
                Ok((rs, p3)) => Ok((MessageV { header: h, question: q, records: rs }, p3)),
            },
        },
    }
}

impl Message {
    fn query(domain: Vec<u8>, qt: QType) -> (m: Message)
        ensures
            m@ == spec_query(domain@, qt),
    {
        let m = Message {
            header: Header {
                id: QUERY_ID,
                qr: 0,
                opcode: 0,
                aa: 0,
                tc: 0,
                rd: 1,
                ra: 0,
                z: 0,
                rcode: 0,
                qd_count: 1,
                an_count: 0,
                ns_count: 0,
                ar_count: 0,
            },
            question: Question { qname: domain, qtype: qt, qclass: QClass::IN },
            records: Vec::new(),
        };
        proof {
            assert(m@ =~~= spec_query(domain@, qt));
        }
        m
    }

    /// A query for the A (IPv4 address) records of a domain.
    pub fn a(domain: Vec<u8>) -> (m: Message)
        ensures
            m@ == spec_query(domain@, QType::A),
    {
        Message::query(domain, QType::A)
    }

    /// A query for the AAAA (IPv6 address) records of a domain.
    pub fn aaaa(domain: Vec<u8>) -> (m: Message)
        ensures
            m@ == spec_query(domain@, QType::AAAA),
    {
        Message::query(domain, QType::AAAA)
    }

    /// A query for the CNAME records of a domain.
    pub fn cname(domain: Vec<u8>) -> (m: Message)
        ensures
            m@ == spec_query(domain@, QType::CNAME),
    {
        Message::query(domain, QType::CNAME)
    }

    /// A query for the NS (name server) records of a domain.
    pub fn ns(domain: Vec<u8>) -> (m: Message)
        ensures
            m@ == spec_query(domain@, QType::NS),
    {
        Message::query(domain, QType::NS)
    }

    /// A query for the MX (mail exchange) records of a domain.
    pub fn mx(domain: Vec<u8>) -> (m: Message)
        ensures
            m@ == spec_query(domain@, QType::MX),
    {
        Message::query(domain, QType::MX)
    }

    /// A query for the SOA records of a domain.
    pub fn soa(domain: Vec<u8>) -> (m: Message)
        ensures
            m@ == spec_query(domain@, QType::SOA),
    {
        Message::query(domain, QType::SOA)
    }

    /// A query for the TXT records of a domain.
    pub fn txt(domain: Vec<u8>) -> (m: Message)
        ensures
            m@ == spec_query(domain@, QType::TXT),
    {
        Message::query(domain, QType::TXT)
    }

    /// Encodes this message for transmission: the header and the
    /// question.  Fails exactly when the question's name violates the
    /// label or total length constraints.
    pub fn serialize(&self) -> (r: Result<Vec<u8>, DnsError>)
        ensures
            match r {
                Ok(v) => valid_dotted_name(self.question.qname@) && v@ == spec_encode_message(
                    self@,
                ),
                Err(e) => !valid_dotted_name(self.question.qname@) && e == (DnsError {
                    kind: ErrorKind::MalformedName,
                    at: 0,
                }),
            },
    {
        if !name_is_valid(&self.question.qname) {
            return Err(DnsError::new(ErrorKind::MalformedName, 0));
        }
        let mut out = encode_header(&self.header);
        let q = encode_question(&self.question);
        let qn = q.len();
        let mut i: usize = 0;
        while i < qn
            invariant
                i <= qn,
                qn == q@.len(),
                out@ == spec_encode_header(self.header) + q@.subrange(0, i as int),
            decreases qn - i,
        {
            out.push(q[i]);
            i += 1;
            assert(out@ =~= spec_encode_header(self.header) + q@.subrange(0, i as int));
        }
        assert(out@ =~= spec_encode_message(self@));
        Ok(out)
    }

    /// Decodes a whole message from `b` starting at `pos`: the header,
    /// the question, then exactly `an_count` records in wire order.
    /// Returns the message and the final cursor position.
    pub fn deserialize(b: &Vec<u8>, pos: usize) -> (r: Result<(Message, usize), DnsError>)
        ensures
            res_matches(r, spec_decode_message(b@, pos)),
    {
        let (header, p1) = match decode_header(b, pos) {
            Ok(ok) => ok,
            Err(e) => {
                return Err(e);
            },
        };
        let (question, p2) = match decode_question(b, p1) {
            Ok(ok) => ok,
            Err(e) => {
                return Err(e);
            },
        };
        let total = header.an_count;
        let mut records: Vec<Record> = Vec::new();
        let mut p = p2;
        let mut i: u16 = 0;
        while i < total
            invariant
                i <= total,
                total == header.an_count,
                spec_decode_header(b@, pos) == Ok::<(Header, usize), DnsError>((header, p1)),
                spec_decode_question(b@, p1) == Ok::<(QuestionV, usize), DnsError>((question@, p2)),
                match spec_decode_records(b@, p, (total - i) as u16) {
                    Ok((rs, end)) => spec_decode_records(b@, p2, total) == Ok::<
                        (Seq<RecordV>, usize),
                        DnsError,
                    >((seq_view(records@) + rs, end)),
                    Err(e) => spec_decode_records(b@, p2, total) == Err::<
                        (Seq<RecordV>, usize),
                        DnsError,
                    >(e),
                },
            decreases total - i,
        {
            let ghost prev = records@;
            match decode_record(b, p) {
                Err(e) => {
                    return Err(e);
                },
                Ok((rec, pnew)) => {
                    records.push(rec);
                    p = pnew;
                    i += 1;
                    proof {
                        assert(seq_view(records@) =~= seq_view(prev) + seq![rec@]);
                        if let Ok((rs, end)) = spec_decode_records(b@, p, (total - i) as u16) {
                            assert(seq_view(prev) + (seq![rec@] + rs) =~= seq_view(records@) + rs);
                        }
                    }
                },
            }
        }
        proof {
            assert(seq_view(records@) + Seq::<RecordV>::empty() =~= seq_view(records@));
        }
        Ok((Message { header, question, records }, p))
    }
}

/// Encode then decode is the identity on every message a query
/// builder produces: the decoded message has the same header (id and
/// all flag and count fields) and the same question (name, type and
/// class), and its records are empty, the whole encoding consumed.
pub proof fn lemma_query_round_trip(qname: Seq<u8>, qt: QType)
    requires
        valid_dotted_name(qname),
    ensures
        ({
            let m = spec_query(qname, qt);
            let enc = spec_encode_message(m);
            spec_decode_message(enc, 0) == Ok::<(MessageV, usize), DnsError>(
                (m, enc.len() as usize),
            )
        }),
{
    let m = spec_query(qname, qt);
    let enc = spec_encode_message(m);
    lemma_encode_name_len(qname);
    assert(enc.subrange(0, 12) =~= spec_encode_header(m.header));
    lemma_header_round_trip(enc, 0, m.header);
    assert(enc.subrange(12, 12 + qname.len() as int + 6) =~= spec_encode_question(m.question));
    lemma_question_round_trip(enc, 12, m.question);
}

} // verus!
