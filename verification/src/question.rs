//! The question codec: one {name, type, class} query descriptor.

use vstd::prelude::*;

use crate::bytes::{
    push_u16, read_u16, spec_u16_hi, spec_u16_lo, spec_u16_of, lemma_u16_round_trip,
};
use crate::err::{res_matches, DnsError, ErrorKind};
use crate::name::{
    decode_name, encode_name, lemma_decode_name_end, lemma_name_round_trip, spec_decode_name,
    spec_encode_name, valid_dotted_name, valid_labels, lemma_encode_name_len,
};
use crate::qtype::{
    lemma_qclass_table, lemma_qtype_table, spec_qclass_code, spec_qclass_of, spec_qtype_code,
    spec_qtype_of, QClass, QType,
};

verus! {

/// What is being asked for: a domain name, a record type, a class.
#[derive(Debug, Clone, PartialEq, Eq)]
pub struct Question {
    pub qname: Vec<u8>,
    pub qtype: QType,
    pub qclass: QClass,
}

/// The mathematical image of a question: the name as a byte sequence.
#[verifier::ext_equal]
pub struct QuestionV {
    pub qname: Seq<u8>,
    pub qtype: QType,
    pub qclass: QClass,
}

impl View for Question {
    type V = QuestionV;

    open spec fn view(&self) -> QuestionV {
        QuestionV { qname: self.qname@, qtype: self.qtype, qclass: self.qclass }
    }
}

/// A question on the wire: the encoded name, then the type code and
/// the class code, two big-endian bytes each.
pub open spec fn spec_encode_question(q: QuestionV) -> Seq<u8> {
    let tc = spec_qtype_code(q.qtype);
    let cc = spec_qclass_code(q.qclass);
    spec_encode_name(q.qname) + seq![
        spec_u16_hi(tc),
        spec_u16_lo(tc),
        spec_u16_hi(cc),
        spec_u16_lo(cc),
    ]
}

/// Decoding a question: the name, then the type and class codes, each
/// looked up in its closed table; an unrecognized code is a failure,
/// never a default.
pub open spec fn spec_decode_question(b: Seq<u8>, pos: usize) -> Result<
    (QuestionV, usize),
    DnsError,
> {
    match spec_decode_name(b, pos) {
        Err(e) => Err(e),
        Ok((nm, p1)) => if p1 + 2 > b.len() {
            Err(DnsError { kind: ErrorKind::TruncatedInput, at: p1 })
        } else {
            match spec_qtype_of(spec_u16_of(b[p1 as int], b[p1 + 1])) {
                None => Err(DnsError { kind: ErrorKind::UnsupportedCode, at: p1 }),
                Some(qt) => if p1 + 4 > b.len() {
                    Err(DnsError { kind: ErrorKind::TruncatedInput, at: (p1 + 2) as usize })
                } else {
                    match spec_qclass_of(spec_u16_of(b[p1 + 2], b[p1 + 3])) {
                        None => Err(
                            DnsError { kind: ErrorKind::UnsupportedCode, at: (p1 + 2) as usize },
                        ),
                        Some(qc) => Ok(
                            (QuestionV { qname: nm, qtype: qt, qclass: qc }, (p1 + 4) as usize),
                        ),
                    }
                },
            }
        },
    }
}

/// Reads the question starting at `pos`.
pub fn decode_question(b: &Vec<u8>, pos: usize) -> (r: Result<(Question, usize), DnsError>)
    ensures
        res_matches(r, spec_decode_question(b@, pos)),
{
    let n = b.len();
    let (nm, p1) = match decode_name(b, pos) {
        Ok(ok) => ok,
        Err(e) => {
            return Err(e);
        },
    };
    proof {
        lemma_decode_name_end(b@, pos, Seq::<usize>::empty());
    }
    if n - p1 < 2 {
        return Err(DnsError::new(ErrorKind::TruncatedInput, p1));
    }
    let qt = match QType::of_code(read_u16(b, p1)) {
        Some(qt) => qt,
        None => {
            return Err(DnsError::new(ErrorKind::UnsupportedCode, p1));
        },
    };
    if n - p1 < 4 {
        return Err(DnsError::new(ErrorKind::TruncatedInput, p1 + 2));
    }
    let qc = match QClass::of_code(read_u16(b, p1 + 2)) {
        Some(qc) => qc,
        None => {
            return Err(DnsError::new(ErrorKind::UnsupportedCode, p1 + 2));
        },
    };
    Ok((Question { qname: nm, qtype: qt, qclass: qc }, p1 + 4))
}

/// Writes the question: the uncompressed name, then the two codes.
pub fn encode_question(q: &Question) -> (r: Vec<u8>)
    requires
        valid_labels(q.qname@),
    ensures
        r@ == spec_encode_question(q@),
{
    let mut out = encode_name(&q.qname);
    push_u16(&mut out, q.qtype.code());
    push_u16(&mut out, q.qclass.code());
    assert(out@ =~= spec_encode_question(q@));
    out
}

/// Encode then decode is the identity on questions with a valid name:
/// decoding the wire form of a question, wherever it lies in a
/// message, gives the question back.
pub proof fn lemma_question_round_trip(b: Seq<u8>, pos: usize, q: QuestionV)
    requires
        b.len() <= usize::MAX,
        valid_dotted_name(q.qname),
        pos + q.qname.len() + 6 <= b.len(),
        b.subrange(pos as int, pos + q.qname.len() + 6) == spec_encode_question(q),
    ensures
        spec_decode_question(b, pos) == Ok::<(QuestionV, usize), DnsError>(
            (q, (pos + q.qname.len() + 6) as usize),
        ),
{
    let enc = spec_encode_question(q);
    let nl = q.qname.len() as int;
    lemma_encode_name_len(q.qname);
    assert forall|k: int| 0 <= k < nl + 6 implies b[pos + k] == enc[k] by {
        assert(b.subrange(pos as int, pos + nl + 6)[k] == b[pos + k]);
    }
    assert(b.subrange(pos as int, pos + nl + 2) =~= spec_encode_name(q.qname)) by {
        assert forall|k: int| 0 <= k < nl + 2 implies b.subrange(pos as int, pos + nl + 2)[k]
            == spec_encode_name(q.qname)[k] by {
            assert(b[pos + k] == enc[k]);
        }
    }
    lemma_name_round_trip(b, pos, q.qname);
    let p1 = pos + nl + 2;
    let tc = spec_qtype_code(q.qtype);
    let cc = spec_qclass_code(q.qclass);
    assert(b[p1] == spec_u16_hi(tc) && b[p1 + 1] == spec_u16_lo(tc) && b[p1 + 2] == spec_u16_hi(cc)
        && b[p1 + 3] == spec_u16_lo(cc)) by {
        assert(b[pos + (nl + 2)] == enc[nl + 2]);
        assert(b[pos + (nl + 3)] == enc[nl + 3]);
        assert(b[pos + (nl + 4)] == enc[nl + 4]);
        assert(b[pos + (nl + 5)] == enc[nl + 5]);
    }
    lemma_u16_round_trip(tc, 0, 0);
    lemma_u16_round_trip(cc, 0, 0);
    lemma_qtype_table(q.qtype, 0);
    lemma_qclass_table(q.qclass, 0);
}

} // verus!
