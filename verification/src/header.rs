//! The fixed 12-byte message header: id, packed flag bits, and four
//! section counts, all big-endian.

use vstd::prelude::*;

use crate::bytes::{
    push_u16, read_u16, spec_u16_hi, spec_u16_lo, spec_u16_of, lemma_u16_round_trip,
};
use crate::err::{DnsError, ErrorKind};

verus! {

/// The unpacked header.  The six flag sub-fields and the zero field
/// are kept as small integers; `spec_wf` bounds each to its bit width.
#[derive(Debug, Clone, Copy, PartialEq, Eq, Structural)]
pub struct Header {
    pub id: u16,
    /// 0 for a query, 1 for a response.
    pub qr: u8,
    pub opcode: u8,
    pub aa: u8,
    pub tc: u8,
    /// Recursion desired.
    pub rd: u8,
    pub ra: u8,
    /// The reserved zero bits.
    pub z: u8,
    pub rcode: u8,
    pub qd_count: u16,
    pub an_count: u16,
    pub ns_count: u16,
    pub ar_count: u16,
}

impl Header {
    /// Each flag field fits its width in the packed 16-bit layout.
    pub open spec fn spec_wf(self) -> bool {
        self.qr <= 1 && self.opcode <= 15 && self.aa <= 1 && self.tc <= 1 && self.rd <= 1
            && self.ra <= 1 && self.z <= 7 && self.rcode <= 15
    }
}

/// The six flag sub-fields and the zero field packed into 16 bits:
/// qr:1 opcode:4 aa:1 tc:1 rd:1 ra:1 z:3 rcode:4, high bit first.
pub open spec fn spec_pack_flags(h: Header) -> u16 {
    ((h.qr as u16) << 15) | ((h.opcode as u16) << 11) | ((h.aa as u16) << 10) | ((h.tc as u16)
        << 9) | ((h.rd as u16) << 8) | ((h.ra as u16) << 7) | ((h.z as u16) << 4) | (
    h.rcode as u16)
}

pub open spec fn spec_flag_qr(f: u16) -> u8 {
    ((f >> 15) & 1) as u8
}

pub open spec fn spec_flag_opcode(f: u16) -> u8 {
    ((f >> 11) & 0xf) as u8
}

pub open spec fn spec_flag_aa(f: u16) -> u8 {
    ((f >> 10) & 1) as u8
}

pub open spec fn spec_flag_tc(f: u16) -> u8 {
    ((f >> 9) & 1) as u8
}

pub open spec fn spec_flag_rd(f: u16) -> u8 {
    ((f >> 8) & 1) as u8
}

pub open spec fn spec_flag_ra(f: u16) -> u8 {
    ((f >> 7) & 1) as u8
}

pub open spec fn spec_flag_z(f: u16) -> u8 {
    ((f >> 4) & 7) as u8
}

pub open spec fn spec_flag_rcode(f: u16) -> u8 {
    (f & 0xf) as u8
}

/// The header rebuilt from a packed flag word.
pub open spec fn spec_unpack_header(id: u16, f: u16, qd: u16, an: u16, ns: u16, ar: u16) -> Header {
    Header {
        id,
        qr: spec_flag_qr(f),
        opcode: spec_flag_opcode(f),
        aa: spec_flag_aa(f),
        tc: spec_flag_tc(f),
        rd: spec_flag_rd(f),
        ra: spec_flag_ra(f),
        z: spec_flag_z(f),
        rcode: spec_flag_rcode(f),
        qd_count: qd,
        an_count: an,
        ns_count: ns,
        ar_count: ar,
    }
}

/// The 12 wire bytes of a header.
pub open spec fn spec_encode_header(h: Header) -> Seq<u8> {
    let f = spec_pack_flags(h);
    seq![
        spec_u16_hi(h.id),
        spec_u16_lo(h.id),
        spec_u16_hi(f),
        spec_u16_lo(f),
        spec_u16_hi(h.qd_count),
        spec_u16_lo(h.qd_count),
        spec_u16_hi(h.an_count),
        spec_u16_lo(h.an_count),
        spec_u16_hi(h.ns_count),
        spec_u16_lo(h.ns_count),
        spec_u16_hi(h.ar_count),
        spec_u16_lo(h.ar_count),
    ]
}

/// Decoding a header consumes exactly 12 bytes, or fails as truncated
/// when fewer remain.
pub open spec fn spec_decode_header(b: Seq<u8>, pos: usize) -> Result<(Header, usize), DnsError> {
    if pos + 12 > b.len() {
        Err(DnsError { kind: ErrorKind::TruncatedInput, at: pos })
    } else {
        Ok(
            (
                spec_unpack_header(
                    spec_u16_of(b[pos as int], b[pos + 1]),
                    spec_u16_of(b[pos + 2], b[pos + 3]),
                    spec_u16_of(b[pos + 4], b[pos + 5]),
                    spec_u16_of(b[pos + 6], b[pos + 7]),
                    spec_u16_of(b[pos + 8], b[pos + 9]),
                    spec_u16_of(b[pos + 10], b[pos + 11]),
                ),
                (pos + 12) as usize,
            ),
        )
    }
}

/// Packing well-formed flag fields and unpacking them again gives the
/// fields back.
pub proof fn lemma_flags_round_trip(h: Header)
    requires
        h.spec_wf(),
    ensures
        spec_flag_qr(spec_pack_flags(h)) == h.qr,
        spec_flag_opcode(spec_pack_flags(h)) == h.opcode,
        spec_flag_aa(spec_pack_flags(h)) == h.aa,
        spec_flag_tc(spec_pack_flags(h)) == h.tc,
        spec_flag_rd(spec_pack_flags(h)) == h.rd,
        spec_flag_ra(spec_pack_flags(h)) == h.ra,
        spec_flag_z(spec_pack_flags(h)) == h.z,
        spec_flag_rcode(spec_pack_flags(h)) == h.rcode,
{
    let qr = h.qr;
    let opcode = h.opcode;
    let aa = h.aa;
    let tc = h.tc;
    let rd = h.rd;
    let ra = h.ra;
    let z = h.z;
    let rcode = h.rcode;
    let f = spec_pack_flags(h);
    assert(((f >> 15) & 1) as u8 == qr && ((f >> 11) & 0xf) as u8 == opcode && ((f >> 10)
        & 1) as u8 == aa && ((f >> 9) & 1) as u8 == tc && ((f >> 8) & 1) as u8 == rd && ((f >> 7)
        & 1) as u8 == ra && ((f >> 4) & 7) as u8 == z && (f & 0xf) as u8 == rcode) by (bit_vector)
        requires
            f == ((qr as u16) << 15) | ((opcode as u16) << 11) | ((aa as u16) << 10) | ((
            tc as u16) << 9) | ((rd as u16) << 8) | ((ra as u16) << 7) | ((z as u16) << 4) | (
            rcode as u16),
            qr <= 1,
            opcode <= 15,
            aa <= 1,
            tc <= 1,
            rd <= 1,
            ra <= 1,
            z <= 7,
            rcode <= 15,
    ;
}

/// Every header a decode produces is well formed.
pub proof fn lemma_unpack_wf(f: u16)
    ensures
        spec_flag_qr(f) <= 1,
        spec_flag_opcode(f) <= 15,
        spec_flag_aa(f) <= 1,
        spec_flag_tc(f) <= 1,
        spec_flag_rd(f) <= 1,
        spec_flag_ra(f) <= 1,
        spec_flag_z(f) <= 7,
        spec_flag_rcode(f) <= 15,
{
    assert(((f >> 15) & 1) <= 1 && ((f >> 11) & 0xf) <= 15 && ((f >> 10) & 1) <= 1 && ((f >> 9)
        & 1) <= 1 && ((f >> 8) & 1) <= 1 && ((f >> 7) & 1) <= 1 && ((f >> 4) & 7) <= 7 && (f
        & 0xf) <= 15) by (bit_vector);
}

/// Decoding a header needs exactly 12 bytes: it succeeds precisely
/// when 12 bytes remain, and otherwise fails as truncated input.
pub proof fn lemma_header_needs_twelve(b: Seq<u8>, pos: usize)
    ensures
        (spec_decode_header(b, pos) is Ok) <==> pos + 12 <= b.len(),
        pos + 12 > b.len() ==> spec_decode_header(b, pos) == Err::<(Header, usize), DnsError>(
            DnsError { kind: ErrorKind::TruncatedInput, at: pos },
        ),
{
}

/// Decoding the wire form of a well-formed header, wherever it lies in
/// a message, gives the header back and stops 12 bytes on.
pub proof fn lemma_header_round_trip(b: Seq<u8>, pos: usize, h: Header)
    requires
        h.spec_wf(),
        pos + 12 <= b.len(),
        b.subrange(pos as int, pos + 12) == spec_encode_header(h),
    ensures
        spec_decode_header(b, pos) == Ok::<(Header, usize), DnsError>((h, (pos + 12) as usize)),
{
    let enc = spec_encode_header(h);
    assert forall|k: int| 0 <= k < 12 implies b[pos + k] == enc[k] by {
        assert(b.subrange(pos as int, pos + 12)[k] == b[pos + k]);
    }
    assert(b[pos + 0] == enc[0]);
    lemma_u16_round_trip(h.id, 0, 0);
    lemma_u16_round_trip(spec_pack_flags(h), 0, 0);
    lemma_u16_round_trip(h.qd_count, 0, 0);
    lemma_u16_round_trip(h.an_count, 0, 0);
    lemma_u16_round_trip(h.ns_count, 0, 0);
    lemma_u16_round_trip(h.ar_count, 0, 0);
    lemma_flags_round_trip(h);
}

/// Reads the 12-byte header at `pos`.
pub fn decode_header(b: &Vec<u8>, pos: usize) -> (r: Result<(Header, usize), DnsError>)
    ensures
        r == spec_decode_header(b@, pos),
        r matches Ok((h, _)) ==> h.spec_wf(),
{
    let n = b.len();
    if pos > n || n - pos < 12 {
        return Err(DnsError::new(ErrorKind::TruncatedInput, pos));
    }
    let id = read_u16(b, pos);
    let f = read_u16(b, pos + 2);
    let qd = read_u16(b, pos + 4);
    let an = read_u16(b, pos + 6);
    let ns = read_u16(b, pos + 8);
    let ar = read_u16(b, pos + 10);
    let h = Header {
        id,
        qr: ((f >> 15) & 1) as u8,
        opcode: ((f >> 11) & 0xf) as u8,
        aa: ((f >> 10) & 1) as u8,
        tc: ((f >> 9) & 1) as u8,
        rd: ((f >> 8) & 1) as u8,
        ra: ((f >> 7) & 1) as u8,
        z: ((f >> 4) & 7) as u8,
        rcode: (f & 0xf) as u8,
        qd_count: qd,
        an_count: an,
        ns_count: ns,
        ar_count: ar,
    };
    proof {
        lemma_unpack_wf(f);
    }
    Ok((h, pos + 12))
}

/// Writes the 12 header bytes, packing the flag fields.
pub fn encode_header(h: &Header) -> (r: Vec<u8>)
    ensures
        r@ == spec_encode_header(*h),
{
    let f: u16 = ((h.qr as u16) << 15) | ((h.opcode as u16) << 11) | ((h.aa as u16) << 10) | ((
    h.tc as u16) << 9) | ((h.rd as u16) << 8) | ((h.ra as u16) << 7) | ((h.z as u16) << 4) | (
    h.rcode as u16);
    let mut out: Vec<u8> = Vec::new();
    push_u16(&mut out, h.id);
    push_u16(&mut out, f);
    push_u16(&mut out, h.qd_count);
    push_u16(&mut out, h.an_count);
    push_u16(&mut out, h.ns_count);
    push_u16(&mut out, h.ar_count);
    assert(out@ =~= spec_encode_header(*h));
    out
}

} // verus!
