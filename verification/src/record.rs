//! The resource-record codec: name, type, class, ttl and declared
//! RDATA length, then the type-specific RDATA payload.

use vstd::prelude::*;

use crate::bytes::{read_u16, read_u32, spec_u16_of, spec_u32_of};
use crate::err::{res_matches, DnsError, ErrorKind};
use crate::name::{decode_name, lemma_decode_name_end, spec_decode_name};
use crate::qtype::{spec_qclass_of, spec_qtype_of, QClass, QType};

verus! {

/// The type-specific payload of a record.  Addresses are kept as raw
/// big-endian bytes: 4 for A, 16 for AAAA.  TXT is one opaque string
/// of the declared length.
#[derive(Debug, Clone, PartialEq, Eq)]
pub enum RData {
    A(Vec<u8>),
    CNAME(Vec<u8>),
    TXT(Vec<u8>),
    AAAA(Vec<u8>),
    NS(Vec<u8>),
    MX { preference: u16, exchange: Vec<u8> },
    SOA {
        mname: Vec<u8>,
        rname: Vec<u8>,
        serial: u32,
        refresh: u32,
        retry: u32,
        expire: u32,
        minimum: u32,
    },
}

/// The mathematical image of an RDATA payload.
#[verifier::ext_equal]
pub enum RDataV {
    A(Seq<u8>),
    CNAME(Seq<u8>),
    TXT(Seq<u8>),
    AAAA(Seq<u8>),
    NS(Seq<u8>),
    MX { preference: u16, exchange: Seq<u8> },
    SOA {
        mname: Seq<u8>,
        rname: Seq<u8>,
        serial: u32,
        refresh: u32,
        retry: u32,
        expire: u32,
        minimum: u32,
    },
}

impl View for RData {
    type V = RDataV;

    open spec fn view(&self) -> RDataV {
        match self {
            RData::A(v) => RDataV::A(v@),
            RData::CNAME(v) => RDataV::CNAME(v@),
            RData::TXT(v) => RDataV::TXT(v@),
            RData::AAAA(v) => RDataV::AAAA(v@),
            RData::NS(v) => RDataV::NS(v@),
            RData::MX { preference, exchange } => RDataV::MX {
                preference: *preference,
                exchange: exchange@,
            },
            RData::SOA { mname, rname, serial, refresh, retry, expire, minimum } => RDataV::SOA {
                mname: mname@,
                rname: rname@,
                serial: *serial,
                refresh: *refresh,
                retry: *retry,
                expire: *expire,
                minimum: *minimum,
            },
        }
    }
}

/// One resource record.  `ttl` is the cache lifetime in seconds, zero
/// meaning "do not cache"; `rd_length` is the declared length of the
/// RDATA region, which decoding holds the payload to.
#[derive(Debug, Clone, PartialEq, Eq)]
pub struct Record {
    pub name: Vec<u8>,
    pub qtype: QType,
    pub qclass: QClass,
    pub ttl: u32,
    pub rd_length: u16,
    pub rdata: RData,
}

/// The mathematical image of a record.
#[verifier::ext_equal]
pub struct RecordV {
    pub name: Seq<u8>,
    pub qtype: QType,
    pub qclass: QClass,
    pub ttl: u32,
    pub rd_length: u16,
    pub rdata: RDataV,
}

impl View for Record {
    type V = RecordV;

    open spec fn view(&self) -> RecordV {
        RecordV {
            name: self.name@,
            qtype: self.qtype,
            qclass: self.qclass,
            ttl: self.ttl,
            rd_length: self.rd_length,
            rdata: self.rdata@,
        }
    }
}

impl Record {
    pub fn new(
        name: Vec<u8>,
        qtype: QType,
        qclass: QClass,
        ttl: u32,
        rd_length: u16,
        rdata: RData,
    ) -> (r: Record)
        ensures
            r@ == (RecordV {
                name: name@,
                qtype,
                qclass,
                ttl,
                rd_length,
                rdata: rdata@,
            }),
    {
        Record { name, qtype, qclass, ttl, rd_length, rdata }
    }
}

/// Decoding the RDATA of one record, dispatched on its type: raw
/// address bytes for A and AAAA, a possibly compressed name for CNAME
/// and NS, the declared length of opaque bytes for TXT, a preference
/// and a name for MX, two names and five 32-bit fields for SOA.
pub open spec fn spec_decode_rdata(b: Seq<u8>, pos: usize, qt: QType, rd_length: u16) -> Result<
    (RDataV, usize),
    DnsError,
> {
    match qt {
        QType::A => if pos + 4 > b.len() {
            Err(DnsError { kind: ErrorKind::TruncatedInput, at: pos })
        } else {
            Ok((RDataV::A(b.subrange(pos as int, pos + 4)), (pos + 4) as usize))
        },
        QType::AAAA => if pos + 16 > b.len() {
            Err(DnsError { kind: ErrorKind::TruncatedInput, at: pos })
        } else {
            Ok((RDataV::AAAA(b.subrange(pos as int, pos + 16)), (pos + 16) as usize))
        },
        QType::CNAME => match spec_decode_name(b, pos) {
            Ok((nm, end)) => Ok((RDataV::CNAME(nm), end)),
            Err(e) => Err(e),
        },
        QType::NS => match spec_decode_name(b, pos) {
            Ok((nm, end)) => Ok((RDataV::NS(nm), end)),
            Err(e) => Err(e),
        },
        QType::TXT => if pos + rd_length > b.len() {
            Err(DnsError { kind: ErrorKind::TruncatedInput, at: pos })
        } else {
            Ok((RDataV::TXT(b.subrange(pos as int, pos + rd_length)), (pos + rd_length) as usize))
        },
        QType::MX => if pos + 2 > b.len() {
            Err(DnsError { kind: ErrorKind::TruncatedInput, at: pos })
        } else {
            match spec_decode_name(b, (pos + 2) as usize) {
                Ok((ex, end)) => Ok(
                    (
                        RDataV::MX {
                            preference: spec_u16_of(b[pos as int], b[pos + 1]),
                            exchange: ex,
                        },
                        end,
                    ),
                ),
                Err(e) => Err(e),
            }
        },
        QType::SOA => match spec_decode_name(b, pos) {
            Err(e) => Err(e),
            Ok((mn, p1)) => match spec_decode_name(b, p1) {
                Err(e) => Err(e),
                Ok((rn, p2)) => if p2 + 20 > b.len() {
                    Err(DnsError { kind: ErrorKind::TruncatedInput, at: p2 })
                } else {
                    Ok(
                        (
                            RDataV::SOA {
                                mname: mn,
                                rname: rn,
                                serial: spec_u32_of(b[p2 as int], b[p2 + 1], b[p2 + 2], b[p2 + 3]),
                                refresh: spec_u32_of(b[p2 + 4], b[p2 + 5], b[p2 + 6], b[p2 + 7]),
                                retry: spec_u32_of(b[p2 + 8], b[p2 + 9], b[p2 + 10], b[p2 + 11]),
                                expire: spec_u32_of(b[p2 + 12], b[p2 + 13], b[p2 + 14], b[p2 + 15]),
                                minimum: spec_u32_of(
                                    b[p2 + 16],
                                    b[p2 + 17],
                                    b[p2 + 18],
                                    b[p2 + 19],
                                ),
                            },
                            (p2 + 20) as usize,
                        ),
                    )
                },
            },
        },
    }
}

/// Decoding one record: name, type, class, ttl, declared length, then
/// the RDATA; if the RDATA did not consume exactly the declared
/// length, the record is rejected.
pub open spec fn spec_decode_record(b: Seq<u8>, pos: usize) -> Result<(RecordV, usize), DnsError> {
    match spec_decode_name(b, pos) {
        Err(e) => Err(e),
        Ok((nm, p1)) => if p1 + 2 > b.len() {
            Err(DnsError { kind: ErrorKind::TruncatedInput, at: p1 })
        } else {
            match spec_qtype_of(spec_u16_of(b[p1 as int], b[p1 + 1])) {
                None => Err(DnsError { kind: ErrorKind::UnsupportedCode, at: p1 }),
                Some(qt) => if p1 + 4 > b.len() {
                    Err(DnsError { kind: ErrorKind::TruncatedInput, at: (p1 + 2) as usize })
                } else {
                    match spec_qclass_of(spec_u16_of(b[p1 + 2], b[p1 + 3])) {
                        None => Err(
                            DnsError { kind: ErrorKind::UnsupportedCode, at: (p1 + 2) as usize },
                        ),
                        Some(qc) => if p1 + 8 > b.len() {
                            Err(
                                DnsError {
                                    kind: ErrorKind::TruncatedInput,
                                    at: (p1 + 4) as usize,
                                },
                            )
                        } else if p1 + 10 > b.len() {
                            Err(
                                DnsError {
                                    kind: ErrorKind::TruncatedInput,
                                    at: (p1 + 8) as usize,
                                },
                            )
                        } else {
                            let ttl = spec_u32_of(b[p1 + 4], b[p1 + 5], b[p1 + 6], b[p1 + 7]);
                            let rdl = spec_u16_of(b[p1 + 8], b[p1 + 9]);
                            let p2 = (p1 + 10) as usize;
                            match spec_decode_rdata(b, p2, qt, rdl) {
                                Err(e) => Err(e),
                                Ok((rd, p3)) => if p3 - p2 != rdl {
                                    Err(DnsError { kind: ErrorKind::LengthMismatch, at: p2 })
                                } else {
                                    Ok(
                                        (
                                            RecordV {
                                                name: nm,
                                                qtype: qt,
                                                qclass: qc,
                                                ttl,
                                                rd_length: rdl,
                                                rdata: rd,
                                            },
                                            p3,
                                        ),
                                    )
                                },
                            }
                        },
                    }
                },
            }
        },
    }
}

/// Copies `count` bytes of `b` starting at `start`.
fn copy_range(b: &Vec<u8>, start: usize, count: usize) -> (r: Vec<u8>)
    requires
        start + count <= b@.len(),
    ensures
        r@ == b@.subrange(start as int, start + count),
{
    let n = b.len();
    let mut out: Vec<u8> = Vec::new();
    let mut i: usize = 0;
    while i < count
        invariant
            i <= count,
            start + count <= n,
            n == b@.len(),
            out@ == b@.subrange(start as int, start + i),
        decreases count - i,
    {
        out.push(b[start + i]);
        i += 1;
        assert(out@ =~= b@.subrange(start as int, start + i));
    }
    out
}

/// Reads the RDATA region of one record, dispatched on its type.
pub fn decode_rdata(b: &Vec<u8>, pos: usize, qt: QType, rd_length: u16) -> (r: Result<
    (RData, usize),
    DnsError,
>)
    ensures
        res_matches(r, spec_decode_rdata(b@, pos, qt, rd_length)),
{
    let n = b.len();
    match qt {
        QType::A => {
            if pos > n || n - pos < 4 {
                Err(DnsError::new(ErrorKind::TruncatedInput, pos))
            } else {
                Ok((RData::A(copy_range(b, pos, 4)), pos + 4))
            }
        },
        QType::AAAA => {
            if pos > n || n - pos < 16 {
                Err(DnsError::new(ErrorKind::TruncatedInput, pos))
            } else {
                Ok((RData::AAAA(copy_range(b, pos, 16)), pos + 16))
            }
        },
        QType::CNAME => {
            match decode_name(b, pos) {
                Ok((nm, end)) => Ok((RData::CNAME(nm), end)),
                Err(e) => Err(e),
            }
        },
        QType::NS => {
            match decode_name(b, pos) {
                Ok((nm, end)) => Ok((RData::NS(nm), end)),
                Err(e) => Err(e),
            }
        },
        QType::TXT => {
            let count = rd_length as usize;
            if pos > n || n - pos < count {
                Err(DnsError::new(ErrorKind::TruncatedInput, pos))
            } else {
                Ok((RData::TXT(copy_range(b, pos, count)), pos + count))
            }
        },
        QType::MX => {
            if pos > n || n - pos < 2 {
                Err(DnsError::new(ErrorKind::TruncatedInput, pos))
            } else {
                let preference = read_u16(b, pos);
                match decode_name(b, pos + 2) {
                    Ok((exchange, end)) => Ok((RData::MX { preference, exchange }, end)),
                    Err(e) => Err(e),
                }
            }
        },
        QType::SOA => {
            let (mname, p1) = match decode_name(b, pos) {
                Ok(ok) => ok,
                Err(e) => {
                    return Err(e);
                },
            };
            let (rname, p2) = match decode_name(b, p1) {
                Ok(ok) => ok,
                Err(e) => {
                    return Err(e);
                },
            };
            proof {
                lemma_decode_name_end(b@, p1, Seq::<usize>::empty());
            }
            if n - p2 < 20 {
                return Err(DnsError::new(ErrorKind::TruncatedInput, p2));
            }
            let serial = read_u32(b, p2);
            let refresh = read_u32(b, p2 + 4);
            let retry = read_u32(b, p2 + 8);
            let expire = read_u32(b, p2 + 12);
            let minimum = read_u32(b, p2 + 16);
            Ok((RData::SOA { mname, rname, serial, refresh, retry, expire, minimum }, p2 + 20))
        },
    }
}

/// Reads one resource record starting at `pos`.
pub fn decode_record(b: &Vec<u8>, pos: usize) -> (r: Result<(Record, usize), DnsError>)
    ensures
        res_matches(r, spec_decode_record(b@, pos)),
{
    let n = b.len();
    let (name, p1) = match decode_name(b, pos) {
        Ok(ok) => ok,
        Err(e) => {
            return Err(e);
        },
    };
    proof {
        lemma_decode_name_end(b@, pos, Seq::<usize>::empty());
    }
    if n - p1 < 2 {
        return Err(DnsError::new(ErrorKind::TruncatedInput, p1));
    }
    let qt = match QType::of_code(read_u16(b, p1)) {
        Some(qt) => qt,
        None => {
            return Err(DnsError::new(ErrorKind::UnsupportedCode, p1));
        },
    };
    if n - p1 < 4 {
        return Err(DnsError::new(ErrorKind::TruncatedInput, p1 + 2));
    }
    let qc = match QClass::of_code(read_u16(b, p1 + 2)) {
        Some(qc) => qc,
        None => {
            return Err(DnsError::new(ErrorKind::UnsupportedCode, p1 + 2));
        },
    };
    if n - p1 < 8 {
        return Err(DnsError::new(ErrorKind::TruncatedInput, p1 + 4));
    }
    if n - p1 < 10 {
        return Err(DnsError::new(ErrorKind::TruncatedInput, p1 + 8));
    }
    let ttl = read_u32(b, p1 + 4);
    let rdl = read_u16(b, p1 + 8);
    let p2 = p1 + 10;
    match decode_rdata(b, p2, qt, rdl) {
        Err(e) => Err(e),
        Ok((rdata, p3)) => {
            if p3 < p2 || p3 - p2 != rdl as usize {
                Err(DnsError::new(ErrorKind::LengthMismatch, p2))
            } else {
                Ok((Record { name, qtype: qt, qclass: qc, ttl, rd_length: rdl, rdata }, p3))
            }
        },
    }
}

} // verus!
