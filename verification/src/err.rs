//! The single flat error channel of the codec.
//!
//! Every failure carries a kind and the byte offset at which the
//! offending element begins.

use vstd::prelude::*;

verus! {

/// What went wrong while decoding or encoding.
#[derive(Debug, Clone, Copy, PartialEq, Eq, Structural)]
pub enum ErrorKind {
    /// Fewer bytes remain than a fixed-size field requires.
    TruncatedInput,
    /// An invalid label length encoding, an oversized label or name,
    /// or a compression-pointer cycle.
    MalformedName,
    /// A qtype or qclass value outside the recognized set.
    UnsupportedCode,
    /// A record's declared rd_length disagrees with the bytes actually
    /// consumed for its RDATA.
    LengthMismatch,
}

/// A decode or encode failure: its kind, and the byte offset of the
/// element that caused it.
#[derive(Debug, Clone, Copy, PartialEq, Eq, Structural)]
pub struct DnsError {
    pub kind: ErrorKind,
    pub at: usize,
}

impl DnsError {
    pub fn new(kind: ErrorKind, at: usize) -> (e: DnsError)
        ensures
            e == (DnsError { kind, at }),
    {
        DnsError { kind, at }
    }
}

/// How an executable decode result must relate to its specification:
/// same outcome, and on success the decoded value's view and the end
/// position agree; on failure the same error.
pub open spec fn res_matches<T: View>(
    r: Result<(T, usize), DnsError>,
    s: Result<(T::V, usize), DnsError>,
) -> bool {
    match r {
        Ok((x, end)) => s == Ok::<(T::V, usize), DnsError>((x@, end)),
        Err(e) => s == Err::<(T::V, usize), DnsError>(e),
    }
}

} // verus!
