//! The closed, bidirectional tables between symbolic record and class
//! identifiers and their 16-bit wire codes.
//!
//! Decoding a numeric code outside the recognized set fails; it never
//! coerces to a default variant.

use vstd::prelude::*;

verus! {

/// The resource-record types this client understands.
#[derive(Debug, Clone, Copy, PartialEq, Eq, Structural)]
pub enum QType {
    A,
    NS,
    CNAME,
    SOA,
    MX,
    TXT,
    AAAA,
}

/// The protocol classes this client understands.
#[derive(Debug, Clone, Copy, PartialEq, Eq, Structural)]
pub enum QClass {
    IN,
}

/// The wire code of a record type.
pub open spec fn spec_qtype_code(q: QType) -> u16 {
    match q {
        QType::A => 1,
        QType::NS => 2,
        QType::CNAME => 5,
        QType::SOA => 6,
        QType::MX => 15,
        QType::TXT => 16,
        QType::AAAA => 28,
    }
}

/// The record type of a wire code, if recognized.
pub open spec fn spec_qtype_of(code: u16) -> Option<QType> {
    if code == 1 {
        Some(QType::A)
    } else if code == 2 {
        Some(QType::NS)
    } else if code == 5 {
        Some(QType::CNAME)
    } else if code == 6 {
        Some(QType::SOA)
    } else if code == 15 {
        Some(QType::MX)
    } else if code == 16 {
        Some(QType::TXT)
    } else if code == 28 {
        Some(QType::AAAA)
    } else {
        None
    }
}

/// The wire code of a class.
pub open spec fn spec_qclass_code(c: QClass) -> u16 {
    match c {
        QClass::IN => 1,
    }
}

/// The class of a wire code, if recognized.
pub open spec fn spec_qclass_of(code: u16) -> Option<QClass> {
    if code == 1 {
        Some(QClass::IN)
    } else {
        None
    }
}

/// The type table is bidirectional: a symbolic type maps to its code
/// and back, and a recognized code maps to a type and back.  A code is
/// recognized exactly when it is one of the seven fixed values.
pub proof fn lemma_qtype_table(q: QType, code: u16)
    ensures
        spec_qtype_of(spec_qtype_code(q)) == Some(q),
        spec_qtype_of(code) matches Some(q2) ==> spec_qtype_code(q2) == code,
        (spec_qtype_of(code) is Some) <==> (code == 1 || code == 2 || code == 5 || code == 6
            || code == 15 || code == 16 || code == 28),
{
}

/// The class table is bidirectional in the same way; the only
/// recognized class code is 1 (IN).
pub proof fn lemma_qclass_table(c: QClass, code: u16)
    ensures
        spec_qclass_of(spec_qclass_code(c)) == Some(c),
        spec_qclass_of(code) matches Some(c2) ==> spec_qclass_code(c2) == code,
        (spec_qclass_of(code) is Some) <==> code == 1,
{
}

impl QType {
    /// The wire code this type is written as.
    pub fn code(&self) -> (r: u16)
        ensures
            r == spec_qtype_code(*self),
    {
        match self {
            QType::A => 1,
            QType::NS => 2,
            QType::CNAME => 5,
            QType::SOA => 6,
            QType::MX => 15,
            QType::TXT => 16,
            QType::AAAA => 28,
        }
    }

    /// Looks a wire code up in the closed type table.
    pub fn of_code(code: u16) -> (r: Option<QType>)
        ensures
            r == spec_qtype_of(code),
    {
        if code == 1 {
            Some(QType::A)
        } else if code == 2 {
            Some(QType::NS)
        } else if code == 5 {
            Some(QType::CNAME)
        } else if code == 6 {
            Some(QType::SOA)
        } else if code == 15 {
            Some(QType::MX)
        } else if code == 16 {
            Some(QType::TXT)
        } else if code == 28 {
            Some(QType::AAAA)
        } else {
            None
        }
    }
}

impl QClass {
    /// The wire code this class is written as.
    pub fn code(&self) -> (r: u16)
        ensures
            r == spec_qclass_code(*self),
    {
        match self {
            QClass::IN => 1,
        }
    }

    /// Looks a wire code up in the closed class table.
    pub fn of_code(code: u16) -> (r: Option<QClass>)
        ensures
            r == spec_qclass_of(code),
    {
        if code == 1 {
            Some(QClass::IN)
        } else {
            None
        }
    }
}

} // verus!
