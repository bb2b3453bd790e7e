//! A verified codec for the DNS wire format (RFC 1035).
//!
//! The library builds query messages, encodes them to wire bytes, and
//! decodes untrusted response bytes back into structured records,
//! including domain-name label compression, fixed-width big-endian
//! fields, and per-record-type payload layouts.
//!
//! Every decoding function takes the whole received message and a
//! byte position and returns the advanced position beside its result:
//! the position is the read cursor, and the full buffer stays in view
//! as the fixed coordinate space that compression pointers address.

pub mod bytes;
pub mod err;
pub mod header;
pub mod message;
pub mod name;
pub mod qtype;
pub mod question;
pub mod record;
