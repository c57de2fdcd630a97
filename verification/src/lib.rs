//! Binary wire-format codec for a peer-to-peer blockchain network protocol.
//!
//! The library converts in-memory message structures (block headers,
//! inventory announcements, keepalive pings and pongs) to and from the exact
//! byte sequences exchanged between nodes, and derives the canonical
//! double-SHA-256 identity of a block header.

use vstd::prelude::*;

pub mod bytes;
pub mod varint;
pub mod sha256;
pub mod json;
pub mod codec;
pub mod ping;
pub mod pong;
pub mod headers;
pub mod inv;

verus! {

/// The two failure classes of the codec: the byte source ended before one
/// whole instance could be read, or a decoded inventory type code matched
/// none of the known constants (the offending code is carried along).
#[derive(Clone, Copy, Debug, PartialEq, Eq)]
pub enum CodecError {
    UnexpectedEnd,
    UnknownInvType(u32),
}

} // verus!

