//! The Ping keepalive message: a single opaque 64-bit nonce that probes a
//! peer for liveness. Generating the nonce is the caller's business; this
//! module only carries it faithfully across the wire.

use vstd::prelude::*;

use crate::CodecError;
use crate::bytes::{u64_le_bytes, parse_u64, read_u64, write_u64, lemma_parse_u64_prefix};
use crate::codec::{Deserialize, Serialize};
use crate::json::{JsonValue, JsonSpec};

verus! {

/// A liveness probe carrying one opaque correlation nonce.
#[derive(Clone, Copy, Debug, PartialEq, Eq)]
pub struct Ping {
    nonce: u64,
}

impl View for Ping {
    type V = u64;

    closed spec fn view(&self) -> u64 {
        self.nonce
    }
}

impl Ping {
    /// Wraps a caller-chosen nonce as a Ping.
    pub fn new(nonce: u64) -> (r: Ping)
        ensures
            r@ == nonce,
    {
        Ping { nonce }
    }

    /// The nonce this probe carries.
    pub fn nonce(&self) -> (r: u64)
        ensures
            r == self@,
    {
        self.nonce
    }

    /// The diagnostic projection: the nonce as a bare number.
    pub fn into_json(&self) -> (r: JsonValue)
        ensures
            r@ == JsonSpec::Number(self@ as int),
    {
        JsonValue::number(self.nonce as i128)
    }
}

impl Deserialize for Ping {
    open spec fn spec_parse(s: Seq<u8>, pos: int) -> Result<(u64, int), CodecError> {
        parse_u64(s, pos)
    }

    fn deserialize(s: &[u8], pos: usize) -> (r: Result<(Ping, usize), CodecError>) {
        match read_u64(s, pos) {
            Ok((v, p)) => Ok((Ping { nonce: v }, p)),
            Err(e) => Err(e),
        }
    }
}

impl Serialize for Ping {
    open spec fn spec_bytes(&self) -> Seq<u8> {
        u64_le_bytes(self@)
    }

    fn serialize(&self, out: &mut Vec<u8>) {
        write_u64(out, self.nonce);
    }
}

/// A Ping always encodes to exactly eight bytes.
pub proof fn lemma_ping_encoded_len(p: Ping)
    ensures
        p.spec_bytes().len() == 8,
{
}

/// Round trip: a stream that carries the byte image of a Ping with nonce
/// `nonce` at `pos` decodes to that very nonce and stops just past it,
/// whatever follows.
pub proof fn lemma_ping_round_trip(nonce: u64, s: Seq<u8>, pos: int)
    requires
        0 <= pos,
        pos + 8 <= s.len(),
        s.subrange(pos, pos + 8) == u64_le_bytes(nonce),
    ensures
        Ping::spec_parse(s, pos) == Ok::<(u64, int), CodecError>((nonce, pos + 8)),
{
    lemma_parse_u64_prefix(s, pos, nonce);
}

} // verus!
