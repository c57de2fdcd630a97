//! The Pong keepalive message: the answer to a Ping. It is built from the
//! received Ping's nonce and must carry that exact value back unchanged;
//! checking the two nonces against each other is the caller's business.

use vstd::prelude::*;

use crate::CodecError;
use crate::bytes::{u64_le_bytes, parse_u64, read_u64, write_u64, lemma_parse_u64_prefix};
use crate::codec::{Deserialize, Serialize};
use crate::json::{JsonValue, JsonSpec};

verus! {

/// A liveness answer carrying the probed nonce back.
#[derive(Clone, Copy, Debug, PartialEq, Eq)]
pub struct Pong {
    nonce: u64,
}

impl View for Pong {
    type V = u64;

    closed spec fn view(&self) -> u64 {
        self.nonce
    }
}

impl Pong {
    /// Builds the answer to a Ping: the given nonce is carried unchanged.
    pub fn new(nonce: u64) -> (r: Pong)
        ensures
            r@ == nonce,
    {
        Pong { nonce }
    }

    /// The diagnostic projection: the nonce as a bare number.
    pub fn into_json(&self) -> (r: JsonValue)
        ensures
            r@ == JsonSpec::Number(self@ as int),
    {
        JsonValue::number(self.nonce as i128)
    }
}

impl Deserialize for Pong {
    open spec fn spec_parse(s: Seq<u8>, pos: int) -> Result<(u64, int), CodecError> {
        parse_u64(s, pos)
    }

    fn deserialize(s: &[u8], pos: usize) -> (r: Result<(Pong, usize), CodecError>) {
        match read_u64(s, pos) {
            Ok((v, p)) => Ok((Pong { nonce: v }, p)),
            Err(e) => Err(e),
        }
    }
}

impl Serialize for Pong {
    open spec fn spec_bytes(&self) -> Seq<u8> {
        u64_le_bytes(self@)
    }

    fn serialize(&self, out: &mut Vec<u8>) {
        write_u64(out, self.nonce);
    }
}

/// A Pong always encodes to exactly eight bytes.
pub proof fn lemma_pong_encoded_len(p: Pong)
    ensures
        p.spec_bytes().len() == 8,
{
}

/// Round trip: a stream that carries the byte image of a Pong with nonce
/// `nonce` at `pos` decodes to that very nonce and stops just past it,
/// whatever follows.
pub proof fn lemma_pong_round_trip(nonce: u64, s: Seq<u8>, pos: int)
    requires
        0 <= pos,
        pos + 8 <= s.len(),
        s.subrange(pos, pos + 8) == u64_le_bytes(nonce),
    ensures
        Pong::spec_parse(s, pos) == Ok::<(u64, int), CodecError>((nonce, pos + 8)),
{
    lemma_parse_u64_prefix(s, pos, nonce);
}

} // verus!
