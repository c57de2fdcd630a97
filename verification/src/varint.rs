//! Variable-length unsigned count codec: a self-describing encoding of a
//! `u64` used as the length prefix of Headers and Inv sequences. Values
//! below 253 take one byte; larger values take a one-byte tag (253, 254 or
//! 255) followed by the value in 2, 4 or 8 little-endian bytes.

use vstd::prelude::*;

use crate::CodecError;
use crate::bytes::{
    u16_le_bytes, u32_le_bytes, u64_le_bytes,
    parse_u16, parse_u32, parse_u64,
    lemma_u16_le_round_trip, lemma_u32_le_round_trip, lemma_u64_le_round_trip,
    parse_result_matches,
    write_u16, write_u32, write_u64,
    read_u16, read_u32, read_u64,
};

verus! {

/// The canonical byte image of a count: the shortest of the four forms that
/// can hold the value.
pub open spec fn var_int_bytes(v: u64) -> Seq<u8> {
    if v < 253 {
        seq![v as u8]
    } else if v <= 0xffff {
        seq![253u8] + u16_le_bytes(v as u16)
    } else if v <= 0xffff_ffff {
        seq![254u8] + u32_le_bytes(v as u32)
    } else {
        seq![255u8] + u64_le_bytes(v)
    }
}

/// What reading a count at `pos` yields: the first byte picks the form, and
/// the value follows. A value sent in a wider form than it needs is still
/// accepted, as the wire allows.
pub open spec fn parse_var_int(s: Seq<u8>, pos: int) -> Result<(u64, int), CodecError> {
    if 0 <= pos && pos + 1 <= s.len() {
        let tag = s[pos];
        if tag < 253 {
            Ok((tag as u64, pos + 1))
        } else if tag == 253 {
            match parse_u16(s, pos + 1) {
                Ok((v, p)) => Ok((v as u64, p)),
                Err(e) => Err(e),
            }
        } else if tag == 254 {
            match parse_u32(s, pos + 1) {
                Ok((v, p)) => Ok((v as u64, p)),
                Err(e) => Err(e),
            }
        } else {
            parse_u64(s, pos + 1)
        }
    } else {
        Err(CodecError::UnexpectedEnd)
    }
}

/// Appends the canonical byte image of `v` to `out`.
pub fn write_var_int(out: &mut Vec<u8>, v: u64)
    ensures
        final(out)@ == old(out)@ + var_int_bytes(v),
{
    if v < 253 {
        out.push(v as u8);
        assert(out@ =~= old(out)@ + var_int_bytes(v));
    } else if v <= 0xffff {
        out.push(253);
        write_u16(out, v as u16);
        assert(out@ =~= old(out)@ + var_int_bytes(v));
    } else if v <= 0xffff_ffff {
        out.push(254);
        write_u32(out, v as u32);
        assert(out@ =~= old(out)@ + var_int_bytes(v));
    } else {
        out.push(255);
        write_u64(out, v);
        assert(out@ =~= old(out)@ + var_int_bytes(v));
    }
}

/// Reads a count at `pos`; returns the value and the position just past it.
pub fn read_var_int(s: &[u8], pos: usize) -> (r: Result<(u64, usize), CodecError>)
    ensures
        parse_result_matches(r, parse_var_int(s@, pos as int)),
{
    if pos >= s.len() {
        return Err(CodecError::UnexpectedEnd);
    }
    let tag: u8 = s[pos];
    if tag < 253 {
        Ok((tag as u64, pos + 1))
    } else if tag == 253 {
        match read_u16(s, pos + 1) {
            Ok((v, p)) => Ok((v as u64, p)),
            Err(e) => Err(e),
        }
    } else if tag == 254 {
        match read_u32(s, pos + 1) {
            Ok((v, p)) => Ok((v as u64, p)),
            Err(e) => Err(e),
        }
    } else {
        read_u64(s, pos + 1)
    }
}

/// Reading a stream that carries the canonical byte image of `v` at `pos`
/// yields `v` itself and stops just past it, whatever follows.
pub proof fn lemma_parse_var_int_prefix(s: Seq<u8>, pos: int, v: u64)
    requires
        0 <= pos,
        pos + var_int_bytes(v).len() <= s.len(),
        s.subrange(pos, pos + var_int_bytes(v).len()) == var_int_bytes(v),
    ensures
        parse_var_int(s, pos) == Ok::<(u64, int), CodecError>((v, pos + var_int_bytes(v).len())),
{
    let b = var_int_bytes(v);
    let sub = s.subrange(pos, pos + b.len() as int);
    if v < 253 {
        assert(s[pos] == sub[0]);
        assert(s[pos] == v as u8);
        assert((v as u8) < 253 && (v as u8) as u64 == v);
    } else if v <= 0xffff {
        assert(s[pos] == sub[0]);
        assert(s[pos] == 253);
        let w = v as u16;
        assert(s[pos + 1] == sub[1] && s[pos + 2] == sub[2]);
        assert(s[pos + 1] == (w & 0xff) as u8 && s[pos + 2] == ((w >> 8) & 0xff) as u8);
        lemma_u16_le_round_trip(w);
        assert(parse_u16(s, pos + 1) == Ok::<(u16, int), CodecError>((w, pos + 3)));
        assert(w as u64 == v);
    } else if v <= 0xffff_ffff {
        assert(s[pos] == sub[0]);
        assert(s[pos] == 254);
        let w = v as u32;
        assert(s[pos + 1] == sub[1] && s[pos + 2] == sub[2] && s[pos + 3] == sub[3]
            && s[pos + 4] == sub[4]);
        assert(s[pos + 1] == (w & 0xff) as u8 && s[pos + 2] == ((w >> 8) & 0xff) as u8
            && s[pos + 3] == ((w >> 16) & 0xff) as u8 && s[pos + 4] == ((w >> 24) & 0xff) as u8);
        lemma_u32_le_round_trip(w);
        assert(parse_u32(s, pos + 1) == Ok::<(u32, int), CodecError>((w, pos + 5)));
        assert(w as u64 == v);
    } else {
        assert(s[pos] == sub[0]);
        assert(s[pos] == 255);
        assert(s[pos + 1] == sub[1] && s[pos + 2] == sub[2] && s[pos + 3] == sub[3]
            && s[pos + 4] == sub[4] && s[pos + 5] == sub[5] && s[pos + 6] == sub[6]
            && s[pos + 7] == sub[7] && s[pos + 8] == sub[8]);
        assert(s[pos + 1] == (v & 0xff) as u8 && s[pos + 2] == ((v >> 8) & 0xff) as u8
            && s[pos + 3] == ((v >> 16) & 0xff) as u8 && s[pos + 4] == ((v >> 24) & 0xff) as u8
            && s[pos + 5] == ((v >> 32) & 0xff) as u8 && s[pos + 6] == ((v >> 40) & 0xff) as u8
            && s[pos + 7] == ((v >> 48) & 0xff) as u8 && s[pos + 8] == ((v >> 56) & 0xff) as u8);
        lemma_u64_le_round_trip(v);
        assert(parse_u64(s, pos + 1) == Ok::<(u64, int), CodecError>((v, pos + 9)));
    }
}

} // verus!
