//! Fixed-width little-endian integer codec: the primitive layer under every
//! message shape. Each width has a spec-level byte image, a spec-level
//! parser, executable read/write functions proved against them, and the
//! round-trip lemmas the message layer builds on.

use vstd::prelude::*;

use crate::CodecError;

verus! {

/// The little-endian byte image of a `u16`.
pub open spec fn u16_le_bytes(v: u16) -> Seq<u8> {
    seq![(v & 0xff) as u8, ((v >> 8) & 0xff) as u8]
}

/// The little-endian byte image of a `u32`.
pub open spec fn u32_le_bytes(v: u32) -> Seq<u8> {
    seq![
        (v & 0xff) as u8,
        ((v >> 8) & 0xff) as u8,
        ((v >> 16) & 0xff) as u8,
        ((v >> 24) & 0xff) as u8,
    ]
}

/// The little-endian byte image of a `u64`.
pub open spec fn u64_le_bytes(v: u64) -> Seq<u8> {
    seq![
        (v & 0xff) as u8,
        ((v >> 8) & 0xff) as u8,
        ((v >> 16) & 0xff) as u8,
        ((v >> 24) & 0xff) as u8,
        ((v >> 32) & 0xff) as u8,
        ((v >> 40) & 0xff) as u8,
        ((v >> 48) & 0xff) as u8,
        ((v >> 56) & 0xff) as u8,
    ]
}

/// The little-endian byte image of an `i32`: the image of its two's
/// complement bit pattern.
pub open spec fn i32_le_bytes(v: i32) -> Seq<u8> {
    u32_le_bytes(v as u32)
}

/// The `u16` denoted by two little-endian bytes.
pub open spec fn u16_from_le(b0: u8, b1: u8) -> u16 {
    (b0 as u16) | ((b1 as u16) << 8)
}

/// The `u32` denoted by four little-endian bytes.
pub open spec fn u32_from_le(b0: u8, b1: u8, b2: u8, b3: u8) -> u32 {
    (b0 as u32) | ((b1 as u32) << 8) | ((b2 as u32) << 16) | ((b3 as u32) << 24)
}

/// The `u64` denoted by eight little-endian bytes.
pub open spec fn u64_from_le(b0: u8, b1: u8, b2: u8, b3: u8, b4: u8, b5: u8, b6: u8, b7: u8) -> u64 {
    (b0 as u64) | ((b1 as u64) << 8) | ((b2 as u64) << 16) | ((b3 as u64) << 24)
        | ((b4 as u64) << 32) | ((b5 as u64) << 40) | ((b6 as u64) << 48) | ((b7 as u64) << 56)
}

/// What reading a `u16` at `pos` yields: the value and the position after
/// it, or `UnexpectedEnd` if fewer than two bytes remain.
pub open spec fn parse_u16(s: Seq<u8>, pos: int) -> Result<(u16, int), CodecError> {
    if 0 <= pos && pos + 2 <= s.len() {
        Ok((u16_from_le(s[pos], s[pos + 1]), pos + 2))
    } else {
        Err(CodecError::UnexpectedEnd)
    }
}

/// What reading a `u32` at `pos` yields.
pub open spec fn parse_u32(s: Seq<u8>, pos: int) -> Result<(u32, int), CodecError> {
    if 0 <= pos && pos + 4 <= s.len() {
        Ok((u32_from_le(s[pos], s[pos + 1], s[pos + 2], s[pos + 3]), pos + 4))
    } else {
        Err(CodecError::UnexpectedEnd)
    }
}

/// What reading a `u64` at `pos` yields.
pub open spec fn parse_u64(s: Seq<u8>, pos: int) -> Result<(u64, int), CodecError> {
    if 0 <= pos && pos + 8 <= s.len() {
        Ok((
            u64_from_le(
                s[pos], s[pos + 1], s[pos + 2], s[pos + 3],
                s[pos + 4], s[pos + 5], s[pos + 6], s[pos + 7],
            ),
            pos + 8,
        ))
    } else {
        Err(CodecError::UnexpectedEnd)
    }
}

/// What reading an `i32` at `pos` yields.
pub open spec fn parse_i32(s: Seq<u8>, pos: int) -> Result<(i32, int), CodecError> {
    match parse_u32(s, pos) {
        Ok((u, p)) => Ok((u as i32, p)),
        Err(e) => Err(e),
    }
}

/// Reading back the byte image of a `u16` yields the value itself.
pub proof fn lemma_u16_le_round_trip(v: u16)
    ensures
        u16_from_le((v & 0xff) as u8, ((v >> 8) & 0xff) as u8) == v,
{
    assert(((v & 0xff) as u8) as u16 | ((((v >> 8) & 0xff) as u8) as u16) << 8 == v)
        by (bit_vector);
}

/// Reading back the byte image of a `u32` yields the value itself.
pub proof fn lemma_u32_le_round_trip(v: u32)
    ensures
        u32_from_le(
            (v & 0xff) as u8,
            ((v >> 8) & 0xff) as u8,
            ((v >> 16) & 0xff) as u8,
            ((v >> 24) & 0xff) as u8,
        ) == v,
{
    assert(((v & 0xff) as u8) as u32 | ((((v >> 8) & 0xff) as u8) as u32) << 8
        | ((((v >> 16) & 0xff) as u8) as u32) << 16 | ((((v >> 24) & 0xff) as u8) as u32) << 24
        == v) by (bit_vector);
}

/// Reading back the byte image of a `u64` yields the value itself.
pub proof fn lemma_u64_le_round_trip(v: u64)
    ensures
        u64_from_le(
            (v & 0xff) as u8,
            ((v >> 8) & 0xff) as u8,
            ((v >> 16) & 0xff) as u8,
            ((v >> 24) & 0xff) as u8,
            ((v >> 32) & 0xff) as u8,
            ((v >> 40) & 0xff) as u8,
            ((v >> 48) & 0xff) as u8,
            ((v >> 56) & 0xff) as u8,
        ) == v,
{
    assert(((v & 0xff) as u8) as u64 | ((((v >> 8) & 0xff) as u8) as u64) << 8
        | ((((v >> 16) & 0xff) as u8) as u64) << 16 | ((((v >> 24) & 0xff) as u8) as u64) << 24
        | ((((v >> 32) & 0xff) as u8) as u64) << 32 | ((((v >> 40) & 0xff) as u8) as u64) << 40
        | ((((v >> 48) & 0xff) as u8) as u64) << 48 | ((((v >> 56) & 0xff) as u8) as u64) << 56
        == v) by (bit_vector);
}

/// Reading back the byte image of an `i32` yields the value itself.
pub proof fn lemma_i32_le_round_trip(v: i32)
    ensures
        (u32_from_le(
            ((v as u32) & 0xff) as u8,
            (((v as u32) >> 8) & 0xff) as u8,
            (((v as u32) >> 16) & 0xff) as u8,
            (((v as u32) >> 24) & 0xff) as u8,
        ) as i32) == v,
{
    lemma_u32_le_round_trip(v as u32);
    assert(((v as u32) as i32) == v) by (bit_vector);
}

/// A window on a stream that equals `b` can be split: any sub-window reads
/// the matching slice of `b`.
pub proof fn lemma_subrange_split(s: Seq<u8>, pos: int, b: Seq<u8>, a: int, c: int)
    requires
        0 <= pos,
        pos + b.len() <= s.len(),
        s.subrange(pos, pos + b.len()) == b,
        0 <= a <= c <= b.len(),
    ensures
        s.subrange(pos + a, pos + c) == b.subrange(a, c),
{
    let sub = s.subrange(pos, pos + b.len() as int);
    assert forall|k: int| 0 <= k < c - a implies s.subrange(pos + a, pos + c)[k] == b.subrange(
        a,
        c,
    )[k] by {
        assert(sub[a + k] == s[pos + (a + k)]);
        assert(s.subrange(pos + a, pos + c)[k] == s[pos + a + k]);
        assert(b.subrange(a, c)[k] == b[a + k]);
    }
    assert(s.subrange(pos + a, pos + c) =~= b.subrange(a, c));
}

/// Reading a stream that carries the byte image of `v` at `pos` yields `v`
/// itself and stops just past it, whatever follows.
pub proof fn lemma_parse_u32_prefix(s: Seq<u8>, pos: int, v: u32)
    requires
        0 <= pos,
        pos + 4 <= s.len(),
        s.subrange(pos, pos + 4) == u32_le_bytes(v),
    ensures
        parse_u32(s, pos) == Ok::<(u32, int), CodecError>((v, pos + 4)),
{
    let sub = s.subrange(pos, pos + 4);
    assert(s[pos] == sub[0] && s[pos + 1] == sub[1] && s[pos + 2] == sub[2]
        && s[pos + 3] == sub[3]);
    lemma_u32_le_round_trip(v);
}

/// Reading a stream that carries the byte image of `v` at `pos` yields `v`
/// itself and stops just past it, whatever follows.
pub proof fn lemma_parse_u64_prefix(s: Seq<u8>, pos: int, v: u64)
    requires
        0 <= pos,
        pos + 8 <= s.len(),
        s.subrange(pos, pos + 8) == u64_le_bytes(v),
    ensures
        parse_u64(s, pos) == Ok::<(u64, int), CodecError>((v, pos + 8)),
{
    let sub = s.subrange(pos, pos + 8);
    assert(s[pos] == sub[0] && s[pos + 1] == sub[1] && s[pos + 2] == sub[2]
        && s[pos + 3] == sub[3] && s[pos + 4] == sub[4] && s[pos + 5] == sub[5]
        && s[pos + 6] == sub[6] && s[pos + 7] == sub[7]);
    lemma_u64_le_round_trip(v);
}

/// Reading a stream that carries the byte image of `v` at `pos` yields `v`
/// itself and stops just past it, whatever follows.
pub proof fn lemma_parse_i32_prefix(s: Seq<u8>, pos: int, v: i32)
    requires
        0 <= pos,
        pos + 4 <= s.len(),
        s.subrange(pos, pos + 4) == i32_le_bytes(v),
    ensures
        parse_i32(s, pos) == Ok::<(i32, int), CodecError>((v, pos + 4)),
{
    lemma_parse_u32_prefix(s, pos, v as u32);
    lemma_i32_le_round_trip(v);
}

/// Appends the two little-endian bytes of `v` to `out`.
pub fn write_u16(out: &mut Vec<u8>, v: u16)
    ensures
        final(out)@ == old(out)@ + u16_le_bytes(v),
{
    out.push((v & 0xff) as u8);
    out.push(((v >> 8) & 0xff) as u8);
    assert(out@ =~= old(out)@ + u16_le_bytes(v));
}

/// Appends the four little-endian bytes of `v` to `out`.
pub fn write_u32(out: &mut Vec<u8>, v: u32)
    ensures
        final(out)@ == old(out)@ + u32_le_bytes(v),
{
    out.push((v & 0xff) as u8);
    out.push(((v >> 8) & 0xff) as u8);
    out.push(((v >> 16) & 0xff) as u8);
    out.push(((v >> 24) & 0xff) as u8);
    assert(out@ =~= old(out)@ + u32_le_bytes(v));
}

/// Appends the eight little-endian bytes of `v` to `out`.
pub fn write_u64(out: &mut Vec<u8>, v: u64)
    ensures
        final(out)@ == old(out)@ + u64_le_bytes(v),
{
    out.push((v & 0xff) as u8);
    out.push(((v >> 8) & 0xff) as u8);
    out.push(((v >> 16) & 0xff) as u8);
    out.push(((v >> 24) & 0xff) as u8);
    out.push(((v >> 32) & 0xff) as u8);
    out.push(((v >> 40) & 0xff) as u8);
    out.push(((v >> 48) & 0xff) as u8);
    out.push(((v >> 56) & 0xff) as u8);
    assert(out@ =~= old(out)@ + u64_le_bytes(v));
}

/// Appends the four little-endian bytes of `v`'s two's complement bit
/// pattern to `out`.
pub fn write_i32(out: &mut Vec<u8>, v: i32)
    ensures
        final(out)@ == old(out)@ + i32_le_bytes(v),
{
    write_u32(out, v as u32);
}

/// Reads a `u16` at `pos`; returns the value and the position just past it.
pub fn read_u16(s: &[u8], pos: usize) -> (r: Result<(u16, usize), CodecError>)
    ensures
        parse_result_matches(r, parse_u16(s@, pos as int)),
{
    if pos < s.len() && s.len() - pos >= 2 {
        let b0: u8 = s[pos];
        let b1: u8 = s[pos + 1];
        Ok(((b0 as u16) | ((b1 as u16) << 8), pos + 2))
    } else {
        Err(CodecError::UnexpectedEnd)
    }
}

/// Reads a `u32` at `pos`; returns the value and the position just past it.
pub fn read_u32(s: &[u8], pos: usize) -> (r: Result<(u32, usize), CodecError>)
    ensures
        parse_result_matches(r, parse_u32(s@, pos as int)),
{
    if pos < s.len() && s.len() - pos >= 4 {
        let b0: u8 = s[pos];
        let b1: u8 = s[pos + 1];
        let b2: u8 = s[pos + 2];
        let b3: u8 = s[pos + 3];
        Ok((
            (b0 as u32) | ((b1 as u32) << 8) | ((b2 as u32) << 16) | ((b3 as u32) << 24),
            pos + 4,
        ))
    } else {
        Err(CodecError::UnexpectedEnd)
    }
}

/// Reads a `u64` at `pos`; returns the value and the position just past it.
pub fn read_u64(s: &[u8], pos: usize) -> (r: Result<(u64, usize), CodecError>)
    ensures
        parse_result_matches(r, parse_u64(s@, pos as int)),
{
    if pos < s.len() && s.len() - pos >= 8 {
        let b0: u8 = s[pos];
        let b1: u8 = s[pos + 1];
        let b2: u8 = s[pos + 2];
        let b3: u8 = s[pos + 3];
        let b4: u8 = s[pos + 4];
        let b5: u8 = s[pos + 5];
        let b6: u8 = s[pos + 6];
        let b7: u8 = s[pos + 7];
        Ok((
            (b0 as u64) | ((b1 as u64) << 8) | ((b2 as u64) << 16) | ((b3 as u64) << 24)
                | ((b4 as u64) << 32) | ((b5 as u64) << 40) | ((b6 as u64) << 48)
                | ((b7 as u64) << 56),
            pos + 8,
        ))
    } else {
        Err(CodecError::UnexpectedEnd)
    }
}

/// Reads an `i32` at `pos`; returns the value and the position just past it.
pub fn read_i32(s: &[u8], pos: usize) -> (r: Result<(i32, usize), CodecError>)
    ensures
        parse_result_matches(r, parse_i32(s@, pos as int)),
{
    match read_u32(s, pos) {
        Ok((u, p)) => Ok((u as i32, p)),
        Err(e) => Err(e),
    }
}

/// The executable result agrees with the spec-level parse, position and all.
pub open spec fn parse_result_matches<T>(
    r: Result<(T, usize), CodecError>,
    p: Result<(T, int), CodecError>,
) -> bool {
    match (r, p) {
        (Ok((rv, rn)), Ok((pv, pn))) => rv == pv && rn == pn,
        (Err(re), Err(pe)) => re == pe,
        _ => false,
    }
}

} // verus!
