//! The 32-byte hash values carried by headers and inventory items: their
//! wire codec, their hexadecimal text form, and the double-SHA-256 primitive
//! that derives a header's canonical identity.

use vstd::prelude::*;
use vstd::string::StringExecFns;

use crate::CodecError;

verus! {

/// A 32-byte hash value, stored in wire byte order.
#[derive(Clone, Copy, Debug, PartialEq, Eq)]
pub struct Sha256 {
    pub bytes: [u8; 32],
}

impl View for Sha256 {
    type V = Seq<u8>;

    open spec fn view(&self) -> Seq<u8> {
        self.bytes@
    }
}

impl Sha256 {
    /// Wraps 32 raw bytes as a hash value.
    pub fn from_bytes(bytes: [u8; 32]) -> (r: Sha256)
        ensures
            r@ == bytes@,
    {
        Sha256 { bytes }
    }

    /// The raw bytes of the hash.
    pub fn as_bytes(&self) -> (r: &[u8])
        ensures
            r@ == self@,
    {
        self.bytes.as_slice()
    }

    /// The hexadecimal text form of the hash: two lowercase digits per
    /// byte, in wire byte order.
    pub fn to_hex(&self) -> (r: String)
        ensures
            r@ == hex_of(self@),
    {
        let mut out = String::new();
        let mut i: usize = 0;
        while i < 32
            invariant
                i <= 32,
                out@ == hex_of(self.bytes@.take(i as int)),
            decreases 32 - i,
        {
            let b: u8 = self.bytes[i];
            out.append(hex_digit_str(b / 16));
            out.append(hex_digit_str(b % 16));
            proof {
                let t = self.bytes@.take(i + 1 as int);
                assert(t.drop_last() =~= self.bytes@.take(i as int));
                assert(t.last() == self.bytes@[i as int]);
                assert(out@ =~= hex_of(t));
            }
            i = i + 1;
        }
        proof {
            assert(self.bytes@.take(32) =~= self.bytes@);
        }
        out
    }
}

/// The hexadecimal digit for a value below 16.
pub open spec fn hex_digit(n: u8) -> char
    recommends
        n < 16,
{
    if n == 0 { '0' } else if n == 1 { '1' } else if n == 2 { '2' } else if n == 3 { '3' }
    else if n == 4 { '4' } else if n == 5 { '5' } else if n == 6 { '6' } else if n == 7 { '7' }
    else if n == 8 { '8' } else if n == 9 { '9' } else if n == 10 { 'a' } else if n == 11 { 'b' }
    else if n == 12 { 'c' } else if n == 13 { 'd' } else if n == 14 { 'e' } else { 'f' }
}

/// The hexadecimal text form of a byte sequence: two digits per byte, the
/// byte's high nibble first, bytes in sequence order.
pub open spec fn hex_of(bytes: Seq<u8>) -> Seq<char>
    decreases bytes.len(),
{
    if bytes.len() == 0 {
        Seq::empty()
    } else {
        hex_of(bytes.drop_last()) + seq![
            hex_digit(bytes.last() / 16),
            hex_digit(bytes.last() % 16),
        ]
    }
}

/// The one-character string for a hexadecimal digit.
fn hex_digit_str(n: u8) -> (r: &'static str)
    requires
        n < 16,
    ensures
        r@ == seq![hex_digit(n)],
{
    proof {
        reveal_strlit("0"); reveal_strlit("1"); reveal_strlit("2"); reveal_strlit("3");
        reveal_strlit("4"); reveal_strlit("5"); reveal_strlit("6"); reveal_strlit("7");
        reveal_strlit("8"); reveal_strlit("9"); reveal_strlit("a"); reveal_strlit("b");
        reveal_strlit("c"); reveal_strlit("d"); reveal_strlit("e"); reveal_strlit("f");
    }
    let r: &'static str = match n {
        0 => "0", 1 => "1", 2 => "2", 3 => "3",
        4 => "4", 5 => "5", 6 => "6", 7 => "7",
        8 => "8", 9 => "9", 10 => "a", 11 => "b",
        12 => "c", 13 => "d", 14 => "e", _ => "f",
    };
    proof {
        assert(r@ =~= seq![hex_digit(n)]);
    }
    r
}

/// What reading a 32-byte hash at `pos` yields: those bytes unchanged, or
/// `UnexpectedEnd` if fewer than 32 remain.
pub open spec fn parse_sha256(s: Seq<u8>, pos: int) -> Result<(Seq<u8>, int), CodecError> {
    if 0 <= pos && pos + 32 <= s.len() {
        Ok((s.subrange(pos, pos + 32), pos + 32))
    } else {
        Err(CodecError::UnexpectedEnd)
    }
}

/// Appends the 32 bytes of `h` to `out`.
pub fn write_sha256(out: &mut Vec<u8>, h: &Sha256)
    ensures
        final(out)@ == old(out)@ + h@,
{
    let mut i: usize = 0;
    while i < 32
        invariant
            i <= 32,
            out@ == old(out)@ + h.bytes@.take(i as int),
        decreases 32 - i,
    {
        out.push(h.bytes[i]);
        proof {
            assert(out@ =~= old(out)@ + h.bytes@.take(i + 1 as int));
        }
        i = i + 1;
    }
    proof {
        assert(h.bytes@.take(32) =~= h@);
    }
}

/// Reads a 32-byte hash at `pos`; returns it and the position just past it.
pub fn read_sha256(s: &[u8], pos: usize) -> (r: Result<(Sha256, usize), CodecError>)
    ensures
        (match (r, parse_sha256(s@, pos as int)) {
            (Ok((v, n)), Ok((pv, pn))) => v@ == pv && n == pn,
            (Err(e), Err(pe)) => e == pe,
            _ => false,
        }),
{
    if s.len() >= 32 && pos <= s.len() - 32 {
        let mut buf: [u8; 32] = [0u8; 32];
        let mut i: usize = 0;
        while i < 32
            invariant
                i <= 32,
                pos + 32 <= s@.len(),
                pos + 32 <= usize::MAX,
                forall|j: int| 0 <= j < i ==> buf@[j] == s@[pos + j],
            decreases 32 - i,
        {
            buf[i] = s[pos + i];
            i = i + 1;
        }
        proof {
            assert(buf@ =~= s@.subrange(pos as int, pos + 32));
        }
        Ok((Sha256 { bytes: buf }, pos + 32))
    } else {
        Err(CodecError::UnexpectedEnd)
    }
}

/// The SHA-256 digest of a byte sequence. What the digest is on given bytes
/// is not stated here; it is fixed by the hash function alone.
pub uninterp spec fn sha256_of(data: Seq<u8>) -> Seq<u8>;

/// The two-round hash that gives a header its canonical identity.
pub open spec fn double_sha256_of(data: Seq<u8>) -> Seq<u8> {
    sha256_of(sha256_of(data))
}

/// Relies on sha2::Sha256 (SHA-256 of FIPS 180-4): the 32-byte digest is a
/// function of the input bytes alone.
#[verifier::external_body]
fn sha256_digest(data: &[u8]) -> (r: Sha256)
    ensures
        r@ == sha256_of(data@),
{
    let d = <sha2::Sha256 as sha2::Digest>::digest(data);
    Sha256 { bytes: d.into() }
}

/// Applies SHA-256 twice to `data`, as the protocol's hash primitive asks.
pub fn compute_double_sha256(data: &[u8]) -> (r: Sha256)
    ensures
        r@ == double_sha256_of(data@),
{
    let first = sha256_digest(data);
    sha256_digest(first.bytes.as_slice())
}

} // verus!
