//! The Header message shape and the Headers sequence message. A header's
//! six fixed-width fields always serialize in the order version,
//! prev_block, merkle_root, timestamp, bits, nonce; the declared
//! transaction count follows only in the full wire form and never enters
//! the header's canonical hash.

use vstd::prelude::*;
use vstd::string::StringExecFns;

use crate::CodecError;
use crate::bytes::{
    i32_le_bytes, u32_le_bytes, parse_i32, parse_u32,
    read_i32, read_u32, write_i32, write_u32,
    lemma_parse_i32_prefix, lemma_parse_u32_prefix, lemma_subrange_split,
};
use crate::varint::{
    var_int_bytes, parse_var_int, read_var_int, write_var_int,
    lemma_parse_var_int_prefix,
};
use crate::sha256::{
    Sha256, parse_sha256, read_sha256, write_sha256,
    double_sha256_of, compute_double_sha256, hex_of,
};
use crate::codec::{Deserialize, Serialize};
use crate::json::{JsonValue, JsonSpec};

verus! {

/// Block metadata as it crosses the wire. The first six fields determine
/// the header's canonical hash; `tx_count` is carried on the wire but
/// never hashed, and is not checked against any transaction list.
#[derive(Clone, Copy, Debug, PartialEq, Eq)]
pub struct Header {
    pub version: i32,
    pub prev_block: Sha256,
    pub merkle_root: Sha256,
    pub timestamp: u32,
    pub bits: u32,
    pub nonce: u32,
    pub tx_count: u64,
}

/// The mathematical form of a Header: hashes as raw byte sequences.
pub struct HeaderView {
    pub version: i32,
    pub prev_block: Seq<u8>,
    pub merkle_root: Seq<u8>,
    pub timestamp: u32,
    pub bits: u32,
    pub nonce: u32,
    pub tx_count: u64,
}

impl HeaderView {
    /// Both hashes hold exactly 32 bytes.
    pub open spec fn wf(self) -> bool {
        self.prev_block.len() == 32 && self.merkle_root.len() == 32
    }
}

impl View for Header {
    type V = HeaderView;

    open spec fn view(&self) -> HeaderView {
        HeaderView {
            version: self.version,
            prev_block: self.prev_block@,
            merkle_root: self.merkle_root@,
            timestamp: self.timestamp,
            bits: self.bits,
            nonce: self.nonce,
            tx_count: self.tx_count,
        }
    }
}

/// The 80-byte hash-relevant prefix: the six fixed-width fields in their
/// fixed order, and nothing else.
pub open spec fn header_prefix_bytes(h: HeaderView) -> Seq<u8> {
    i32_le_bytes(h.version) + h.prev_block + h.merkle_root + u32_le_bytes(h.timestamp)
        + u32_le_bytes(h.bits) + u32_le_bytes(h.nonce)
}

/// The full wire form: the 80-byte prefix, then the declared transaction
/// count as a variable-length integer.
pub open spec fn header_bytes(h: HeaderView) -> Seq<u8> {
    header_prefix_bytes(h) + var_int_bytes(h.tx_count)
}

/// What decoding a Header at `pos` yields.
pub open spec fn parse_header(s: Seq<u8>, pos: int) -> Result<(HeaderView, int), CodecError> {
    match parse_i32(s, pos) {
        Err(e) => Err(e),
        Ok((version, p1)) => match parse_sha256(s, p1) {
            Err(e) => Err(e),
            Ok((prev_block, p2)) => match parse_sha256(s, p2) {
                Err(e) => Err(e),
                Ok((merkle_root, p3)) => match parse_u32(s, p3) {
                    Err(e) => Err(e),
                    Ok((timestamp, p4)) => match parse_u32(s, p4) {
                        Err(e) => Err(e),
                        Ok((bits, p5)) => match parse_u32(s, p5) {
                            Err(e) => Err(e),
                            Ok((nonce, p6)) => match parse_var_int(s, p6) {
                                Err(e) => Err(e),
                                Ok((tx_count, p7)) => Ok((
                                    HeaderView {
                                        version,
                                        prev_block,
                                        merkle_root,
                                        timestamp,
                                        bits,
                                        nonce,
                                        tx_count,
                                    },
                                    p7,
                                )),
                            },
                        },
                    },
                },
            },
        },
    }
}

/// The diagnostic projection of a Header: its six hashed fields under
/// fixed names, hashes in hexadecimal text form.
pub open spec fn header_json(h: HeaderView) -> JsonSpec {
    JsonSpec::Object(seq![
        ("version"@, JsonSpec::Number(h.version as int)),
        ("prev_block"@, JsonSpec::Text(hex_of(h.prev_block))),
        ("merkle_root"@, JsonSpec::Text(hex_of(h.merkle_root))),
        ("timestamp"@, JsonSpec::Number(h.timestamp as int)),
        ("bits"@, JsonSpec::Number(h.bits as int)),
        ("nonce"@, JsonSpec::Number(h.nonce as int)),
    ])
}

impl Header {
    /// The diagnostic projection of this header.
    pub fn into_json(&self) -> (r: JsonValue)
        ensures
            r@ == header_json(self@),
    {
        let mut fields: Vec<(String, JsonValue)> = Vec::new();
        fields.push((String::from_str("version"), JsonValue::number(self.version as i128)));
        fields.push((String::from_str("prev_block"), JsonValue::string(self.prev_block.to_hex())));
        fields.push((String::from_str("merkle_root"), JsonValue::string(self.merkle_root.to_hex())));
        fields.push((String::from_str("timestamp"), JsonValue::number(self.timestamp as i128)));
        fields.push((String::from_str("bits"), JsonValue::number(self.bits as i128)));
        fields.push((String::from_str("nonce"), JsonValue::number(self.nonce as i128)));
        let r = JsonValue::object(fields);
        proof {
            let fs = r@->Object_0;
            let es = header_json(self@)->Object_0;
            assert(fs[0] == es[0] && fs[1] == es[1] && fs[2] == es[2] && fs[3] == es[3]
                && fs[4] == es[4] && fs[5] == es[5]);
            assert(fs =~= es);
            assert(r@ =~= header_json(self@));
        }
        r
    }

    /// The declared transaction count.
    pub fn tx_count(&self) -> (r: u64)
        ensures
            r == self@.tx_count,
    {
        self.tx_count
    }

    /// The canonical identity of this header: the two-round SHA-256 of its
    /// 80-byte prefix. The declared transaction count never enters it.
    pub fn compute_hash(&self) -> (r: Sha256)
        ensures
            r@ == double_sha256_of(header_prefix_bytes(self@)),
    {
        let mut buf: Vec<u8> = Vec::new();
        self.serialize_without_tx_count(&mut buf);
        compute_double_sha256(buf.as_slice())
    }

    /// Writes only the six fixed-width fields, in their fixed order: the
    /// exact input of the canonical hash.
    pub fn serialize_without_tx_count(&self, out: &mut Vec<u8>)
        ensures
            final(out)@ == old(out)@ + header_prefix_bytes(self@),
    {
        write_i32(out, self.version);
        write_sha256(out, &self.prev_block);
        write_sha256(out, &self.merkle_root);
        write_u32(out, self.timestamp);
        write_u32(out, self.bits);
        write_u32(out, self.nonce);
        proof {
            assert(out@ =~= old(out)@ + header_prefix_bytes(self@));
        }
    }
}

impl Deserialize for Header {
    open spec fn spec_parse(s: Seq<u8>, pos: int) -> Result<(HeaderView, int), CodecError> {
        parse_header(s, pos)
    }

    fn deserialize(s: &[u8], pos: usize) -> (r: Result<(Header, usize), CodecError>) {
        let (version, p1) = match read_i32(s, pos) {
            Ok(x) => x,
            Err(e) => { return Err(e); },
        };
        let (prev_block, p2) = match read_sha256(s, p1) {
            Ok(x) => x,
            Err(e) => { return Err(e); },
        };
        let (merkle_root, p3) = match read_sha256(s, p2) {
            Ok(x) => x,
            Err(e) => { return Err(e); },
        };
        let (timestamp, p4) = match read_u32(s, p3) {
            Ok(x) => x,
            Err(e) => { return Err(e); },
        };
        let (bits, p5) = match read_u32(s, p4) {
            Ok(x) => x,
            Err(e) => { return Err(e); },
        };
        let (nonce, p6) = match read_u32(s, p5) {
            Ok(x) => x,
            Err(e) => { return Err(e); },
        };
        let (tx_count, p7) = match read_var_int(s, p6) {
            Ok(x) => x,
            Err(e) => { return Err(e); },
        };
        Ok((
            Header { version, prev_block, merkle_root, timestamp, bits, nonce, tx_count },
            p7,
        ))
    }
}

impl Serialize for Header {
    open spec fn spec_bytes(&self) -> Seq<u8> {
        header_bytes(self@)
    }

    fn serialize(&self, out: &mut Vec<u8>) {
        self.serialize_without_tx_count(out);
        write_var_int(out, self.tx_count);
        proof {
            assert(out@ =~= old(out)@ + header_bytes(self@));
        }
    }
}

/// The hash input is exactly 80 bytes, and the full wire form of a header
/// whose declared count fits one byte is exactly 81 bytes.
pub proof fn lemma_header_encoded_len(h: HeaderView)
    requires
        h.wf(),
    ensures
        header_prefix_bytes(h).len() == 80,
        h.tx_count < 253 ==> header_bytes(h).len() == 81,
{
}

/// Two headers that agree on their six fixed fields hash identically,
/// whatever their declared transaction counts.
pub proof fn lemma_hash_ignores_tx_count(a: HeaderView, b: HeaderView)
    requires
        a.version == b.version,
        a.prev_block == b.prev_block,
        a.merkle_root == b.merkle_root,
        a.timestamp == b.timestamp,
        a.bits == b.bits,
        a.nonce == b.nonce,
    ensures
        double_sha256_of(header_prefix_bytes(a)) == double_sha256_of(header_prefix_bytes(b)),
{
}

/// Round trip: a stream that carries the byte image of a header at `pos`
/// decodes to that very header and stops just past it, whatever follows.
pub proof fn lemma_header_round_trip(h: HeaderView, s: Seq<u8>, pos: int)
    requires
        h.wf(),
        0 <= pos,
        pos + header_bytes(h).len() <= s.len(),
        s.subrange(pos, pos + header_bytes(h).len()) == header_bytes(h),
    ensures
        parse_header(s, pos) == Ok::<(HeaderView, int), CodecError>((
            h,
            pos + header_bytes(h).len(),
        )),
{
    let b = header_bytes(h);
    let vb = var_int_bytes(h.tx_count);
    lemma_subrange_split(s, pos, b, 0, 4);
    assert(b.subrange(0, 4) =~= i32_le_bytes(h.version));
    lemma_parse_i32_prefix(s, pos, h.version);
    lemma_subrange_split(s, pos, b, 4, 36);
    assert(b.subrange(4, 36) =~= h.prev_block);
    lemma_subrange_split(s, pos, b, 36, 68);
    assert(b.subrange(36, 68) =~= h.merkle_root);
    lemma_subrange_split(s, pos, b, 68, 72);
    assert(b.subrange(68, 72) =~= u32_le_bytes(h.timestamp));
    lemma_parse_u32_prefix(s, pos + 68, h.timestamp);
    lemma_subrange_split(s, pos, b, 72, 76);
    assert(b.subrange(72, 76) =~= u32_le_bytes(h.bits));
    lemma_parse_u32_prefix(s, pos + 72, h.bits);
    lemma_subrange_split(s, pos, b, 76, 80);
    assert(b.subrange(76, 80) =~= u32_le_bytes(h.nonce));
    lemma_parse_u32_prefix(s, pos + 76, h.nonce);
    lemma_subrange_split(s, pos, b, 80, 80 + vb.len() as int);
    assert(b.subrange(80, 80 + vb.len() as int) =~= vb);
    lemma_parse_var_int_prefix(s, pos + 80, h.tx_count);
}

/// An ordered run of headers, as transmitted; chain linkage between them
/// is not validated here.
#[derive(Clone, Debug)]
pub struct Headers(Vec<Header>);

/// The mathematical forms of a run of headers, in order.
pub open spec fn header_views(hs: Seq<Header>) -> Seq<HeaderView> {
    hs.map_values(|h: Header| h@)
}

impl View for Headers {
    type V = Seq<HeaderView>;

    closed spec fn view(&self) -> Seq<HeaderView> {
        header_views(self.0@)
    }
}

/// The byte images of a run of headers, back to back.
pub open spec fn headers_items_bytes(items: Seq<HeaderView>) -> Seq<u8>
    decreases items.len(),
{
    if items.len() == 0 {
        Seq::empty()
    } else {
        header_bytes(items.first()) + headers_items_bytes(items.drop_first())
    }
}

/// The wire form of a Headers message: the count, then that many header
/// encodings back to back.
pub open spec fn headers_bytes(items: Seq<HeaderView>) -> Seq<u8> {
    var_int_bytes(items.len() as u64) + headers_items_bytes(items)
}

/// What decoding `n` consecutive headers at `pos` yields.
pub open spec fn parse_headers_items(s: Seq<u8>, pos: int, n: nat) -> Result<
    (Seq<HeaderView>, int),
    CodecError,
>
    decreases n,
{
    if n == 0 {
        Ok((Seq::empty(), pos))
    } else {
        match parse_header(s, pos) {
            Err(e) => Err(e),
            Ok((h, p)) => match parse_headers_items(s, p, (n - 1) as nat) {
                Err(e) => Err(e),
                Ok((rest, end)) => Ok((seq![h] + rest, end)),
            },
        }
    }
}

/// What decoding a Headers message at `pos` yields: the declared count
/// governs how many headers are read; the stream ending first is an error,
/// and no partial run is ever returned.
pub open spec fn parse_headers(s: Seq<u8>, pos: int) -> Result<(Seq<HeaderView>, int), CodecError> {
    match parse_var_int(s, pos) {
        Err(e) => Err(e),
        Ok((n, p)) => parse_headers_items(s, p, n as nat),
    }
}

impl Headers {
    /// Wraps an ordered run of headers as a Headers message.
    pub fn new(headers: Vec<Header>) -> (r: Headers)
        ensures
            r@ == header_views(headers@),
    {
        Headers(headers)
    }

    /// The headers of this message, in transmitted order.
    pub fn iter(&self) -> (r: &Vec<Header>)
        ensures
            header_views(r@) == self@,
    {
        &self.0
    }

    /// The diagnostic projection: an ordered array of each header's
    /// projection.
    pub fn into_json(&self) -> (r: JsonValue)
        ensures
            (r@ matches JsonSpec::Array(elems) && elems.len() == self@.len()
                && forall|i: int| 0 <= i < self@.len() ==> elems[i] == header_json(self@[i])),
    {
        let mut items: Vec<JsonValue> = Vec::new();
        let n = self.0.len();
        let mut i: usize = 0;
        while i < n
            invariant
                i <= n,
                n == self.0.len(),
                items@.len() == i as int,
                forall|j: int| 0 <= j < i ==> items@[j]@ == header_json(self@[j]),
            decreases n - i,
        {
            let h = self.0[i];
            items.push(h.into_json());
            i = i + 1;
        }
        JsonValue::array(items)
    }
}

impl Deserialize for Headers {
    open spec fn spec_parse(s: Seq<u8>, pos: int) -> Result<(Seq<HeaderView>, int), CodecError> {
        parse_headers(s, pos)
    }

    fn deserialize(s: &[u8], pos: usize) -> (r: Result<(Headers, usize), CodecError>) {
        let (count, start) = match read_var_int(s, pos) {
            Ok(x) => x,
            Err(e) => { return Err(e); },
        };
        let mut items: Vec<Header> = Vec::new();
        let mut cur: usize = start;
        let mut i: u64 = 0;
        while i < count
            invariant
                i <= count,
                items@.len() == i as int,
                parse_var_int(s@, pos as int) == Ok::<(u64, int), CodecError>((
                    count,
                    start as int,
                )),
                (match parse_headers_items(s@, cur as int, (count - i) as nat) {
                    Ok((rest, end)) => parse_headers_items(s@, start as int, count as nat)
                        == Ok::<(Seq<HeaderView>, int), CodecError>((
                            header_views(items@) + rest,
                            end,
                        )),
                    Err(e) => parse_headers_items(s@, start as int, count as nat)
                        == Err::<(Seq<HeaderView>, int), CodecError>(e),
                }),
            decreases count - i,
        {
            match Header::deserialize(s, cur) {
                Ok((h, p)) => {
                    proof {
                        let rem = (count - i) as nat;
                        match parse_headers_items(s@, p as int, (rem - 1) as nat) {
                            Ok((rest, end)) => {
                                assert(header_views(items@) + (seq![h@] + rest)
                                    =~= header_views(items@.push(h)) + rest);
                            },
                            Err(e) => {},
                        }
                    }
                    items.push(h);
                    cur = p;
                    i = i + 1;
                },
                Err(e) => { return Err(e); },
            }
        }
        proof {
            assert(header_views(items@) + Seq::<HeaderView>::empty() =~= header_views(items@));
        }
        Ok((Headers(items), cur))
    }
}

impl Serialize for Headers {
    open spec fn spec_bytes(&self) -> Seq<u8> {
        headers_bytes(self@)
    }

    fn serialize(&self, out: &mut Vec<u8>) {
        let n = self.0.len();
        write_var_int(out, n as u64);
        let mut i: usize = 0;
        while i < n
            invariant
                i <= n,
                n == self.0.len(),
                self@.len() == n as int,
                out@ == old(out)@ + var_int_bytes(n as u64)
                    + headers_items_bytes(self@.take(i as int)),
            decreases n - i,
        {
            let h = self.0[i];
            h.serialize(out);
            proof {
                lemma_headers_items_bytes_snoc(self@.take(i as int), self@[i as int]);
                assert(self@.take(i + 1 as int) =~= self@.take(i as int).push(self@[i as int]));
                assert(out@ =~= old(out)@ + var_int_bytes(n as u64)
                    + headers_items_bytes(self@.take(i + 1 as int)));
            }
            i = i + 1;
        }
        proof {
            assert(self@.take(n as int) =~= self@);
            assert(out@ =~= old(out)@ + headers_bytes(self@));
        }
    }
}

/// Appending one header to a run appends its byte image to the run's.
pub proof fn lemma_headers_items_bytes_snoc(items: Seq<HeaderView>, x: HeaderView)
    ensures
        headers_items_bytes(items.push(x)) == headers_items_bytes(items) + header_bytes(x),
    decreases items.len(),
{
    if items.len() == 0 {
        reveal_with_fuel(headers_items_bytes, 2);
        assert(items.push(x).drop_first() =~= Seq::<HeaderView>::empty());
        assert(items.push(x).first() == x);
        assert(headers_items_bytes(items.push(x).drop_first())
            == headers_items_bytes(Seq::<HeaderView>::empty()));
        assert(header_bytes(x) + Seq::<u8>::empty() =~= header_bytes(x));
        assert(Seq::<u8>::empty() + header_bytes(x) =~= header_bytes(x));
    } else {
        assert(items.push(x).drop_first() =~= items.drop_first().push(x));
        assert(items.push(x).first() == items.first());
        lemma_headers_items_bytes_snoc(items.drop_first(), x);
        assert(header_bytes(items.first())
            + (headers_items_bytes(items.drop_first()) + header_bytes(x))
            =~= (header_bytes(items.first()) + headers_items_bytes(items.drop_first()))
                + header_bytes(x));
    }
}

/// Round trip for a run: a stream that carries the byte images of `items`
/// back to back at `pos` decodes to exactly those headers.
pub proof fn lemma_headers_items_round_trip(items: Seq<HeaderView>, s: Seq<u8>, pos: int)
    requires
        forall|i: int| 0 <= i < items.len() ==> items[i].wf(),
        0 <= pos,
        pos + headers_items_bytes(items).len() <= s.len(),
        s.subrange(pos, pos + headers_items_bytes(items).len()) == headers_items_bytes(items),
    ensures
        parse_headers_items(s, pos, items.len()) == Ok::<(Seq<HeaderView>, int), CodecError>((
            items,
            pos + headers_items_bytes(items).len(),
        )),
    decreases items.len(),
{
    if items.len() == 0 {
        assert(items =~= Seq::<HeaderView>::empty());
    } else {
        let first = items.first();
        let rest = items.drop_first();
        let fb = header_bytes(first);
        let rb = headers_items_bytes(rest);
        let all = headers_items_bytes(items);
        assert(all == fb + rb);
        lemma_subrange_split(s, pos, all, 0, fb.len() as int);
        assert(all.subrange(0, fb.len() as int) =~= fb);
        lemma_header_round_trip(first, s, pos);
        lemma_subrange_split(s, pos, all, fb.len() as int, all.len() as int);
        assert(all.subrange(fb.len() as int, all.len() as int) =~= rb);
        lemma_headers_items_round_trip(rest, s, pos + fb.len());
        assert(seq![first] + rest =~= items);
    }
}

/// The declared count governs a run: a successful decode of `n` headers
/// returns exactly `n` of them.
pub proof fn lemma_headers_items_count_governed(s: Seq<u8>, pos: int, n: nat)
    ensures
        (match parse_headers_items(s, pos, n) {
            Ok((items, end)) => items.len() == n,
            Err(e) => true,
        }),
    decreases n,
{
    if n != 0 {
        match parse_header(s, pos) {
            Ok((h, p)) => {
                lemma_headers_items_count_governed(s, p, (n - 1) as nat);
            },
            Err(e) => {},
        }
    }
}

/// Count governance: a Headers decode that succeeds returns exactly as
/// many headers as the stream declared — a stream that carries fewer
/// fails outright, and no partial run is ever returned.
pub proof fn lemma_headers_never_partial(s: Seq<u8>, pos: int)
    ensures
        (match parse_headers(s, pos) {
            Ok((items, end)) => (match parse_var_int(s, pos) {
                Ok((n, p)) => items.len() == n,
                Err(e) => false,
            }),
            Err(e) => true,
        }),
{
    match parse_var_int(s, pos) {
        Ok((n, p)) => {
            lemma_headers_items_count_governed(s, p, n as nat);
        },
        Err(e) => {},
    }
}

/// Round trip: a stream that carries the wire form of a Headers message at
/// `pos` decodes to exactly those headers, whatever follows.
pub proof fn lemma_headers_round_trip(items: Seq<HeaderView>, s: Seq<u8>, pos: int)
    requires
        forall|i: int| 0 <= i < items.len() ==> items[i].wf(),
        items.len() <= u64::MAX,
        0 <= pos,
        pos + headers_bytes(items).len() <= s.len(),
        s.subrange(pos, pos + headers_bytes(items).len()) == headers_bytes(items),
    ensures
        parse_headers(s, pos) == Ok::<(Seq<HeaderView>, int), CodecError>((
            items,
            pos + headers_bytes(items).len(),
        )),
{
    let n = items.len() as u64;
    let vb = var_int_bytes(n);
    let ib = headers_items_bytes(items);
    let all = headers_bytes(items);
    lemma_subrange_split(s, pos, all, 0, vb.len() as int);
    assert(all.subrange(0, vb.len() as int) =~= vb);
    lemma_parse_var_int_prefix(s, pos, n);
    lemma_subrange_split(s, pos, all, vb.len() as int, all.len() as int);
    assert(all.subrange(vb.len() as int, all.len() as int) =~= ib);
    lemma_headers_items_round_trip(items, s, pos + vb.len());
}

} // verus!
