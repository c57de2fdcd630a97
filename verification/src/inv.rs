//! The inventory announcement message: a run of (object type, hash) pairs
//! a peer announces or requests. The type is a closed eight-code
//! enumeration, validated strictly on decode; the four witness codes are
//! the plain code with a high capability bit set, not new object kinds.

use vstd::prelude::*;
use vstd::string::StringExecFns;

use crate::CodecError;
use crate::bytes::{
    u32_le_bytes, parse_u32, read_u32, write_u32,
    lemma_parse_u32_prefix, lemma_subrange_split,
};
use crate::varint::{
    var_int_bytes, parse_var_int, read_var_int, write_var_int,
    lemma_parse_var_int_prefix,
};
use crate::sha256::{Sha256, parse_sha256, read_sha256, write_sha256, hex_of};
use crate::codec::{Deserialize, Serialize};
use crate::json::{JsonValue, JsonSpec};

verus! {

/// The eight inventory object kinds the protocol knows.
#[derive(Clone, Copy, Debug, PartialEq, Eq, Structural)]
pub enum InvType {
    Error,
    Tx,
    Block,
    FilteredBlock,
    CmpctBlock,
    WitnessTx,
    WitnessBlock,
    FilteredWitnessBlock,
}

/// The fixed 32-bit wire code bound to each kind. The witness codes are
/// the plain code with bit 0x40000000 set.
pub open spec fn code_of(t: InvType) -> u32 {
    match t {
        InvType::Error => 0x00000000,
        InvType::Tx => 0x00000001,
        InvType::Block => 0x00000002,
        InvType::FilteredBlock => 0x00000003,
        InvType::CmpctBlock => 0x00000004,
        InvType::WitnessTx => 0x40000001,
        InvType::WitnessBlock => 0x40000002,
        InvType::FilteredWitnessBlock => 0x40000003,
    }
}

/// The kind a wire code denotes, if it denotes one at all.
pub open spec fn inv_type_of_code(c: u32) -> Option<InvType> {
    if c == 0x00000000 { Some(InvType::Error) }
    else if c == 0x00000001 { Some(InvType::Tx) }
    else if c == 0x00000002 { Some(InvType::Block) }
    else if c == 0x00000003 { Some(InvType::FilteredBlock) }
    else if c == 0x00000004 { Some(InvType::CmpctBlock) }
    else if c == 0x40000001 { Some(InvType::WitnessTx) }
    else if c == 0x40000002 { Some(InvType::WitnessBlock) }
    else if c == 0x40000003 { Some(InvType::FilteredWitnessBlock) }
    else { None }
}

/// The fixed display name of each kind.
pub open spec fn name_of(t: InvType) -> Seq<char> {
    match t {
        InvType::Error => "ERROR"@,
        InvType::Tx => "TX"@,
        InvType::Block => "BLOCK"@,
        InvType::FilteredBlock => "FILTERED_BLOCK"@,
        InvType::CmpctBlock => "CMPCT_BLOCK"@,
        InvType::WitnessTx => "WITNESS_TX"@,
        InvType::WitnessBlock => "WITNESS_BLOCK"@,
        InvType::FilteredWitnessBlock => "FILTERED_WITNESS_BLOCK"@,
    }
}

impl InvType {
    /// The kind bound to a wire code: exactly the eight known constants
    /// are accepted, and any other code is the protocol-violation error
    /// carrying that code.
    pub fn try_from(code: u32) -> (r: Result<InvType, CodecError>)
        ensures
            (match inv_type_of_code(code) {
                Some(t) => r == Ok::<InvType, CodecError>(t),
                None => r == Err::<InvType, CodecError>(CodecError::UnknownInvType(code)),
            }),
    {
        if code == 0x00000000 { Ok(InvType::Error) }
        else if code == 0x00000001 { Ok(InvType::Tx) }
        else if code == 0x00000002 { Ok(InvType::Block) }
        else if code == 0x00000003 { Ok(InvType::FilteredBlock) }
        else if code == 0x00000004 { Ok(InvType::CmpctBlock) }
        else if code == 0x40000001 { Ok(InvType::WitnessTx) }
        else if code == 0x40000002 { Ok(InvType::WitnessBlock) }
        else if code == 0x40000003 { Ok(InvType::FilteredWitnessBlock) }
        else { Err(CodecError::UnknownInvType(code)) }
    }

    /// The exact wire code of this kind; encode writes it back without
    /// recomputation or normalization.
    pub fn code(&self) -> (r: u32)
        ensures
            r == code_of(*self),
    {
        match self {
            InvType::Error => 0x00000000,
            InvType::Tx => 0x00000001,
            InvType::Block => 0x00000002,
            InvType::FilteredBlock => 0x00000003,
            InvType::CmpctBlock => 0x00000004,
            InvType::WitnessTx => 0x40000001,
            InvType::WitnessBlock => 0x40000002,
            InvType::FilteredWitnessBlock => 0x40000003,
        }
    }

    /// The fixed display name of this kind.
    pub fn name(&self) -> (r: String)
        ensures
            r@ == name_of(*self),
    {
        match self {
            InvType::Error => String::from_str("ERROR"),
            InvType::Tx => String::from_str("TX"),
            InvType::Block => String::from_str("BLOCK"),
            InvType::FilteredBlock => String::from_str("FILTERED_BLOCK"),
            InvType::CmpctBlock => String::from_str("CMPCT_BLOCK"),
            InvType::WitnessTx => String::from_str("WITNESS_TX"),
            InvType::WitnessBlock => String::from_str("WITNESS_BLOCK"),
            InvType::FilteredWitnessBlock => String::from_str("FILTERED_WITNESS_BLOCK"),
        }
    }
}

/// The code of every kind maps back to that kind.
pub proof fn lemma_inv_type_code_round_trip(t: InvType)
    ensures
        inv_type_of_code(code_of(t)) == Some(t),
{
}

/// One announced or requested object: its kind and its content hash.
#[derive(Clone, Copy, Debug, PartialEq, Eq)]
pub struct InvItem {
    pub object_type: InvType,
    pub hash: Sha256,
}

/// The mathematical form of an inventory item: the hash as raw bytes.
pub struct InvItemView {
    pub object_type: InvType,
    pub hash: Seq<u8>,
}

impl InvItemView {
    /// The hash holds exactly 32 bytes.
    pub open spec fn wf(self) -> bool {
        self.hash.len() == 32
    }
}

impl View for InvItem {
    type V = InvItemView;

    open spec fn view(&self) -> InvItemView {
        InvItemView { object_type: self.object_type, hash: self.hash@ }
    }
}

/// The fixed 36-byte wire form of one item: its type code, then its hash.
pub open spec fn inv_item_bytes(v: InvItemView) -> Seq<u8> {
    u32_le_bytes(code_of(v.object_type)) + v.hash
}

/// What decoding one item at `pos` yields. A code outside the eight known
/// constants fails with the protocol-violation error carrying that code,
/// before any byte of the hash is consumed.
pub open spec fn parse_inv_item(s: Seq<u8>, pos: int) -> Result<(InvItemView, int), CodecError> {
    match parse_u32(s, pos) {
        Err(e) => Err(e),
        Ok((c, p1)) => match inv_type_of_code(c) {
            None => Err(CodecError::UnknownInvType(c)),
            Some(t) => match parse_sha256(s, p1) {
                Err(e) => Err(e),
                Ok((hash, p2)) => Ok((InvItemView { object_type: t, hash }, p2)),
            },
        },
    }
}

/// The diagnostic projection of one item: its kind's name and its hash in
/// hexadecimal text form.
pub open spec fn inv_item_json(v: InvItemView) -> JsonSpec {
    JsonSpec::Object(seq![
        ("type"@, JsonSpec::Text(name_of(v.object_type))),
        ("hash"@, JsonSpec::Text(hex_of(v.hash))),
    ])
}

impl InvItem {
    /// The diagnostic projection of this item.
    pub fn into_json(&self) -> (r: JsonValue)
        ensures
            r@ == inv_item_json(self@),
    {
        let mut fields: Vec<(String, JsonValue)> = Vec::new();
        fields.push((String::from_str("type"), JsonValue::string(self.object_type.name())));
        fields.push((String::from_str("hash"), JsonValue::string(self.hash.to_hex())));
        let r = JsonValue::object(fields);
        proof {
            let fs = r@->Object_0;
            let es = inv_item_json(self@)->Object_0;
            assert(fs[0] == es[0] && fs[1] == es[1]);
            assert(fs =~= es);
            assert(r@ =~= inv_item_json(self@));
        }
        r
    }
}

impl Deserialize for InvItem {
    open spec fn spec_parse(s: Seq<u8>, pos: int) -> Result<(InvItemView, int), CodecError> {
        parse_inv_item(s, pos)
    }

    fn deserialize(s: &[u8], pos: usize) -> (r: Result<(InvItem, usize), CodecError>) {
        let (code, p1) = match read_u32(s, pos) {
            Ok(x) => x,
            Err(e) => { return Err(e); },
        };
        let object_type = match InvType::try_from(code) {
            Ok(t) => t,
            Err(e) => { return Err(e); },
        };
        let (hash, p2) = match read_sha256(s, p1) {
            Ok(x) => x,
            Err(e) => { return Err(e); },
        };
        Ok((InvItem { object_type, hash }, p2))
    }
}

impl Serialize for InvItem {
    open spec fn spec_bytes(&self) -> Seq<u8> {
        inv_item_bytes(self@)
    }

    fn serialize(&self, out: &mut Vec<u8>) {
        write_u32(out, self.object_type.code());
        write_sha256(out, &self.hash);
        proof {
            assert(out@ =~= old(out)@ + inv_item_bytes(self@));
        }
    }
}

/// One item always encodes to exactly 36 bytes.
pub proof fn lemma_inv_item_encoded_len(v: InvItemView)
    requires
        v.wf(),
    ensures
        inv_item_bytes(v).len() == 36,
{
}

/// Round trip: a stream that carries the byte image of an item at `pos`
/// decodes to that very item and stops just past it, whatever follows.
pub proof fn lemma_inv_item_round_trip(v: InvItemView, s: Seq<u8>, pos: int)
    requires
        v.wf(),
        0 <= pos,
        pos + 36 <= s.len(),
        s.subrange(pos, pos + 36) == inv_item_bytes(v),
    ensures
        parse_inv_item(s, pos) == Ok::<(InvItemView, int), CodecError>((v, pos + 36)),
{
    let b = inv_item_bytes(v);
    lemma_subrange_split(s, pos, b, 0, 4);
    assert(b.subrange(0, 4) =~= u32_le_bytes(code_of(v.object_type)));
    lemma_parse_u32_prefix(s, pos, code_of(v.object_type));
    lemma_inv_type_code_round_trip(v.object_type);
    lemma_subrange_split(s, pos, b, 4, 36);
    assert(b.subrange(4, 36) =~= v.hash);
}

/// A code outside the eight known constants fails the whole item with the
/// protocol-violation error naming it; nothing past the code is read.
pub proof fn lemma_parse_inv_item_bad_type(c: u32, s: Seq<u8>, pos: int)
    requires
        inv_type_of_code(c) is None,
        0 <= pos,
        pos + 4 <= s.len(),
        s.subrange(pos, pos + 4) == u32_le_bytes(c),
    ensures
        parse_inv_item(s, pos) == Err::<(InvItemView, int), CodecError>(
            CodecError::UnknownInvType(c),
        ),
{
    lemma_parse_u32_prefix(s, pos, c);
}

/// An ordered run of announced objects; order is preserved but carries no
/// meaning beyond transmission order.
#[derive(Clone, Debug)]
pub struct Inv {
    inv: Vec<InvItem>,
}

/// The mathematical forms of a run of items, in order.
pub open spec fn inv_item_views(items: Seq<InvItem>) -> Seq<InvItemView> {
    items.map_values(|it: InvItem| it@)
}

impl View for Inv {
    type V = Seq<InvItemView>;

    closed spec fn view(&self) -> Seq<InvItemView> {
        inv_item_views(self.inv@)
    }
}

/// The byte images of a run of items, back to back.
pub open spec fn inv_items_bytes(items: Seq<InvItemView>) -> Seq<u8>
    decreases items.len(),
{
    if items.len() == 0 {
        Seq::empty()
    } else {
        inv_item_bytes(items.first()) + inv_items_bytes(items.drop_first())
    }
}

/// The wire form of an Inv message: the count, then that many item
/// encodings back to back.
pub open spec fn inv_bytes(items: Seq<InvItemView>) -> Seq<u8> {
    var_int_bytes(items.len() as u64) + inv_items_bytes(items)
}

/// What decoding `n` consecutive items at `pos` yields.
pub open spec fn parse_inv_items(s: Seq<u8>, pos: int, n: nat) -> Result<
    (Seq<InvItemView>, int),
    CodecError,
>
    decreases n,
{
    if n == 0 {
        Ok((Seq::empty(), pos))
    } else {
        match parse_inv_item(s, pos) {
            Err(e) => Err(e),
            Ok((v, p)) => match parse_inv_items(s, p, (n - 1) as nat) {
                Err(e) => Err(e),
                Ok((rest, end)) => Ok((seq![v] + rest, end)),
            },
        }
    }
}

/// What decoding an Inv message at `pos` yields: the declared count
/// governs how many items are read; the stream ending first is an error,
/// and no partial run is ever returned.
pub open spec fn parse_inv(s: Seq<u8>, pos: int) -> Result<(Seq<InvItemView>, int), CodecError> {
    match parse_var_int(s, pos) {
        Err(e) => Err(e),
        Ok((n, p)) => parse_inv_items(s, p, n as nat),
    }
}

impl Inv {
    /// Wraps an ordered run of items as an Inv message.
    pub fn new(items: Vec<InvItem>) -> (r: Inv)
        ensures
            r@ == inv_item_views(items@),
    {
        Inv { inv: items }
    }

    /// The items of this message, in transmitted order.
    pub fn items(&self) -> (r: &Vec<InvItem>)
        ensures
            inv_item_views(r@) == self@,
    {
        &self.inv
    }

    /// The diagnostic projection: an ordered array of each item's
    /// projection.
    pub fn into_json(&self) -> (r: JsonValue)
        ensures
            (r@ matches JsonSpec::Array(elems) && elems.len() == self@.len()
                && forall|i: int| 0 <= i < self@.len() ==> elems[i] == inv_item_json(self@[i])),
    {
        let mut items: Vec<JsonValue> = Vec::new();
        let n = self.inv.len();
        let mut i: usize = 0;
        while i < n
            invariant
                i <= n,
                n == self.inv.len(),
                items@.len() == i as int,
                forall|j: int| 0 <= j < i ==> items@[j]@ == inv_item_json(self@[j]),
            decreases n - i,
        {
            let it = self.inv[i];
            items.push(it.into_json());
            i = i + 1;
        }
        JsonValue::array(items)
    }
}

impl Deserialize for Inv {
    open spec fn spec_parse(s: Seq<u8>, pos: int) -> Result<(Seq<InvItemView>, int), CodecError> {
        parse_inv(s, pos)
    }

    fn deserialize(s: &[u8], pos: usize) -> (r: Result<(Inv, usize), CodecError>) {
        let (count, start) = match read_var_int(s, pos) {
            Ok(x) => x,
            Err(e) => { return Err(e); },
        };
        let mut items: Vec<InvItem> = Vec::new();
        let mut cur: usize = start;
        let mut i: u64 = 0;
        while i < count
            invariant
                i <= count,
                items@.len() == i as int,
                parse_var_int(s@, pos as int) == Ok::<(u64, int), CodecError>((
                    count,
                    start as int,
                )),
                (match parse_inv_items(s@, cur as int, (count - i) as nat) {
                    Ok((rest, end)) => parse_inv_items(s@, start as int, count as nat)
                        == Ok::<(Seq<InvItemView>, int), CodecError>((
                            inv_item_views(items@) + rest,
                            end,
                        )),
                    Err(e) => parse_inv_items(s@, start as int, count as nat)
                        == Err::<(Seq<InvItemView>, int), CodecError>(e),
                }),
            decreases count - i,
        {
            match InvItem::deserialize(s, cur) {
                Ok((v, p)) => {
                    proof {
                        let rem = (count - i) as nat;
                        match parse_inv_items(s@, p as int, (rem - 1) as nat) {
                            Ok((rest, end)) => {
                                assert(inv_item_views(items@) + (seq![v@] + rest)
                                    =~= inv_item_views(items@.push(v)) + rest);
                            },
                            Err(e) => {},
                        }
                    }
                    items.push(v);
                    cur = p;
                    i = i + 1;
                },
                Err(e) => { return Err(e); },
            }
        }
        proof {
            assert(inv_item_views(items@) + Seq::<InvItemView>::empty()
                =~= inv_item_views(items@));
        }
        Ok((Inv { inv: items }, cur))
    }
}

impl Serialize for Inv {
    open spec fn spec_bytes(&self) -> Seq<u8> {
        inv_bytes(self@)
    }

    fn serialize(&self, out: &mut Vec<u8>) {
        let n = self.inv.len();
        write_var_int(out, n as u64);
        let mut i: usize = 0;
        while i < n
            invariant
                i <= n,
                n == self.inv.len(),
                self@.len() == n as int,
                out@ == old(out)@ + var_int_bytes(n as u64)
                    + inv_items_bytes(self@.take(i as int)),
            decreases n - i,
        {
            let it = self.inv[i];
            it.serialize(out);
            proof {
                lemma_inv_items_bytes_snoc(self@.take(i as int), self@[i as int]);
                assert(self@.take(i + 1 as int) =~= self@.take(i as int).push(self@[i as int]));
                assert(out@ =~= old(out)@ + var_int_bytes(n as u64)
                    + inv_items_bytes(self@.take(i + 1 as int)));
            }
            i = i + 1;
        }
        proof {
            assert(self@.take(n as int) =~= self@);
            assert(out@ =~= old(out)@ + inv_bytes(self@));
        }
    }
}

/// Appending one item to a run appends its byte image to the run's.
pub proof fn lemma_inv_items_bytes_snoc(items: Seq<InvItemView>, x: InvItemView)
    ensures
        inv_items_bytes(items.push(x)) == inv_items_bytes(items) + inv_item_bytes(x),
    decreases items.len(),
{
    if items.len() == 0 {
        reveal_with_fuel(inv_items_bytes, 2);
        assert(items.push(x).drop_first() =~= Seq::<InvItemView>::empty());
        assert(items.push(x).first() == x);
        assert(inv_items_bytes(items.push(x).drop_first())
            == inv_items_bytes(Seq::<InvItemView>::empty()));
        assert(inv_item_bytes(x) + Seq::<u8>::empty() =~= inv_item_bytes(x));
        assert(Seq::<u8>::empty() + inv_item_bytes(x) =~= inv_item_bytes(x));
    } else {
        assert(items.push(x).drop_first() =~= items.drop_first().push(x));
        assert(items.push(x).first() == items.first());
        lemma_inv_items_bytes_snoc(items.drop_first(), x);
        assert(inv_item_bytes(items.first())
            + (inv_items_bytes(items.drop_first()) + inv_item_bytes(x))
            =~= (inv_item_bytes(items.first()) + inv_items_bytes(items.drop_first()))
                + inv_item_bytes(x));
    }
}

/// Round trip for a run: a stream that carries the byte images of `items`
/// back to back at `pos` decodes to exactly those items.
pub proof fn lemma_inv_items_round_trip(items: Seq<InvItemView>, s: Seq<u8>, pos: int)
    requires
        forall|i: int| 0 <= i < items.len() ==> items[i].wf(),
        0 <= pos,
        pos + inv_items_bytes(items).len() <= s.len(),
        s.subrange(pos, pos + inv_items_bytes(items).len()) == inv_items_bytes(items),
    ensures
        parse_inv_items(s, pos, items.len()) == Ok::<(Seq<InvItemView>, int), CodecError>((
            items,
            pos + inv_items_bytes(items).len(),
        )),
    decreases items.len(),
{
    if items.len() == 0 {
        assert(items =~= Seq::<InvItemView>::empty());
    } else {
        let first = items.first();
        let rest = items.drop_first();
        let fb = inv_item_bytes(first);
        let rb = inv_items_bytes(rest);
        let all = inv_items_bytes(items);
        assert(all == fb + rb);
        lemma_inv_item_encoded_len(first);
        lemma_subrange_split(s, pos, all, 0, fb.len() as int);
        assert(all.subrange(0, fb.len() as int) =~= fb);
        lemma_inv_item_round_trip(first, s, pos);
        lemma_subrange_split(s, pos, all, fb.len() as int, all.len() as int);
        assert(all.subrange(fb.len() as int, all.len() as int) =~= rb);
        lemma_inv_items_round_trip(rest, s, pos + fb.len());
        assert(seq![first] + rest =~= items);
    }
}

/// The declared count governs a run: a successful decode of `n` items
/// returns exactly `n` of them.
pub proof fn lemma_inv_items_count_governed(s: Seq<u8>, pos: int, n: nat)
    ensures
        (match parse_inv_items(s, pos, n) {
            Ok((items, end)) => items.len() == n,
            Err(e) => true,
        }),
    decreases n,
{
    if n != 0 {
        match parse_inv_item(s, pos) {
            Ok((v, p)) => {
                lemma_inv_items_count_governed(s, p, (n - 1) as nat);
            },
            Err(e) => {},
        }
    }
}

/// Count governance: an Inv decode that succeeds returns exactly as many
/// items as the stream declared — a stream that carries fewer fails
/// outright, and no partial run is ever returned.
pub proof fn lemma_inv_never_partial(s: Seq<u8>, pos: int)
    ensures
        (match parse_inv(s, pos) {
            Ok((items, end)) => (match parse_var_int(s, pos) {
                Ok((n, p)) => items.len() == n,
                Err(e) => false,
            }),
            Err(e) => true,
        }),
{
    match parse_var_int(s, pos) {
        Ok((n, p)) => {
            lemma_inv_items_count_governed(s, p, n as nat);
        },
        Err(e) => {},
    }
}

/// Round trip: a stream that carries the wire form of an Inv message at
/// `pos` decodes to exactly those items, whatever follows.
pub proof fn lemma_inv_round_trip(items: Seq<InvItemView>, s: Seq<u8>, pos: int)
    requires
        forall|i: int| 0 <= i < items.len() ==> items[i].wf(),
        items.len() <= u64::MAX,
        0 <= pos,
        pos + inv_bytes(items).len() <= s.len(),
        s.subrange(pos, pos + inv_bytes(items).len()) == inv_bytes(items),
    ensures
        parse_inv(s, pos) == Ok::<(Seq<InvItemView>, int), CodecError>((
            items,
            pos + inv_bytes(items).len(),
        )),
{
    let n = items.len() as u64;
    let vb = var_int_bytes(n);
    let ib = inv_items_bytes(items);
    let all = inv_bytes(items);
    lemma_subrange_split(s, pos, all, 0, vb.len() as int);
    assert(all.subrange(0, vb.len() as int) =~= vb);
    lemma_parse_var_int_prefix(s, pos, n);
    lemma_subrange_split(s, pos, all, vb.len() as int, all.len() as int);
    assert(all.subrange(vb.len() as int, all.len() as int) =~= ib);
    lemma_inv_items_round_trip(items, s, pos + vb.len());
}

} // verus!
