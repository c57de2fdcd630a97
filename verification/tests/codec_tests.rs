use blockwire::codec::{Deserialize, Serialize};
use blockwire::headers::{Header, Headers};
use blockwire::inv::{Inv, InvItem, InvType};
use blockwire::json::JsonValue;
use blockwire::ping::Ping;
use blockwire::pong::Pong;
use blockwire::sha256::{compute_double_sha256, Sha256};
use blockwire::CodecError;

fn sample_header() -> Header {
    Header {
        version: 1,
        prev_block: Sha256::from_bytes([0u8; 32]),
        merkle_root: Sha256::from_bytes([0x4A; 32]),
        timestamp: 1231006505,
        bits: 0x1d00ffff,
        nonce: 2083236893,
        tx_count: 1,
    }
}

fn encode<T: Serialize>(v: &T) -> Vec<u8> {
    let mut out = Vec::new();
    v.serialize(&mut out);
    out
}

#[test]
fn header_round_trip() {
    let h = sample_header();
    let bytes = encode(&h);
    let (h2, used) = Header::deserialize(&bytes, 0).unwrap();
    assert_eq!(used, bytes.len());
    assert_eq!(h2, h);
}

#[test]
fn header_round_trip_negative_version_large_count() {
    let h = Header {
        version: -7,
        prev_block: Sha256::from_bytes([0xAB; 32]),
        merkle_root: Sha256::from_bytes([0xCD; 32]),
        timestamp: u32::MAX,
        bits: 0,
        nonce: u32::MAX,
        tx_count: u64::MAX,
    };
    let bytes = encode(&h);
    let (h2, used) = Header::deserialize(&bytes, 0).unwrap();
    assert_eq!(used, bytes.len());
    assert_eq!(h2, h);
}

#[test]
fn header_exact_length_81() {
    let h = sample_header();
    assert!(h.tx_count < 253);
    assert_eq!(encode(&h).len(), 81);
}

#[test]
fn header_field_order_on_wire() {
    let h = sample_header();
    let bytes = encode(&h);
    assert_eq!(&bytes[0..4], &[0x01, 0x00, 0x00, 0x00]);
    assert_eq!(&bytes[4..36], &[0u8; 32]);
    assert_eq!(&bytes[36..68], &[0x4A; 32]);
    assert_eq!(&bytes[68..72], &[0x29, 0xAB, 0x5F, 0x49]);
    assert_eq!(&bytes[72..76], &[0xFF, 0xFF, 0x00, 0x1D]);
    assert_eq!(&bytes[76..80], &[0x1D, 0xAC, 0x2B, 0x7C]);
    assert_eq!(bytes[80], 1);
}

#[test]
fn header_truncated_fails() {
    let h = sample_header();
    let bytes = encode(&h);
    for cut in [0, 3, 35, 79, 80] {
        let r = Header::deserialize(&bytes[..cut], 0);
        assert_eq!(r.unwrap_err(), CodecError::UnexpectedEnd);
    }
}

#[test]
fn header_scenario_hash() {
    // The 80-byte prefix of the sample header, double-hashed, must match
    // this digest across independent implementations.
    let expected: [u8; 32] = [
        0x97, 0x42, 0x58, 0x75, 0x6d, 0x2e, 0x6f, 0x9e, 0xf2, 0xbe, 0xcc, 0xdc, 0x5e, 0x57,
        0xf5, 0x1c, 0xc2, 0xb3, 0x44, 0x9a, 0x44, 0x33, 0x96, 0x0e, 0x08, 0x1e, 0x2d, 0x8b,
        0xd2, 0x2d, 0xb3, 0x1c,
    ];
    let h = sample_header();
    let bytes = encode(&h);
    assert_eq!(bytes.len(), 81);
    let digest = compute_double_sha256(&bytes[..80]);
    assert_eq!(digest.as_bytes(), &expected);
    assert_eq!(h.compute_hash().as_bytes(), &expected);
}

#[test]
fn hash_independent_of_tx_count() {
    let a = sample_header();
    let mut b = sample_header();
    b.tx_count = 250_000;
    assert_eq!(a.compute_hash(), b.compute_hash());
}

#[test]
fn double_sha256_matches_reference_vector() {
    // SHA-256 applied twice to "abc"; the single-round digest differs, so
    // this fails if the hash primitive handed its input back or ran once.
    let expected_hex = "4f8b42c22dd3729b519ba6f68d2da7cc5b2d606d05daed5ad5128cc03e6c6358";
    let digest = compute_double_sha256(&[0x61, 0x62, 0x63]);
    assert_eq!(digest.to_hex(), expected_hex);
}

#[test]
fn headers_round_trip() {
    let mut one = sample_header();
    one.tx_count = 0;
    let mut two = sample_header();
    two.version = 2;
    let msg = Headers::new(vec![one, two]);
    let bytes = encode(&msg);
    assert_eq!(bytes.len(), 1 + 81 + 81);
    assert_eq!(bytes[0], 2);
    let (msg2, used) = Headers::deserialize(&bytes, 0).unwrap();
    assert_eq!(used, bytes.len());
    assert_eq!(msg2.iter().as_slice(), &[one, two]);
}

#[test]
fn headers_empty_round_trip() {
    let msg = Headers::new(Vec::new());
    let bytes = encode(&msg);
    assert_eq!(bytes, vec![0u8]);
    let (msg2, used) = Headers::deserialize(&bytes, 0).unwrap();
    assert_eq!(used, 1);
    assert!(msg2.iter().is_empty());
}

#[test]
fn headers_count_governs_not_stream_end() {
    // Declares two headers but carries only one: the decode must fail with
    // the truncated-input error, never return a partial run.
    let one = sample_header();
    let mut bytes = vec![2u8];
    let mut h = Vec::new();
    one.serialize(&mut h);
    bytes.extend_from_slice(&h);
    let r = Headers::deserialize(&bytes, 0);
    assert_eq!(r.unwrap_err(), CodecError::UnexpectedEnd);
}

#[test]
fn ping_pong_round_trip() {
    let ping = Ping::new(0x0123456789ABCDEF);
    let bytes = encode(&ping);
    assert_eq!(bytes.len(), 8);
    assert_eq!(bytes, vec![0xEF, 0xCD, 0xAB, 0x89, 0x67, 0x45, 0x23, 0x01]);
    let (ping2, used) = Ping::deserialize(&bytes, 0).unwrap();
    assert_eq!(used, 8);
    assert_eq!(ping2.nonce(), 0x0123456789ABCDEF);

    let pong = Pong::new(ping2.nonce());
    let pong_bytes = encode(&pong);
    assert_eq!(pong_bytes, bytes);
    let (pong2, _) = Pong::deserialize(&pong_bytes, 0).unwrap();
    assert_eq!(pong2, pong);
}

#[test]
fn ping_truncated_fails() {
    let r = Ping::deserialize(&[1, 2, 3, 4, 5, 6, 7], 0);
    assert_eq!(r.unwrap_err(), CodecError::UnexpectedEnd);
}

#[test]
fn inv_scenario_73_bytes() {
    let a = InvItem { object_type: InvType::Tx, hash: Sha256::from_bytes([0u8; 32]) };
    let b = InvItem { object_type: InvType::Block, hash: Sha256::from_bytes([0xFF; 32]) };
    let msg = Inv::new(vec![a, b]);
    let bytes = encode(&msg);
    assert_eq!(bytes.len(), 73);
    assert_eq!(bytes[0], 2);
    assert_eq!(&bytes[1..5], &[0x01, 0x00, 0x00, 0x00]);
    assert_eq!(&bytes[5..37], &[0u8; 32]);
    assert_eq!(&bytes[37..41], &[0x02, 0x00, 0x00, 0x00]);
    assert_eq!(&bytes[41..73], &[0xFF; 32]);
}

#[test]
fn inv_round_trip() {
    let items = vec![
        InvItem { object_type: InvType::Error, hash: Sha256::from_bytes([1; 32]) },
        InvItem { object_type: InvType::WitnessTx, hash: Sha256::from_bytes([2; 32]) },
        InvItem { object_type: InvType::FilteredWitnessBlock, hash: Sha256::from_bytes([3; 32]) },
    ];
    let msg = Inv::new(items.clone());
    let bytes = encode(&msg);
    let (msg2, used) = Inv::deserialize(&bytes, 0).unwrap();
    assert_eq!(used, bytes.len());
    assert_eq!(msg2.items(), &items);
}

#[test]
fn inv_item_exact_length_36() {
    let item = InvItem { object_type: InvType::CmpctBlock, hash: Sha256::from_bytes([9; 32]) };
    let bytes = encode(&item);
    assert_eq!(bytes.len(), 36);
}

#[test]
fn inv_item_unknown_type_code_fails() {
    // Type code 5 is outside the eight known constants.
    let mut bytes = vec![0x05, 0x00, 0x00, 0x00];
    bytes.extend_from_slice(&[0u8; 32]);
    let r = InvItem::deserialize(&bytes, 0);
    assert_eq!(r.unwrap_err(), CodecError::UnknownInvType(5));

    let r = InvItem::deserialize(&[0x00, 0x00, 0x00, 0x41, 0, 0, 0, 0], 0);
    assert_eq!(r.unwrap_err(), CodecError::UnknownInvType(0x41000000));
}

#[test]
fn inv_bad_type_poisons_whole_message() {
    let good = InvItem { object_type: InvType::Tx, hash: Sha256::from_bytes([0u8; 32]) };
    let msg = Inv::new(vec![good]);
    let mut bytes = encode(&msg);
    bytes[0] = 2;
    bytes.extend_from_slice(&[0x05, 0x00, 0x00, 0x00]);
    bytes.extend_from_slice(&[0u8; 32]);
    let r = Inv::deserialize(&bytes, 0);
    assert_eq!(r.unwrap_err(), CodecError::UnknownInvType(5));
}

#[test]
fn inv_count_governs_not_stream_end() {
    let good = InvItem { object_type: InvType::Tx, hash: Sha256::from_bytes([7; 32]) };
    let msg = Inv::new(vec![good]);
    let mut bytes = encode(&msg);
    bytes[0] = 3;
    let r = Inv::deserialize(&bytes, 0);
    assert_eq!(r.unwrap_err(), CodecError::UnexpectedEnd);
}

#[test]
fn inv_type_codes_round_trip() {
    let cases = [
        (InvType::Error, 0x00000000u32),
        (InvType::Tx, 0x00000001),
        (InvType::Block, 0x00000002),
        (InvType::FilteredBlock, 0x00000003),
        (InvType::CmpctBlock, 0x00000004),
        (InvType::WitnessTx, 0x40000001),
        (InvType::WitnessBlock, 0x40000002),
        (InvType::FilteredWitnessBlock, 0x40000003),
    ];
    for (t, code) in cases {
        assert_eq!(t.code(), code);
        assert_eq!(InvType::try_from(code).unwrap(), t);
    }
    assert_eq!(
        InvType::try_from(0x40000004).unwrap_err(),
        CodecError::UnknownInvType(0x40000004)
    );
}

#[test]
fn decode_starts_at_given_offset() {
    let ping = Ping::new(42);
    let mut bytes = vec![0xAA, 0xBB];
    let mut enc = Vec::new();
    ping.serialize(&mut enc);
    bytes.extend_from_slice(&enc);
    bytes.push(0xCC);
    let (ping2, used) = Ping::deserialize(&bytes, 2).unwrap();
    assert_eq!(ping2.nonce(), 42);
    assert_eq!(used, 10);
}

#[test]
fn sha256_to_hex() {
    let mut raw = [0u8; 32];
    raw[0] = 0x00;
    raw[1] = 0x0F;
    raw[2] = 0xA5;
    raw[31] = 0xFF;
    let h = Sha256::from_bytes(raw);
    let hex = h.to_hex();
    assert_eq!(hex.len(), 64);
    assert!(hex.starts_with("000fa5"));
    assert!(hex.ends_with("ff"));
}
