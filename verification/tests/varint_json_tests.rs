use blockwire::headers::{Header, Headers};
use blockwire::inv::{Inv, InvItem, InvType};
use blockwire::json::JsonValue;
use blockwire::ping::Ping;
use blockwire::pong::Pong;
use blockwire::sha256::Sha256;
use blockwire::varint::{read_var_int, write_var_int};
use blockwire::CodecError;

fn var_int_bytes_of(v: u64) -> Vec<u8> {
    let mut out = Vec::new();
    write_var_int(&mut out, v);
    out
}

#[test]
fn var_int_one_byte_form() {
    assert_eq!(var_int_bytes_of(0), vec![0]);
    assert_eq!(var_int_bytes_of(252), vec![252]);
    assert_eq!(read_var_int(&[252], 0).unwrap(), (252, 1));
}

#[test]
fn var_int_two_byte_form() {
    assert_eq!(var_int_bytes_of(253), vec![253, 253, 0]);
    assert_eq!(var_int_bytes_of(0xFFFF), vec![253, 0xFF, 0xFF]);
    assert_eq!(read_var_int(&[253, 0x34, 0x12], 0).unwrap(), (0x1234, 3));
}

#[test]
fn var_int_four_byte_form() {
    assert_eq!(var_int_bytes_of(0x10000), vec![254, 0x00, 0x00, 0x01, 0x00]);
    assert_eq!(
        read_var_int(&[254, 0x78, 0x56, 0x34, 0x12], 0).unwrap(),
        (0x12345678, 5)
    );
}

#[test]
fn var_int_eight_byte_form() {
    assert_eq!(
        var_int_bytes_of(0x1_0000_0000),
        vec![255, 0x00, 0x00, 0x00, 0x00, 0x01, 0x00, 0x00, 0x00]
    );
    let enc = var_int_bytes_of(u64::MAX);
    assert_eq!(enc.len(), 9);
    assert_eq!(read_var_int(&enc, 0).unwrap(), (u64::MAX, 9));
}

#[test]
fn var_int_round_trip_across_forms() {
    for v in [0u64, 1, 252, 253, 254, 0xFFFF, 0x10000, 0xFFFF_FFFF, 0x1_0000_0000, u64::MAX] {
        let enc = var_int_bytes_of(v);
        assert_eq!(read_var_int(&enc, 0).unwrap(), (v, enc.len()));
    }
}

#[test]
fn var_int_truncated_fails() {
    assert_eq!(read_var_int(&[], 0).unwrap_err(), CodecError::UnexpectedEnd);
    assert_eq!(read_var_int(&[253, 1], 0).unwrap_err(), CodecError::UnexpectedEnd);
    assert_eq!(read_var_int(&[254, 1, 2, 3], 0).unwrap_err(), CodecError::UnexpectedEnd);
    assert_eq!(
        read_var_int(&[255, 1, 2, 3, 4, 5, 6, 7], 0).unwrap_err(),
        CodecError::UnexpectedEnd
    );
}

#[test]
fn header_json_projection() {
    let h = Header {
        version: -3,
        prev_block: Sha256::from_bytes([0u8; 32]),
        merkle_root: Sha256::from_bytes([0xFF; 32]),
        timestamp: 7,
        bits: 8,
        nonce: 9,
        tx_count: 999,
    };
    let json = h.into_json();
    match json {
        JsonValue::Object(fields) => {
            assert_eq!(fields.len(), 6);
            assert_eq!(fields[0].0, "version");
            assert_eq!(fields[0].1, JsonValue::Number(-3));
            assert_eq!(fields[1].0, "prev_block");
            assert_eq!(fields[1].1, JsonValue::Text("0".repeat(64)));
            assert_eq!(fields[2].0, "merkle_root");
            assert_eq!(fields[2].1, JsonValue::Text("f".repeat(64)));
            assert_eq!(fields[3], ("timestamp".to_string(), JsonValue::Number(7)));
            assert_eq!(fields[4], ("bits".to_string(), JsonValue::Number(8)));
            assert_eq!(fields[5], ("nonce".to_string(), JsonValue::Number(9)));
        }
        other => panic!("expected an object, got {:?}", other),
    }
}

#[test]
fn inv_item_json_projection() {
    let item = InvItem {
        object_type: InvType::WitnessBlock,
        hash: Sha256::from_bytes([0xAB; 32]),
    };
    let json = item.into_json();
    match json {
        JsonValue::Object(fields) => {
            assert_eq!(fields.len(), 2);
            assert_eq!(fields[0], ("type".to_string(), JsonValue::Text("WITNESS_BLOCK".to_string())));
            assert_eq!(fields[1], ("hash".to_string(), JsonValue::Text("ab".repeat(32))));
        }
        other => panic!("expected an object, got {:?}", other),
    }
}

#[test]
fn ping_json_projection() {
    let ping = Ping::new(12345);
    assert_eq!(ping.into_json(), JsonValue::Number(12345));
}

#[test]
fn inv_type_names() {
    assert_eq!(InvType::Error.name(), "ERROR");
    assert_eq!(InvType::Tx.name(), "TX");
    assert_eq!(InvType::Block.name(), "BLOCK");
    assert_eq!(InvType::FilteredBlock.name(), "FILTERED_BLOCK");
    assert_eq!(InvType::CmpctBlock.name(), "CMPCT_BLOCK");
    assert_eq!(InvType::WitnessTx.name(), "WITNESS_TX");
    assert_eq!(InvType::WitnessBlock.name(), "WITNESS_BLOCK");
    assert_eq!(InvType::FilteredWitnessBlock.name(), "FILTERED_WITNESS_BLOCK");
}

#[test]
fn headers_json_projection_is_ordered_array() {
    let a = Header {
        version: 1,
        prev_block: Sha256::from_bytes([0u8; 32]),
        merkle_root: Sha256::from_bytes([0u8; 32]),
        timestamp: 1,
        bits: 2,
        nonce: 3,
        tx_count: 0,
    };
    let mut b = a;
    b.version = 2;
    let msg = Headers::new(vec![a, b]);
    match msg.into_json() {
        JsonValue::Array(elems) => {
            assert_eq!(elems.len(), 2);
            assert_eq!(elems[0], a.into_json());
            assert_eq!(elems[1], b.into_json());
        }
        other => panic!("expected an array, got {:?}", other),
    }
}

#[test]
fn inv_json_projection_is_ordered_array() {
    let a = InvItem { object_type: InvType::Tx, hash: Sha256::from_bytes([1; 32]) };
    let b = InvItem { object_type: InvType::Block, hash: Sha256::from_bytes([2; 32]) };
    let msg = Inv::new(vec![a, b]);
    match msg.into_json() {
        JsonValue::Array(elems) => {
            assert_eq!(elems.len(), 2);
            assert_eq!(elems[0], a.into_json());
            assert_eq!(elems[1], b.into_json());
        }
        other => panic!("expected an array, got {:?}", other),
    }
}

#[test]
fn pong_json_projection() {
    let pong = Pong::new(u64::MAX);
    assert_eq!(pong.into_json(), JsonValue::Number(u64::MAX as i128));
}
