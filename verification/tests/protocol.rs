use rcd_server::csv_parser::{BitIndex, Record};
use rcd_server::model::Value;
use rcd_server::protocol::{
    find_double_zero, hex_str_to_bytes, parse_data_packet, parse_status, verify_checksum,
};

// ---- verify_checksum ----

#[test]
fn verify_checksum_correct() {
    assert!(verify_checksum(&[0x01, 0x02, 0x03, 0x06]));
}

#[test]
fn verify_checksum_incorrect() {
    assert!(!verify_checksum(&[0x01, 0x02, 0x03, 0xFF]));
}

#[test]
fn verify_checksum_empty() {
    assert!(!verify_checksum(&[]));
}

#[test]
fn verify_checksum_single_byte() {
    assert!(verify_checksum(&[0x00]));
}

#[test]
fn verify_checksum_wrapping() {
    assert!(verify_checksum(&[0xFF, 0x02, 0x01]));
}

// ---- parse_data_packet ----

#[test]
fn parse_data_packet_normal() {
    let mut data = vec![0x01, 0x08, 0x02, 0x10, 0x20, 0x30];
    let crc: u8 = data.iter().fold(0u8, |a, &b| a.wrapping_add(b));
    data.push(crc);

    let pkt = parse_data_packet(&data).unwrap();
    assert_eq!(pkt.addr, 0x01);
    assert_eq!(pkt.cmd, 0x08);
    assert_eq!(pkt.len, 0x02);
    assert_eq!(pkt.status, vec![0x10, 0x20, 0x30]);
    assert_eq!(pkt.crc, crc);
}

#[test]
fn parse_data_packet_too_short() {
    let err = parse_data_packet(&[0x01, 0x02, 0x03]).unwrap_err();
    assert_eq!(err, "数据帧过短");
}

#[test]
fn parse_data_packet_length_mismatch() {
    let mut data = vec![0x01, 0x08, 0x05, 0x10, 0x20];
    let crc: u8 = data.iter().fold(0u8, |a, &b| a.wrapping_add(b));
    data.push(crc);

    let err = parse_data_packet(&data).unwrap_err();
    assert_eq!(err, "数据帧长度不匹配");
}

#[test]
fn parse_data_packet_bad_checksum() {
    let data = vec![0x01, 0x08, 0x02, 0x10, 0x20, 0x30, 0xFF];
    let err = parse_data_packet(&data).unwrap_err();
    assert_eq!(err, "校验和不匹配");
}

// ---- parse_status ----

fn make_record(kks: &str, type_: &str, byte_index: u32, bit_index: BitIndex, byte_order: u32) -> Record {
    Record {
        kks: kks.to_string(),
        type_: type_.to_string(),
        _f_type: String::new(),
        byte_index,
        bit_index,
        _def: 0,
        _max: 0,
        _min: 0,
        byte_order,
    }
}

/// The value a map built from the entries keeps for `kks` (the last one).
fn get(entries: &[(String, Value)], kks: &str) -> Option<Value> {
    entries.iter().rev().find(|(k, _)| k == kks).map(|(_, v)| *v)
}

#[test]
fn parse_status_single_bit() {
    let data = [0b0000_0100];
    let records = vec![
        make_record("K1", "bool", 1, BitIndex::Single(2), 0),
        make_record("K2", "bool", 1, BitIndex::Single(0), 0),
    ];
    let result = parse_status(&data, &records);
    assert_eq!(get(&result, "K1"), Some(Value::Bool(true)));
    assert_eq!(get(&result, "K2"), Some(Value::Bool(false)));
}

#[test]
fn parse_status_range_little_endian() {
    let data = [0x34, 0x12];
    let records = vec![make_record("K1", "uint", 1, BitIndex::Range(0..=15), 0)];
    let result = parse_status(&data, &records);
    assert_eq!(get(&result, "K1"), Some(Value::UInt(0x1234)));
}

#[test]
fn parse_status_range_big_endian() {
    let data = [0x12, 0x34];
    let records = vec![make_record("K1", "uint", 1, BitIndex::Range(0..=15), 1)];
    let result = parse_status(&data, &records);
    assert_eq!(get(&result, "K1"), Some(Value::UInt(0x1234)));
}

#[test]
fn parse_status_range_32_bits_little_endian() {
    let data = [0x78, 0x56, 0x34, 0x12];
    let records = vec![make_record("K1", "uint", 1, BitIndex::Range(0..=31), 0)];
    let result = parse_status(&data, &records);
    assert_eq!(get(&result, "K1"), Some(Value::UInt(0x1234_5678)));
}

#[test]
fn parse_status_range_32_bits_big_endian() {
    let data = [0x12, 0x34, 0x56, 0x78];
    let records = vec![make_record("K1", "uint", 1, BitIndex::Range(0..=31), 1)];
    let result = parse_status(&data, &records);
    assert_eq!(get(&result, "K1"), Some(Value::UInt(0x1234_5678)));
}

#[test]
fn parse_status_range_32_bits_unaligned_little_endian() {
    let data = [0x00, 0x00, 0x00, 0x00, 0x01];
    let records = vec![make_record("K1", "uint", 1, BitIndex::Range(1..=32), 0)];
    let result = parse_status(&data, &records);
    assert_eq!(get(&result, "K1"), Some(Value::UInt(0x8000_0000)));
}

#[test]
fn parse_status_range_wider_than_u32_skipped() {
    let data = [0xFF, 0xFF, 0xFF, 0xFF, 0xFF];
    let records = vec![make_record("bad", "uint", 1, BitIndex::Range(0..=32), 0)];
    let result = parse_status(&data, &records);
    assert!(get(&result, "bad").is_none());
}

#[test]
fn parse_status_out_of_bounds() {
    let data = [0xFF];
    let records = vec![make_record("K1", "uint", 5, BitIndex::Single(0), 0)];
    let result = parse_status(&data, &records);
    assert!(result.is_empty());
}

#[test]
fn parse_status_byte_index_zero_skipped() {
    let data = [0xFF];
    let records = vec![
        make_record("bad", "bool", 0, BitIndex::Single(0), 0),
        make_record("ok", "bool", 1, BitIndex::Single(0), 0),
    ];
    let result = parse_status(&data, &records);
    assert!(get(&result, "bad").is_none());
    assert_eq!(get(&result, "ok"), Some(Value::Bool(true)));
}

#[test]
fn parse_status_single_bit_out_of_range_skipped() {
    let data = [0xFF];
    let records = vec![
        make_record("bad", "bool", 1, BitIndex::Single(8), 0),
        make_record("ok", "bool", 1, BitIndex::Single(3), 0),
    ];
    let result = parse_status(&data, &records);
    assert!(get(&result, "bad").is_none());
    assert_eq!(get(&result, "ok"), Some(Value::Bool(true)));
}

#[test]
fn parse_status_float() {
    // raw 0x01F4 = 500 hundredths, i.e. 5.0
    let data = [0xF4, 0x01];
    let records = vec![make_record("K1", "float", 1, BitIndex::Range(0..=15), 0)];
    let result = parse_status(&data, &records);
    assert_eq!(get(&result, "K1"), Some(Value::Hundredths(500)));
    match get(&result, "K1") {
        Some(Value::Hundredths(n)) => assert_eq!(n as f32 / 100.0, 5.0),
        other => panic!("unexpected {:?}", other),
    }
}

#[test]
fn parse_status_unknown_type_skipped_and_duplicates_keep_last() {
    let data = [0x0F];
    let records = vec![
        make_record("T", "text", 1, BitIndex::Single(0), 0),
        make_record("D", "uint", 1, BitIndex::Range(0..=1), 0),
        make_record("D", "uint", 1, BitIndex::Range(0..=3), 0),
    ];
    let result = parse_status(&data, &records);
    assert_eq!(result.len(), 2);
    assert!(get(&result, "T").is_none());
    assert_eq!(get(&result, "D"), Some(Value::UInt(15)));
}

#[test]
fn parse_status_range_with_bit_offset_and_later_byte() {
    // byte_index 2, bits 4..=11 big-endian over [0xAB, 0xCD] -> 0xABCD >> 4 & 0xFF = 0xBC
    let data = [0x00, 0xAB, 0xCD];
    let records = vec![make_record("K", "uint", 2, BitIndex::Range(4..=11), 1)];
    let result = parse_status(&data, &records);
    assert_eq!(get(&result, "K"), Some(Value::UInt(0xBC)));
}

// ---- find_double_zero ----

#[test]
fn find_double_zero_found() {
    assert_eq!(find_double_zero(&[0x01, 0x00, 0x00, 0x02]), Some(1));
}

#[test]
fn find_double_zero_not_found() {
    assert_eq!(find_double_zero(&[0x01, 0x00, 0x02, 0x00]), None);
}

#[test]
fn find_double_zero_at_start() {
    assert_eq!(find_double_zero(&[0x00, 0x00, 0x01]), Some(0));
}

#[test]
fn find_double_zero_at_end() {
    assert_eq!(find_double_zero(&[0x01, 0x00, 0x00]), Some(1));
}

#[test]
fn find_double_zero_too_short() {
    assert_eq!(find_double_zero(&[0x00]), None);
    assert_eq!(find_double_zero(&[]), None);
}

// ---- hex_str_to_bytes ----

#[test]
fn hex_str_to_bytes_normal() {
    assert_eq!(hex_str_to_bytes("0A1BFF").unwrap(), vec![0x0A, 0x1B, 0xFF]);
}

#[test]
fn hex_str_to_bytes_empty() {
    assert_eq!(hex_str_to_bytes("").unwrap(), Vec::<u8>::new());
}

#[test]
fn hex_str_to_bytes_odd_length() {
    assert!(hex_str_to_bytes("0A1").is_err());
}

#[test]
fn hex_str_to_bytes_invalid_chars() {
    assert!(hex_str_to_bytes("ZZZZ").is_err());
}

#[test]
fn hex_str_to_bytes_lowercase() {
    assert_eq!(hex_str_to_bytes("ff00").unwrap(), vec![0xFF, 0x00]);
}

#[test]
fn hex_str_to_bytes_error_texts_and_sign() {
    assert_eq!(hex_str_to_bytes("0A1").unwrap_err(), "Hex 字符串长度不是偶数");
    assert_eq!(hex_str_to_bytes("ZZ").unwrap_err(), "invalid digit found in string");
    assert_eq!(hex_str_to_bytes("+F").unwrap(), vec![0x0F]);
    assert!(hex_str_to_bytes("é1").is_err());
}
