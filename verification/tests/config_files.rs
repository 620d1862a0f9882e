use rcd_server::csv_parser::{apply_kks_prefix, config_from_headers, parse_bit_index, parse_required, BitIndex, CsvParseError, Record};
use rcd_server::file_scanner::{pattern_error, select_matching};
use rcd_server::numtext::{parse_uint, IntErrorKind};

fn headers(values: &[&str]) -> Vec<String> {
    values.iter().map(|s| s.to_string()).collect()
}

#[test]
fn header_block_reads() {
    let h = headers(&[" COM3 ", "9600", "true", "1", "11", "16", "9CYE91GH201_"]);
    let c = config_from_headers(&h).unwrap();
    assert_eq!(c.com, "COM3");
    assert_eq!(c.baud_rate, 9600);
    assert!(c.is_special);
    assert_eq!(c.com_index, 1);
    assert_eq!(c.device_id, 11);
    assert_eq!(c.data_len, 16);
    assert_eq!(c.kks_prefix, "9CYE91GH201_");

    let h = headers(&["COM3", "9600", "yes", "1", "11", "16"]);
    let c = config_from_headers(&h).unwrap();
    assert!(!c.is_special);
    assert_eq!(c.kks_prefix, "");
}

#[test]
fn header_block_errors() {
    let e = config_from_headers(&headers(&["  ", "9600"])).unwrap_err();
    assert_eq!(e.message(), "CSV 头缺少必填字段 'com' (第 1 行第 2 列)");
    let e = config_from_headers(&headers(&["COM3", "fast"])).unwrap_err();
    assert_eq!(e.message(), "CSV 头字段 'baud_rate' 解析失败 (值=\"fast\"): invalid digit found in string");
    let e = config_from_headers(&headers(&["COM3", "9600", "", "1", "300", "8"])).unwrap_err();
    match &e {
        CsvParseError::BadHeaderValue { field, value, reason } => {
            assert_eq!(*field, "device_id");
            assert_eq!(value, "300");
            assert_eq!(reason, "number too large to fit in target type");
        },
        _ => panic!("{:?}", e),
    }
    let e = config_from_headers(&headers(&["COM3", "9600", "", "1", "2"])).unwrap_err();
    assert_eq!(e.message(), "CSV 头缺少必填字段 'data_len' (第 6 行第 2 列)");
    assert!(matches!(
        parse_required(&headers(&["x"]), 3, "com_index", 255),
        Err(CsvParseError::MissingHeader { field: "com_index", row: 4 })
    ));
}

#[test]
fn unsigned_numbers_like_std() {
    for s in ["0", "+7", "4294967295", "", "+", "-", "-1", "12a", "4294967296", " 1"] {
        let ours = parse_uint(s, u32::MAX);
        let std = s.parse::<u32>();
        match (ours, std) {
            (Ok(a), Ok(b)) => assert_eq!(a, b, "{}", s),
            (Err(k), Err(e)) => {
                let expected = match e.kind() {
                    std::num::IntErrorKind::Empty => IntErrorKind::Empty,
                    std::num::IntErrorKind::InvalidDigit => IntErrorKind::InvalidDigit,
                    _ => IntErrorKind::PosOverflow,
                };
                assert_eq!(k, expected, "{}", s);
            },
            (a, b) => panic!("{}: {:?} vs {:?}", s, a, b),
        }
    }
    assert_eq!(parse_uint("255", 255), Ok(255));
    assert_eq!(parse_uint("256", 255), Err(IntErrorKind::PosOverflow));
}

#[test]
fn bit_positions() {
    assert!(matches!(parse_bit_index("3"), Ok(BitIndex::Single(3))));
    match parse_bit_index("0.15") {
        Ok(BitIndex::Range(r)) => assert_eq!((*r.start(), *r.end()), (0, 15)),
        other => panic!("{:?}", other),
    }
    assert_eq!(parse_bit_index("x").unwrap_err(), "invalid digit found in string");
    assert_eq!(parse_bit_index("1.").unwrap_err(), "cannot parse integer from empty string");
    assert_eq!(parse_bit_index("1.2.3").unwrap_err(), "invalid digit found in string");
    let parsed: BitIndex = "7".parse().unwrap();
    assert!(matches!(parsed, BitIndex::Single(7)));
}

#[test]
fn kks_prefix_applied() {
    let rec = Record {
        kks: "READY".into(),
        type_: "bool".into(),
        _f_type: String::new(),
        byte_index: 2,
        bit_index: BitIndex::Single(1),
        _def: 0,
        _max: 1,
        _min: 0,
        byte_order: 1,
    };
    let out = apply_kks_prefix("9CYE91GH201_", vec![rec.clone(), rec]);
    assert_eq!(out.len(), 2);
    assert_eq!(out[0].kks, "9CYE91GH201_READY");
    assert_eq!(out[1].byte_index, 2);
    assert_eq!(out[1].type_, "bool");
}

#[test]
fn file_names_by_pattern() {
    let names = vec!["rcd1.csv".to_string(), "notes.txt".to_string(), "rcd22.csv".to_string()];
    assert_eq!(select_matching(r"^rcd.*\.csv$", &names), Ok(vec![0, 2]));
    assert_eq!(pattern_error(r"^rcd.*\.csv$"), None);
    let err = select_matching("(", &names).unwrap_err();
    assert!(err.starts_with("无效的正则表达式: "));
    assert_eq!(Some(err.clone()), pattern_error("("));
    assert_eq!(select_matching("(", &vec![]), Err(err));
}

#[test]
fn bit_index_from_str() {
    assert!(matches!("7".parse::<BitIndex>(), Ok(BitIndex::Single(7))));
    match "2.9".parse::<BitIndex>() {
        Ok(BitIndex::Range(r)) => assert_eq!((*r.start(), *r.end()), (2, 9)),
        other => panic!("{:?}", other),
    }
    assert_eq!("x".parse::<BitIndex>().unwrap_err(), "invalid digit found in string");
}
