use netd::netd::config::{
    assemble, child_names, descends, format_hex, lower_value, lower_values, parse_hex, RawValue,
    Record, RegValue, ValueType,
};

#[test]
fn hex_identifiers_round_trip() {
    let id = vec![0, 3, 0, 1, 0x52, 0x54, 0, 1, 2, 3];
    assert_eq!(parse_hex(&format_hex(&id)).as_deref(), Some(&id[..]));
    assert_eq!(parse_hex("0003000152540001"), Some(vec![0, 3, 0, 1, 0x52, 0x54, 0, 1]));
    assert_eq!(parse_hex("00:0g"), None);
    assert_eq!(parse_hex("abc"), None);
    assert_eq!(parse_hex(""), None);
}

#[test]
fn values_lower_to_their_neutral_shape() {
    assert_eq!(lower_value(ValueType::Dword, &7u32.to_le_bytes()), RawValue::Int(7));
    assert_eq!(lower_value(ValueType::Sz, b"wired\0"), RawValue::Str("wired".into()));
    assert_eq!(
        lower_value(ValueType::MultiSz, b"a\0b\0\0"),
        RawValue::List(vec!["a".into(), "b".into()])
    );
    assert_eq!(lower_value(ValueType::Binary, b"\x01"), RawValue::Other);
}

#[test]
fn odd_values_lower_to_other() {
    assert_eq!(lower_value(ValueType::Dword, &[1, 2, 3]), RawValue::Other);
    assert_eq!(lower_value(ValueType::Qword, &(-2i64).to_le_bytes()), RawValue::Int(-2));
    assert_eq!(lower_value(ValueType::Qword, &[0; 4]), RawValue::Other);
    assert_eq!(lower_value(ValueType::ExpandSz, b"%x%"), RawValue::Str("%x%".into()));
    // What is not UTF-8 is no text.
    assert_eq!(lower_value(ValueType::Sz, &[0xff, 0xfe, 0]), RawValue::Other);
    assert_eq!(
        lower_value(ValueType::MultiSz, b"a\0\xff\0b"),
        RawValue::List(vec!["a".into(), "b".into()])
    );
    assert_eq!(lower_value(ValueType::MultiSz, b""), RawValue::List(vec![]));
    assert_eq!(lower_value(ValueType::Sz, "größe\0".as_bytes()), RawValue::Str("größe".into()));
}

fn record(name: &[u8], n: u32) -> Record {
    Record { name: name.to_vec(), ty: ValueType::Dword, data: n.to_le_bytes().to_vec() }
}

#[test]
fn values_come_by_name_and_the_nameless_one_is_left_out() {
    let v = lower_values(&vec![
        record(b"b", 1),
        record(b"", 2),
        record(b"a", 3),
        record(&[0xff], 4),
        record(b"ab", 5),
    ]);
    assert_eq!(
        v,
        vec![
            ("a".to_string(), RawValue::Int(3)),
            ("ab".to_string(), RawValue::Int(5)),
            ("b".to_string(), RawValue::Int(1)),
        ]
    );
}

#[test]
fn subkeys_come_in_order() {
    let names = child_names(&vec![b"z".to_vec(), b"a".to_vec(), vec![0xc0], b"m".to_vec()]);
    assert_eq!(names, ["a", "m", "z"]);
    assert!(descends(15) && !descends(16));
}

fn text(s: &str) -> Option<RegValue> {
    Some(RegValue { ty: ValueType::Sz, data: s.as_bytes().to_vec() })
}

#[test]
fn machine_values_are_taken_where_they_make_sense() {
    let security = Some(RegValue { ty: ValueType::Binary, data: vec![1, 2] });
    let (c, bad) = assemble(text("box"), security, text("00:03"), None, None);
    assert_eq!(c.hostname.as_deref(), Some("box"));
    assert_eq!(c.control_security, Some(vec![1, 2]));
    assert_eq!(c.duid, Some(vec![0, 3]));
    assert!(!bad);
    let wrong = Some(RegValue { ty: ValueType::Dword, data: vec![1] });
    let (c, bad) = assemble(text(""), wrong, text("xyz"), None, None);
    assert_eq!((c.hostname, c.control_security, c.duid), (None, None, None));
    assert!(bad);
}
