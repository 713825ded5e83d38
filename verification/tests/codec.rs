use fastnbt::de::{read_count, read_payload, read_text};
use fastnbt::wire::MAX_DEPTH;
use fastnbt::{from_bytes, to_bytes, Error, ErrorKind, Tag, Value};

fn text(s: &str) -> Value {
    Value::String(s.to_string())
}

fn compound(fields: Vec<(&str, Value)>) -> Value {
    Value::Compound(
        fields
            .into_iter()
            .map(|(name, value)| (name.to_string(), value))
            .collect(),
    )
}

fn roundtrips(v: Value) {
    let bytes = to_bytes(&v).unwrap();
    assert_eq!(from_bytes(&bytes), Ok(v));
}

fn nested_lists(levels: usize) -> Value {
    let mut v = Value::List(vec![]);
    for _ in 1..levels {
        v = Value::List(vec![v]);
    }
    v
}

fn sample() -> Value {
    compound(vec![
        ("byte", Value::Byte(-3)),
        ("short", Value::Short(-300)),
        ("int", Value::Int(70000)),
        ("long", Value::Long(-5_000_000_000)),
        ("float", Value::Float(1.5f32.to_bits())),
        ("double", Value::Double((-0.25f64).to_bits())),
        ("bytes", Value::ByteArray(vec![1, -1, 0])),
        ("name", text("h\u{e9}llo \u{1f600}\0")),
        ("list", Value::List(vec![Value::Int(1), Value::Int(2)])),
        (
            "inner",
            compound(vec![
                ("ints", Value::IntArray(vec![1, 2, 3])),
                ("longs", Value::LongArray(vec![i64::MIN, 0, i64::MAX])),
                ("lists", Value::List(vec![Value::List(vec![]), Value::List(vec![])])),
            ]),
        ),
        ("byte", Value::Byte(4)),
    ])
}

#[test]
fn scenario_a_id_and_tags() {
    let v = compound(vec![
        ("id", Value::Int(7)),
        ("tags", Value::List(vec![text("a"), text("b")])),
    ]);
    let expected: Vec<u8> = vec![
        0x0A, 0x00, 0x00, // the root: a compound with an empty name
        0x03, 0x00, 0x02, b'i', b'd', 0x00, 0x00, 0x00, 0x07, // "id": Int(7)
        0x09, 0x00, 0x04, b't', b'a', b'g', b's', // "tags": a list
        0x08, 0x00, 0x00, 0x00, 0x02, // of two strings
        0x00, 0x01, b'a', 0x00, 0x01, b'b', // "a" and "b"
        0x00, // End
    ];
    assert_eq!(to_bytes(&v), Ok(expected.clone()));
    assert_eq!(from_bytes(&expected), Ok(v));
}

#[test]
fn scenario_b_int_array() {
    let v = compound(vec![("a", Value::IntArray(vec![1, 2, 3]))]);
    let bytes = to_bytes(&v).unwrap();
    assert_eq!(
        bytes,
        vec![
            0x0A, 0x00, 0x00, 0x0B, 0x00, 0x01, b'a', 0x00, 0x00, 0x00, 0x03, 0x00, 0x00, 0x00,
            0x01, 0x00, 0x00, 0x00, 0x02, 0x00, 0x00, 0x00, 0x03, 0x00
        ]
    );
    assert_eq!(
        &bytes[7..23],
        &[0, 0, 0, 3, 0, 0, 0, 1, 0, 0, 0, 2, 0, 0, 0, 3]
    );
}

#[test]
fn the_empty_compound() {
    let v = compound(vec![]);
    assert_eq!(to_bytes(&v), Ok(vec![0x0A, 0x00, 0x00, 0x00]));
    roundtrips(v);
}

#[test]
fn the_empty_list_has_the_end_tag() {
    let v = compound(vec![("l", Value::List(vec![]))]);
    assert_eq!(
        to_bytes(&v),
        Ok(vec![0x0A, 0, 0, 0x09, 0, 1, b'l', 0x00, 0, 0, 0, 0, 0x00])
    );
    roundtrips(v);
}

#[test]
fn arrays_of_no_elements() {
    roundtrips(compound(vec![
        ("b", Value::ByteArray(vec![])),
        ("i", Value::IntArray(vec![])),
        ("l", Value::LongArray(vec![])),
    ]));
}

#[test]
fn array_payloads_have_the_width_of_their_elements() {
    for n in 0usize..4 {
        let base = to_bytes(&compound(vec![("a", Value::ByteArray(vec![]))])).unwrap().len();
        let bytes = to_bytes(&compound(vec![("a", Value::ByteArray(vec![1; n]))])).unwrap();
        assert_eq!(bytes.len(), base + n);
        let ints = to_bytes(&compound(vec![("a", Value::IntArray(vec![1; n]))])).unwrap();
        assert_eq!(ints.len(), base + 4 * n);
        let longs = to_bytes(&compound(vec![("a", Value::LongArray(vec![1; n]))])).unwrap();
        assert_eq!(longs.len(), base + 8 * n);
    }
}

#[test]
fn every_kind_of_value_survives_the_round_trip() {
    roundtrips(sample());
}

#[test]
fn scalars_at_their_limits_survive_the_round_trip() {
    roundtrips(compound(vec![
        ("a", Value::Byte(i8::MIN)),
        ("b", Value::Byte(i8::MAX)),
        ("c", Value::Short(i16::MIN)),
        ("d", Value::Short(i16::MAX)),
        ("e", Value::Int(i32::MIN)),
        ("f", Value::Int(i32::MAX)),
        ("g", Value::Long(i64::MIN)),
        ("h", Value::Long(i64::MAX)),
        ("i", Value::Float(f32::NAN.to_bits())),
        ("j", Value::Float(0xFFFF_FFFF)),
        ("k", Value::Double(f64::NEG_INFINITY.to_bits())),
        ("l", Value::Double(0x7FF0_0000_0000_0001)),
    ]));
}

#[test]
fn field_order_and_repeated_names_are_kept() {
    let v = compound(vec![
        ("z", Value::Int(1)),
        ("a", Value::Int(2)),
        ("z", Value::Int(3)),
    ]);
    let back = from_bytes(&to_bytes(&v).unwrap()).unwrap();
    match back {
        Value::Compound(fields) => {
            let names: Vec<&str> = fields.iter().map(|f| f.0.as_str()).collect();
            assert_eq!(names, vec!["z", "a", "z"]);
            assert_eq!(fields[2].1, Value::Int(3));
        }
        _ => panic!("not a compound"),
    }
}

#[test]
fn bytes_after_the_root_are_not_looked_at() {
    let v = sample();
    let mut bytes = to_bytes(&v).unwrap();
    bytes.extend_from_slice(&[0xFF, 0x0D, 0x00]);
    assert_eq!(from_bytes(&bytes), Ok(v));
}

#[test]
fn a_root_that_is_no_compound_is_not_encoded() {
    let roots = vec![
        Value::Byte(1),
        Value::Short(1),
        Value::Int(1),
        Value::Long(1),
        Value::Float(0),
        Value::Double(0),
        Value::ByteArray(vec![]),
        text("root"),
        Value::List(vec![]),
        Value::IntArray(vec![]),
        Value::LongArray(vec![]),
    ];
    for root in roots.iter() {
        assert_eq!(to_bytes(root), Err(Error::no_root_compound()));
    }
}

#[test]
fn a_root_that_is_no_compound_is_not_decoded() {
    for tag in 0u8..13 {
        if tag != 10 {
            assert_eq!(
                from_bytes(&[tag, 0, 0, 0, 0, 0, 0, 0, 0, 0, 0]),
                Err(Error::no_root_compound())
            );
        }
    }
}

#[test]
fn an_invalid_root_tag_is_carried() {
    assert_eq!(from_bytes(&[13, 0, 0, 0]), Err(Error::invalid_tag(13)));
    assert_eq!(from_bytes(&[0xFF]), Err(Error::invalid_tag(0xFF)));
}

#[test]
fn an_invalid_field_tag_is_carried() {
    assert_eq!(
        from_bytes(&[0x0A, 0, 0, 13, 0, 1, b'a', 0, 0]),
        Err(Error::invalid_tag(13))
    );
    assert_eq!(
        from_bytes(&[0x0A, 0, 0, 0x01, 0, 1, b'a', 5, 0xC8, 0, 0, 0]),
        Err(Error::invalid_tag(0xC8))
    );
}

#[test]
fn an_invalid_element_tag_is_carried() {
    assert_eq!(
        from_bytes(&[0x0A, 0, 0, 0x09, 0, 1, b'l', 14, 0, 0, 0, 0, 0]),
        Err(Error::invalid_tag(14))
    );
}

#[test]
fn end_is_no_element_of_a_list_that_has_elements() {
    assert_eq!(
        from_bytes(&[0x0A, 0, 0, 0x09, 0, 1, b'l', 0, 0, 0, 0, 1, 0]),
        Err(Error::invalid_tag(0))
    );
}

#[test]
fn an_empty_list_of_any_element_tag_is_read() {
    assert_eq!(
        from_bytes(&[0x0A, 0, 0, 0x09, 0, 1, b'l', 3, 0, 0, 0, 0, 0]),
        Ok(compound(vec![("l", Value::List(vec![]))]))
    );
}

#[test]
fn no_input_is_the_end_of_input() {
    assert_eq!(from_bytes(&[]), Err(Error::unexpected_eof()));
}

#[test]
fn every_truncation_is_the_end_of_input() {
    let bytes = to_bytes(&sample()).unwrap();
    for k in 0..bytes.len() {
        assert_eq!(from_bytes(&bytes[..k]), Err(Error::unexpected_eof()));
    }
}

#[test]
fn every_truncation_of_scenario_a_is_the_end_of_input() {
    let bytes = to_bytes(&compound(vec![
        ("id", Value::Int(7)),
        ("tags", Value::List(vec![text("a"), text("b")])),
    ]))
    .unwrap();
    for k in 0..bytes.len() {
        assert_eq!(from_bytes(&bytes[..k]), Err(Error::unexpected_eof()));
    }
}

#[test]
fn text_that_is_no_modified_utf8_carries_its_bytes() {
    let err = from_bytes(&[0x0A, 0, 0, 0x08, 0, 1, b's', 0, 2, 0xC3, 0x28, 0]).unwrap_err();
    assert_eq!(err.kind(), &ErrorKind::NonUnicodeString(vec![0xC3, 0x28]));
    let err = from_bytes(&[0x0A, 0, 0, 0x01, 0, 2, 0xFF, 0xFE, 5, 0]).unwrap_err();
    assert_eq!(err.kind(), &ErrorKind::NonUnicodeString(vec![0xFF, 0xFE]));
    let err = from_bytes(&[0x0A, 0, 1, 0x00, 0]).unwrap_err();
    assert_eq!(err.kind(), &ErrorKind::NonUnicodeString(vec![0x00]));
}

#[test]
fn the_name_of_the_root_is_dropped() {
    assert_eq!(
        from_bytes(&[0x0A, 0, 4, b'r', b'o', b'o', b't', 0x01, 0, 1, b'a', 5, 0]),
        Ok(compound(vec![("a", Value::Byte(5))]))
    );
}

#[test]
fn a_count_below_zero_is_rejected() {
    let err =
        from_bytes(&[0x0A, 0, 0, 0x0B, 0, 1, b'a', 0xFF, 0xFF, 0xFF, 0xFF, 0]).unwrap_err();
    assert_eq!(err.kind(), &ErrorKind::Custom("negative length".to_string()));
    let err = from_bytes(&[0x0A, 0, 0, 0x09, 0, 1, b'l', 1, 0x80, 0, 0, 0, 0]).unwrap_err();
    assert_eq!(err.kind(), &ErrorKind::Custom("negative length".to_string()));
}

#[test]
fn a_count_that_the_input_cannot_hold_is_the_end_of_input() {
    assert_eq!(
        from_bytes(&[0x0A, 0, 0, 0x0C, 0, 1, b'a', 0x7F, 0xFF, 0xFF, 0xFF, 0, 0]),
        Err(Error::unexpected_eof())
    );
    assert_eq!(
        from_bytes(&[0x0A, 0, 0, 0x09, 0, 1, b'l', 1, 0x7F, 0xFF, 0xFF, 0xFF, 1, 2]),
        Err(Error::unexpected_eof())
    );
}

#[test]
fn a_list_of_mixed_tags_is_not_encoded() {
    let v = compound(vec![("l", Value::List(vec![Value::Int(1), Value::Byte(2)]))]);
    let err = to_bytes(&v).unwrap_err();
    assert_eq!(
        err.kind(),
        &ErrorKind::Custom("list elements differ in type".to_string())
    );
}

#[test]
fn a_name_that_is_too_long_is_not_encoded() {
    let name = "n".repeat(65536);
    let v = Value::Compound(vec![(name, Value::Byte(1))]);
    let err = to_bytes(&v).unwrap_err();
    assert_eq!(err.kind(), &ErrorKind::Custom("string too long".to_string()));
}

#[test]
fn nesting_up_to_the_limit_survives_the_round_trip() {
    roundtrips(compound(vec![("l", nested_lists(MAX_DEPTH - 1))]));
}

#[test]
fn nesting_beyond_the_limit_is_not_encoded() {
    let v = compound(vec![("l", nested_lists(MAX_DEPTH))]);
    assert_eq!(to_bytes(&v), Err(Error::depth_limit()));
}

#[test]
fn nesting_beyond_the_limit_is_not_decoded() {
    let mut bytes = vec![0x0A, 0, 0, 0x09, 0, 1, b'l'];
    for _ in 1..MAX_DEPTH {
        bytes.extend_from_slice(&[0x09, 0, 0, 0, 1]);
    }
    bytes.extend_from_slice(&[0x00, 0, 0, 0, 0]);
    bytes.push(0);
    assert_eq!(from_bytes(&bytes), Err(Error::depth_limit()));
    let mut deep = vec![0x0A, 0, 0];
    for _ in 0..(MAX_DEPTH + 10) {
        deep.extend_from_slice(&[0x0A, 0, 0]);
    }
    assert_eq!(from_bytes(&deep), Err(Error::depth_limit()));
}

#[test]
fn values_know_their_tags() {
    assert_eq!(Value::Byte(0).tag().to_u8(), 1);
    assert_eq!(Value::Double(0).tag().to_u8(), 6);
    assert_eq!(text("").tag().to_u8(), 8);
    assert_eq!(Value::List(vec![]).tag().to_u8(), 9);
    assert_eq!(compound(vec![]).tag().to_u8(), 10);
    assert_eq!(Value::LongArray(vec![]).tag().to_u8(), 12);
}

#[test]
fn a_clone_is_the_same_tree() {
    let v = sample();
    assert_eq!(v.clone(), v);
    assert_eq!(to_bytes(&v.clone()), to_bytes(&v));
}

#[test]
fn reading_at_a_position() {
    let data = [0xAA, 0x00, 0x00, 0x00, 0x02, 0x00, 0x01, b'x'];
    assert_eq!(read_count(&data, 1), Ok(2));
    assert_eq!(read_count(&data, 5), Err(Error::unexpected_eof()));
    assert_eq!(read_count(&data, 100), Err(Error::unexpected_eof()));
    assert_eq!(read_text(&data, 5), Ok(("x".to_string(), 8)));
    assert_eq!(read_text(&data, 7), Err(Error::unexpected_eof()));
    assert_eq!(read_text(&data, 9), Err(Error::unexpected_eof()));
    assert_eq!(read_payload(&data, Tag::Int, 1, 0), Ok((Value::Int(2), 5)));
    assert_eq!(read_payload(&data, Tag::Byte, 0, 0), Ok((Value::Byte(-86), 1)));
    assert_eq!(read_payload(&data, Tag::Short, 6, 0), Ok((Value::Short(0x0178), 8)));
    assert_eq!(read_payload(&data, Tag::Long, 1, 0), Err(Error::unexpected_eof()));
    assert_eq!(read_payload(&data, Tag::End, 0, 4), Err(Error::invalid_tag(0)));
    assert_eq!(read_payload(&data, Tag::List, 0, 0), Err(Error::depth_limit()));
    assert_eq!(read_payload(&data, Tag::Compound, 20, 4), Err(Error::unexpected_eof()));
    assert_eq!(read_payload(&data, Tag::Byte, 8, 4), Err(Error::unexpected_eof()));
}
