use fastnbt::de::array_buffer;
use fastnbt::tree::{
    finish, serialize_array, serialize_bool, serialize_double_bits, serialize_float_bits,
    serialize_i16, serialize_i32, serialize_i64, serialize_i8, serialize_map, serialize_seq,
    serialize_str,
};
use fastnbt::{CallKind, Error, ErrorKind, Tag, Value};

#[test]
fn scalars_become_their_nodes() {
    assert_eq!(serialize_bool(true), Value::Byte(1));
    assert_eq!(serialize_bool(false), Value::Byte(0));
    assert_eq!(serialize_i8(-7), Value::Byte(-7));
    assert_eq!(serialize_i16(-700), Value::Short(-700));
    assert_eq!(serialize_i32(70000), Value::Int(70000));
    assert_eq!(serialize_i64(-7_000_000_000), Value::Long(-7_000_000_000));
    assert_eq!(serialize_float_bits(0x3FC0_0000), Value::Float(0x3FC0_0000));
    assert_eq!(serialize_double_bits(1), Value::Double(1));
    assert_eq!(serialize_str("abc"), Value::String("abc".to_string()));
}

#[test]
fn a_sequence_keeps_the_order_of_its_elements() {
    let items = vec![Value::Int(3), Value::Int(1), Value::Int(2)];
    assert_eq!(
        serialize_seq(items),
        Ok(Value::List(vec![Value::Int(3), Value::Int(1), Value::Int(2)]))
    );
    assert_eq!(serialize_seq(vec![]), Ok(Value::List(vec![])));
}

#[test]
fn a_sequence_of_mixed_tags_is_rejected() {
    let err = serialize_seq(vec![Value::Int(3), Value::Int(1), Value::Long(2)]).unwrap_err();
    assert_eq!(
        err.kind(),
        &ErrorKind::Custom("list elements differ in type".to_string())
    );
    let err = serialize_seq(vec![Value::Byte(3), Value::Int(1)]).unwrap_err();
    assert_eq!(
        err.kind(),
        &ErrorKind::Custom("list elements differ in type".to_string())
    );
}

#[test]
fn a_map_keeps_the_order_of_its_entries() {
    let fields = vec![
        ("b".to_string(), Value::Int(1)),
        ("a".to_string(), Value::Byte(2)),
    ];
    assert_eq!(serialize_map(fields.clone()), Value::Compound(fields));
}

#[test]
fn the_root_must_be_a_compound() {
    assert_eq!(finish(Value::Compound(vec![])), Ok(Value::Compound(vec![])));
    assert_eq!(finish(Value::Int(1)), Err(Error::no_root_compound()));
    assert_eq!(finish(Value::List(vec![])), Err(Error::no_root_compound()));
}

#[test]
fn an_array_position_takes_bytes_only() {
    assert_eq!(
        serialize_array(Tag::ByteArray, CallKind::Bytes, &[1, 0xFF]),
        Some(Ok(Value::ByteArray(vec![1, -1])))
    );
    assert_eq!(
        serialize_array(Tag::IntArray, CallKind::Sequence, &[]),
        Some(Err(Error::array_as_seq()))
    );
    assert_eq!(
        serialize_array(Tag::LongArray, CallKind::Struct, &[]),
        Some(Err(Error::array_as_other()))
    );
    assert_eq!(serialize_array(Tag::List, CallKind::Bytes, &[]), None);
}

#[test]
fn a_decoded_array_is_handed_out_as_one_buffer() {
    assert_eq!(
        array_buffer(&Value::IntArray(vec![1, -1]), CallKind::Bytes),
        Ok(vec![0, 0, 0, 1, 0xFF, 0xFF, 0xFF, 0xFF])
    );
    assert_eq!(
        array_buffer(&Value::ByteArray(vec![1, -1]), CallKind::Bytes),
        Ok(vec![1, 0xFF])
    );
    assert_eq!(
        array_buffer(&Value::LongArray(vec![2]), CallKind::Bytes),
        Ok(vec![0, 0, 0, 0, 0, 0, 0, 2])
    );
}

#[test]
fn a_consumer_that_asks_an_array_for_a_sequence() {
    assert_eq!(
        array_buffer(&Value::IntArray(vec![1]), CallKind::Sequence),
        Err(Error::array_as_seq())
    );
    assert_eq!(
        array_buffer(&Value::IntArray(vec![1]), CallKind::Tuple),
        Err(Error::array_as_seq())
    );
    assert_eq!(
        array_buffer(&Value::IntArray(vec![1]), CallKind::Mapping),
        Err(Error::array_as_other())
    );
}

#[test]
fn arrays_from_their_elements() {
    assert_eq!(Value::byte_array(vec![1, -1]), Value::ByteArray(vec![1, -1]));
    assert_eq!(Value::int_array(vec![1, -1]), Value::IntArray(vec![1, -1]));
    assert_eq!(Value::long_array(vec![]), Value::LongArray(vec![]));
}
