use fastnbt::array::expect_bytes;
use fastnbt::{ArraySerializer, CallKind, Error, Tag, Value, Writer};

const OTHER_KINDS: [CallKind; 10] = [
    CallKind::Bool,
    CallKind::Integer,
    CallKind::Float,
    CallKind::Char,
    CallKind::Text,
    CallKind::Optional,
    CallKind::Unit,
    CallKind::Mapping,
    CallKind::Struct,
    CallKind::EnumVariant,
];

fn adapter(tag: Tag) -> ArraySerializer {
    ArraySerializer::new(tag).unwrap()
}

#[test]
fn only_array_tags_have_an_adapter() {
    assert!(ArraySerializer::new(Tag::ByteArray).is_some());
    assert!(ArraySerializer::new(Tag::IntArray).is_some());
    assert!(ArraySerializer::new(Tag::LongArray).is_some());
    assert!(ArraySerializer::new(Tag::List).is_none());
    assert!(ArraySerializer::new(Tag::Compound).is_none());
    assert!(ArraySerializer::new(Tag::End).is_none());
    assert!(ArraySerializer::new(Tag::Int).is_none());
}

#[test]
fn strides() {
    assert_eq!(adapter(Tag::ByteArray).stride(), 1);
    assert_eq!(adapter(Tag::IntArray).stride(), 4);
    assert_eq!(adapter(Tag::LongArray).stride(), 8);
    assert_eq!(adapter(Tag::IntArray).tag(), Tag::IntArray);
}

#[test]
fn int_array_one_two_three() {
    let mut w = Writer::new();
    let buf = [0, 0, 0, 1, 0, 0, 0, 2, 0, 0, 0, 3];
    assert_eq!(adapter(Tag::IntArray).write_bytes(&mut w, &buf), Ok(()));
    assert_eq!(
        w.into_bytes(),
        vec![0, 0, 0, 3, 0, 0, 0, 1, 0, 0, 0, 2, 0, 0, 0, 3]
    );
}

#[test]
fn payload_lengths_follow_the_count() {
    for n in 0usize..5 {
        let mut w = Writer::new();
        adapter(Tag::ByteArray).write_bytes(&mut w, &vec![7u8; n]).unwrap();
        assert_eq!(w.len(), 4 + n);
        let mut w = Writer::new();
        adapter(Tag::IntArray).write_bytes(&mut w, &vec![7u8; 4 * n]).unwrap();
        assert_eq!(w.len(), 4 + 4 * n);
        let mut w = Writer::new();
        adapter(Tag::LongArray).write_bytes(&mut w, &vec![7u8; 8 * n]).unwrap();
        assert_eq!(w.len(), 4 + 8 * n);
    }
}

#[test]
fn an_empty_buffer_is_an_array_of_nothing() {
    let mut w = Writer::new();
    adapter(Tag::LongArray).write_bytes(&mut w, &[]).unwrap();
    assert_eq!(w.into_bytes(), vec![0, 0, 0, 0]);
    assert_eq!(
        adapter(Tag::LongArray).serialize_bytes(&[]),
        Ok(Value::LongArray(vec![]))
    );
    assert_eq!(
        adapter(Tag::IntArray).serialize_bytes(&[]),
        Ok(Value::IntArray(vec![]))
    );
    assert_eq!(
        adapter(Tag::ByteArray).serialize_bytes(&[]),
        Ok(Value::ByteArray(vec![]))
    );
}

#[test]
fn bytes_that_fill_no_element_are_dropped() {
    let mut w = Writer::new();
    adapter(Tag::IntArray)
        .write_bytes(&mut w, &[0, 0, 0, 9, 1, 2, 3])
        .unwrap();
    assert_eq!(w.into_bytes(), vec![0, 0, 0, 1, 0, 0, 0, 9]);
    let mut w = Writer::new();
    adapter(Tag::LongArray).write_bytes(&mut w, &[1, 2, 3]).unwrap();
    assert_eq!(w.into_bytes(), vec![0, 0, 0, 0]);
    let mut buf = 5i32.to_ne_bytes().to_vec();
    buf.extend_from_slice(&[1, 2]);
    assert_eq!(
        adapter(Tag::IntArray).serialize_bytes(&buf),
        Ok(Value::IntArray(vec![5]))
    );
}

#[test]
fn a_byte_array_takes_every_byte_as_signed() {
    assert_eq!(
        adapter(Tag::ByteArray).serialize_bytes(&[0, 1, 0x7F, 0x80, 0xFF]),
        Ok(Value::ByteArray(vec![0, 1, 127, -128, -1]))
    );
}

#[test]
fn an_int_array_is_read_in_the_byte_order_of_the_machine() {
    let ints = [1i32, -2, 0x01020304, i32::MIN, i32::MAX];
    let mut buf = Vec::new();
    for x in ints.iter() {
        buf.extend_from_slice(&x.to_ne_bytes());
    }
    assert_eq!(
        adapter(Tag::IntArray).serialize_bytes(&buf),
        Ok(Value::IntArray(ints.to_vec()))
    );
}

#[test]
fn a_long_array_is_read_in_the_byte_order_of_the_machine() {
    let longs = [1i64, -2, 0x0102030405060708, i64::MIN, i64::MAX];
    let mut buf = Vec::new();
    for x in longs.iter() {
        buf.extend_from_slice(&x.to_ne_bytes());
    }
    assert_eq!(
        adapter(Tag::LongArray).serialize_bytes(&buf),
        Ok(Value::LongArray(longs.to_vec()))
    );
}

#[test]
fn a_sequence_where_an_array_is_declared() {
    assert_eq!(expect_bytes(CallKind::Sequence), Err(Error::array_as_seq()));
    assert_eq!(expect_bytes(CallKind::Tuple), Err(Error::array_as_seq()));
    for tag in [Tag::ByteArray, Tag::IntArray, Tag::LongArray] {
        assert_eq!(
            adapter(tag).serialize(CallKind::Sequence, &[]),
            Err(Error::array_as_seq())
        );
        assert_eq!(
            adapter(tag).serialize(CallKind::Tuple, &[1, 2, 3, 4]),
            Err(Error::array_as_seq())
        );
        let mut w = Writer::new();
        assert_eq!(
            adapter(tag).write(&mut w, CallKind::Sequence, &[1, 2, 3, 4]),
            Err(Error::array_as_seq())
        );
        assert_eq!(w.len(), 0);
    }
}

#[test]
fn anything_else_where_an_array_is_declared() {
    for kind in OTHER_KINDS.iter() {
        assert_eq!(expect_bytes(*kind), Err(Error::array_as_other()));
        for tag in [Tag::ByteArray, Tag::IntArray, Tag::LongArray] {
            assert_eq!(
                adapter(tag).serialize(*kind, &[1, 2, 3, 4]),
                Err(Error::array_as_other())
            );
            let mut w = Writer::new();
            assert_eq!(
                adapter(tag).write(&mut w, *kind, &[1, 2, 3, 4]),
                Err(Error::array_as_other())
            );
            assert_eq!(w.len(), 0);
        }
    }
}

#[test]
fn a_byte_buffer_where_an_array_is_declared() {
    assert_eq!(expect_bytes(CallKind::Bytes), Ok(()));
    let mut w = Writer::new();
    assert_eq!(
        adapter(Tag::ByteArray).write(&mut w, CallKind::Bytes, &[9, 8]),
        Ok(())
    );
    assert_eq!(w.into_bytes(), vec![0, 0, 0, 2, 9, 8]);
    assert_eq!(
        adapter(Tag::ByteArray).serialize(CallKind::Bytes, &[9, 0xFE]),
        Ok(Value::ByteArray(vec![9, -2]))
    );
}
