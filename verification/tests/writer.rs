use fastnbt::{ErrorKind, Tag, Writer};

#[test]
fn a_new_writer_is_empty() {
    let w = Writer::new();
    assert_eq!(w.len(), 0);
    assert_eq!(w.into_bytes(), Vec::<u8>::new());
}

#[test]
fn integers_are_big_endian() {
    let mut w = Writer::new();
    w.write_u8(0xAB);
    w.write_i8(-1);
    w.write_u16(0x0102);
    w.write_i16(-2);
    w.write_i32(7);
    w.write_i32(-1);
    w.write_i64(0x0102030405060708);
    assert_eq!(
        w.into_bytes(),
        vec![
            0xAB, 0xFF, 0x01, 0x02, 0xFF, 0xFE, 0x00, 0x00, 0x00, 0x07, 0xFF, 0xFF, 0xFF, 0xFF,
            0x01, 0x02, 0x03, 0x04, 0x05, 0x06, 0x07, 0x08
        ]
    );
}

#[test]
fn extreme_integers() {
    let mut w = Writer::new();
    w.write_i16(i16::MIN);
    w.write_i32(i32::MIN);
    w.write_i64(i64::MIN);
    w.write_i64(i64::MAX);
    assert_eq!(
        w.into_bytes(),
        vec![
            0x80, 0x00, 0x80, 0x00, 0x00, 0x00, 0x80, 0, 0, 0, 0, 0, 0, 0, 0x7F, 0xFF, 0xFF, 0xFF,
            0xFF, 0xFF, 0xFF, 0xFF
        ]
    );
}

#[test]
fn floats_are_written_by_their_bits() {
    let mut w = Writer::new();
    w.write_float_bits(1.5f32.to_bits());
    w.write_double_bits((-2.0f64).to_bits());
    assert_eq!(
        w.into_bytes(),
        vec![0x3F, 0xC0, 0x00, 0x00, 0xC0, 0x00, 0x00, 0x00, 0x00, 0x00, 0x00, 0x00]
    );
}

#[test]
fn tags_are_one_byte() {
    let mut w = Writer::new();
    w.write_tag(Tag::Compound);
    w.write_tag(Tag::End);
    w.write_tag(Tag::LongArray);
    assert_eq!(w.into_bytes(), vec![10, 0, 12]);
}

#[test]
fn counts_take_four_bytes() {
    let mut w = Writer::new();
    assert_eq!(w.write_len(0), Ok(()));
    assert_eq!(w.write_len(3), Ok(()));
    assert_eq!(w.write_len(0x7FFF_FFFF), Ok(()));
    assert_eq!(w.into_bytes(), vec![0, 0, 0, 0, 0, 0, 0, 3, 0x7F, 0xFF, 0xFF, 0xFF]);
}

#[test]
fn a_count_beyond_the_signed_range_is_rejected() {
    let mut w = Writer::new();
    w.write_u8(1);
    let err = w.write_len(0x8000_0000).unwrap_err();
    assert_eq!(err.kind(), &ErrorKind::Custom("len too large".to_string()));
    assert_eq!(w.into_bytes(), vec![1]);
}

#[test]
fn text_has_a_two_byte_length() {
    let mut w = Writer::new();
    assert_eq!(w.write_str("id"), Ok(()));
    assert_eq!(w.write_str(""), Ok(()));
    assert_eq!(w.write_str("\0"), Ok(()));
    assert_eq!(
        w.into_bytes(),
        vec![0x00, 0x02, 0x69, 0x64, 0x00, 0x00, 0x00, 0x02, 0xC0, 0x80]
    );
}

#[test]
fn the_length_of_a_text_counts_encoded_bytes() {
    let mut w = Writer::new();
    assert_eq!(w.write_str("\u{1f600}"), Ok(()));
    assert_eq!(w.into_bytes(), vec![0x00, 0x06, 0xED, 0xA0, 0xBD, 0xED, 0xB8, 0x80]);
}

#[test]
fn the_longest_text_fits() {
    let text = "x".repeat(65535);
    let mut w = Writer::new();
    assert_eq!(w.write_str(&text), Ok(()));
    let bytes = w.into_bytes();
    assert_eq!(bytes.len(), 65537);
    assert_eq!(&bytes[..2], &[0xFF, 0xFF]);
}

#[test]
fn a_text_that_is_too_long_is_rejected() {
    let text = "x".repeat(65536);
    let mut w = Writer::new();
    let err = w.write_str(&text).unwrap_err();
    assert_eq!(err.kind(), &ErrorKind::Custom("string too long".to_string()));
    assert_eq!(w.len(), 0);
}

#[test]
fn buffers_are_appended_as_they_are() {
    let mut w = Writer::new();
    w.write_bytes(&[1, 2, 3]);
    w.write_bytes(&[]);
    w.write_bytes(&[4]);
    assert_eq!(w.len(), 4);
    assert_eq!(w.into_bytes(), vec![1, 2, 3, 4]);
}
