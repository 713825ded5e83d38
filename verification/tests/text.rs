use fastnbt::mutf8::{decode_mutf8, decode_mutf8_char, encode_mutf8};
use fastnbt::ErrorKind;

fn rejected(bytes: &[u8]) {
    let err = decode_mutf8(bytes).unwrap_err();
    assert_eq!(err.kind(), &ErrorKind::NonUnicodeString(bytes.to_vec()));
}

#[test]
fn ascii_is_written_as_it_is() {
    assert_eq!(encode_mutf8("id"), vec![0x69, 0x64]);
    assert_eq!(encode_mutf8(""), Vec::<u8>::new());
}

#[test]
fn nul_takes_two_bytes() {
    assert_eq!(encode_mutf8("\0"), vec![0xC0, 0x80]);
    assert_eq!(encode_mutf8("a\0b"), vec![0x61, 0xC0, 0x80, 0x62]);
}

#[test]
fn two_byte_characters() {
    assert_eq!(encode_mutf8("\u{80}"), vec![0xC2, 0x80]);
    assert_eq!(encode_mutf8("\u{e9}"), vec![0xC3, 0xA9]);
    assert_eq!(encode_mutf8("\u{7ff}"), vec![0xDF, 0xBF]);
}

#[test]
fn three_byte_characters() {
    assert_eq!(encode_mutf8("\u{800}"), vec![0xE0, 0xA0, 0x80]);
    assert_eq!(encode_mutf8("\u{20ac}"), vec![0xE2, 0x82, 0xAC]);
    assert_eq!(encode_mutf8("\u{ffff}"), vec![0xEF, 0xBF, 0xBF]);
}

#[test]
fn characters_above_the_basic_plane_take_a_surrogate_pair() {
    assert_eq!(encode_mutf8("\u{10000}"), vec![0xED, 0xA0, 0x80, 0xED, 0xB0, 0x80]);
    assert_eq!(encode_mutf8("\u{1f600}"), vec![0xED, 0xA0, 0xBD, 0xED, 0xB8, 0x80]);
    assert_eq!(encode_mutf8("\u{10ffff}"), vec![0xED, 0xAF, 0xBF, 0xED, 0xBF, 0xBF]);
}

#[test]
fn decoding_undoes_encoding() {
    let samples = [
        "",
        "a",
        "id",
        "tags",
        "\0",
        "a\0b",
        "\u{7f}\u{80}\u{7ff}\u{800}",
        "\u{d7ff}\u{e000}\u{ffff}",
        "\u{10000}\u{1f600}\u{10ffff}",
        "mixed \u{e9}\u{20ac}\u{1f600} text",
    ];
    for s in samples.iter() {
        assert_eq!(decode_mutf8(&encode_mutf8(s)), Ok(s.to_string()));
    }
}

#[test]
fn decoding_gives_the_characters_not_the_bytes() {
    assert_eq!(decode_mutf8(&[0xC3, 0xA9]), Ok("\u{e9}".to_string()));
    assert_eq!(decode_mutf8(&[0xC0, 0x80]), Ok("\0".to_string()));
    assert_eq!(
        decode_mutf8(&[0xED, 0xA0, 0xBD, 0xED, 0xB8, 0x80]),
        Ok("\u{1f600}".to_string())
    );
}

#[test]
fn one_character_at_a_position() {
    let bytes = [0x61, 0xE2, 0x82, 0xAC, 0x62];
    assert_eq!(decode_mutf8_char(&bytes, 0), Some(('a', 1)));
    assert_eq!(decode_mutf8_char(&bytes, 1), Some(('\u{20ac}', 3)));
    assert_eq!(decode_mutf8_char(&bytes, 2), None);
    assert_eq!(decode_mutf8_char(&bytes, 4), Some(('b', 1)));
}

#[test]
fn a_zero_byte_is_rejected() {
    rejected(&[0x00]);
    rejected(&[0x61, 0x00, 0x62]);
}

#[test]
fn overlong_forms_are_rejected() {
    rejected(&[0xC1, 0x81]);
    rejected(&[0xC0, 0x81]);
    rejected(&[0xE0, 0x80, 0x80]);
    rejected(&[0xE0, 0x9F, 0xBF]);
}

#[test]
fn four_byte_utf8_is_rejected() {
    rejected(&[0xF0, 0x9F, 0x98, 0x80]);
}

#[test]
fn stray_continuation_bytes_are_rejected() {
    rejected(&[0x80]);
    rejected(&[0xBF, 0x61]);
}

#[test]
fn cut_characters_are_rejected() {
    rejected(&[0xC3]);
    rejected(&[0xE2, 0x82]);
    rejected(&[0xED, 0xA0, 0xBD]);
    rejected(&[0xED, 0xA0, 0xBD, 0xED, 0xB8]);
}

#[test]
fn lone_surrogates_are_rejected() {
    rejected(&[0xED, 0xB0, 0x80]);
    rejected(&[0xED, 0xA0, 0x80, 0x61, 0x62, 0x63]);
    rejected(&[0xED, 0xA0, 0x80, 0xED, 0xA0, 0x80]);
}

#[test]
fn no_character_stands_beyond_the_end() {
    assert_eq!(decode_mutf8_char(&[0x61], 1), None);
    assert_eq!(decode_mutf8_char(&[0x61], 7), None);
    assert_eq!(decode_mutf8_char(&[], 0), None);
}
