use fastnbt::{Error, ErrorKind};

#[test]
fn constructors_give_their_kinds() {
    assert_eq!(Error::invalid_tag(200).kind(), &ErrorKind::InvalidTag(200));
    assert_eq!(Error::no_root_compound().kind(), &ErrorKind::NoRootCompound);
    assert_eq!(Error::unexpected_eof().kind(), &ErrorKind::UnexpectedEof);
    assert_eq!(Error::array_as_seq().kind(), &ErrorKind::ArrayAsSeq);
    assert_eq!(Error::array_as_other().kind(), &ErrorKind::ArrayAsOther);
    assert_eq!(Error::depth_limit().kind(), &ErrorKind::DepthLimit);
}

#[test]
fn nonunicode_string_keeps_the_raw_bytes() {
    let raw = [0x61u8, 0xFF, 0x00, 0x80];
    let err = Error::nonunicode_string(&raw);
    assert_eq!(err.kind(), &ErrorKind::NonUnicodeString(raw.to_vec()));
}

#[test]
fn nonunicode_string_of_nothing_is_empty() {
    let err = Error::nonunicode_string(&[]);
    assert_eq!(err.kind(), &ErrorKind::NonUnicodeString(Vec::new()));
}

#[test]
fn bespoke_keeps_the_message() {
    let err = Error::bespoke("something else".to_string());
    assert_eq!(err.kind(), &ErrorKind::Custom("something else".to_string()));
}

#[test]
fn io_keeps_the_message() {
    let err = Error::io("broken pipe".to_string());
    assert_eq!(err.kind(), &ErrorKind::Io("broken pipe".to_string()));
}

#[test]
fn the_two_array_mistakes_are_distinct() {
    assert_ne!(Error::array_as_seq(), Error::array_as_other());
}

#[test]
fn errors_compare_by_kind_and_fields() {
    assert_eq!(Error::invalid_tag(13), Error::invalid_tag(13));
    assert_ne!(Error::invalid_tag(13), Error::invalid_tag(14));
    assert_ne!(Error::unexpected_eof(), Error::no_root_compound());
    assert_eq!(Error::unexpected_eof().clone(), Error::unexpected_eof());
}

#[test]
fn messages() {
    assert_eq!(Error::invalid_tag(13).message(), "invalid nbt tag value: 13");
    assert_eq!(Error::invalid_tag(0).message(), "invalid nbt tag value: 0");
    assert_eq!(Error::invalid_tag(9).message(), "invalid nbt tag value: 9");
    assert_eq!(Error::invalid_tag(10).message(), "invalid nbt tag value: 10");
    assert_eq!(Error::invalid_tag(99).message(), "invalid nbt tag value: 99");
    assert_eq!(Error::invalid_tag(100).message(), "invalid nbt tag value: 100");
    assert_eq!(Error::invalid_tag(205).message(), "invalid nbt tag value: 205");
    assert_eq!(Error::invalid_tag(255).message(), "invalid nbt tag value: 255");
    assert_eq!(Error::no_root_compound().message(), "invalid nbt: no root compound");
    assert_eq!(
        Error::unexpected_eof().message(),
        "eof: unexpectedly ran out of input"
    );
    assert_eq!(
        Error::array_as_seq().message(),
        "expected NBT Array, found seq: use ByteArray, IntArray or LongArray types"
    );
    assert_eq!(
        Error::array_as_other().message(),
        "expected NBT Array: use ByteArray, IntArray or LongArray types"
    );
    assert_eq!(Error::depth_limit().message(), "invalid nbt: nested too deeply");
    assert_eq!(Error::bespoke("as given".to_string()).message(), "as given");
    assert_eq!(Error::io("disk full".to_string()).message(), "io error: disk full");
}

#[test]
fn the_message_of_bad_text_shows_it_with_replacements() {
    assert_eq!(
        Error::nonunicode_string(b"plain").message(),
        "invalid nbt string: nonunicode: plain"
    );
    assert_eq!(
        Error::nonunicode_string(&[b'a', 0xFF, b'b']).message(),
        "invalid nbt string: nonunicode: a\u{fffd}b"
    );
}
