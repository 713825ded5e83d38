use fastnbt::{Error, ErrorKind, Tag};

const ALL: [Tag; 13] = [
    Tag::End,
    Tag::Byte,
    Tag::Short,
    Tag::Int,
    Tag::Long,
    Tag::Float,
    Tag::Double,
    Tag::ByteArray,
    Tag::String,
    Tag::List,
    Tag::Compound,
    Tag::IntArray,
    Tag::LongArray,
];

#[test]
fn wire_values_run_from_zero_to_twelve() {
    for (i, tag) in ALL.iter().enumerate() {
        assert_eq!(tag.to_u8() as usize, i);
    }
}

#[test]
fn every_tag_survives_its_wire_byte() {
    for tag in ALL.iter() {
        assert_eq!(Tag::from_u8(tag.to_u8()), Ok(*tag));
    }
}

#[test]
fn byte_thirteen_is_invalid_and_carried() {
    assert_eq!(Tag::from_u8(13), Err(Error::invalid_tag(13)));
    let err = Tag::from_u8(13).unwrap_err();
    assert_eq!(err.kind(), &ErrorKind::InvalidTag(13));
}

#[test]
fn every_byte_above_twelve_is_invalid() {
    for b in 13u8..=255 {
        let err = Tag::from_u8(b).unwrap_err();
        assert_eq!(err.kind(), &ErrorKind::InvalidTag(b));
    }
}

#[test]
fn only_the_three_array_kinds_are_arrays() {
    for tag in ALL.iter() {
        let expected = matches!(tag, Tag::ByteArray | Tag::IntArray | Tag::LongArray);
        assert_eq!(tag.is_array(), expected);
    }
}

#[test]
fn element_widths_are_one_four_and_eight() {
    assert_eq!(Tag::ByteArray.element_width(), Some(1));
    assert_eq!(Tag::IntArray.element_width(), Some(4));
    assert_eq!(Tag::LongArray.element_width(), Some(8));
}

#[test]
fn other_tags_have_no_element_width() {
    for tag in ALL.iter() {
        if !tag.is_array() {
            assert_eq!(tag.element_width(), None);
        }
    }
}
