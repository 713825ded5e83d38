//! The one-byte discriminator that precedes every value on the wire.

use crate::error::{Error, ErrorModel};
use vstd::prelude::*;

verus! {

/// The closed set of wire types. Each tag is identified on the wire by a single
/// unsigned byte, `End` being 0 and `LongArray` being 12.
#[derive(Clone, Copy, Debug, PartialEq, Eq, Hash, Structural)]
pub enum Tag {
    /// Terminates a compound; also the element tag of an empty list.
    End,
    /// One signed byte.
    Byte,
    /// A signed 16-bit integer.
    Short,
    /// A signed 32-bit integer.
    Int,
    /// A signed 64-bit integer.
    Long,
    /// An IEEE-754 single.
    Float,
    /// An IEEE-754 double.
    Double,
    /// A counted run of signed bytes.
    ByteArray,
    /// Length-prefixed modified UTF-8 text.
    String,
    /// A counted run of unnamed payloads that share one tag.
    List,
    /// Named fields up to an `End` marker.
    Compound,
    /// A counted run of signed 32-bit integers.
    IntArray,
    /// A counted run of signed 64-bit integers.
    LongArray,
}

/// Number of distinct tags; every wire byte below this value names a tag.
pub const TAG_COUNT: u8 = 13;

/// The tag that a wire byte names, for bytes below `TAG_COUNT`.
pub open spec fn tag_of_byte(b: u8) -> Tag {
    if b == 0 {
        Tag::End
    } else if b == 1 {
        Tag::Byte
    } else if b == 2 {
        Tag::Short
    } else if b == 3 {
        Tag::Int
    } else if b == 4 {
        Tag::Long
    } else if b == 5 {
        Tag::Float
    } else if b == 6 {
        Tag::Double
    } else if b == 7 {
        Tag::ByteArray
    } else if b == 8 {
        Tag::String
    } else if b == 9 {
        Tag::List
    } else if b == 10 {
        Tag::Compound
    } else if b == 11 {
        Tag::IntArray
    } else {
        Tag::LongArray
    }
}

/// What decoding a tag byte yields: the tag, or the rejected byte.
pub open spec fn decode_tag(b: u8) -> Result<Tag, ErrorModel> {
    if b < TAG_COUNT {
        Ok(tag_of_byte(b))
    } else {
        Err(ErrorModel::InvalidTag(b))
    }
}

impl Tag {
    /// The byte that identifies this tag on the wire.
    pub open spec fn wire(self) -> u8 {
        match self {
            Tag::End => 0,
            Tag::Byte => 1,
            Tag::Short => 2,
            Tag::Int => 3,
            Tag::Long => 4,
            Tag::Float => 5,
            Tag::Double => 6,
            Tag::ByteArray => 7,
            Tag::String => 8,
            Tag::List => 9,
            Tag::Compound => 10,
            Tag::IntArray => 11,
            Tag::LongArray => 12,
        }
    }

    /// True for the three fixed-width array kinds.
    pub open spec fn is_array_kind(self) -> bool {
        self == Tag::ByteArray || self == Tag::IntArray || self == Tag::LongArray
    }

    /// Width in bytes of one element of an array kind; 0 for every other tag.
    pub open spec fn width(self) -> nat {
        match self {
            Tag::ByteArray => 1,
            Tag::IntArray => 4,
            Tag::LongArray => 8,
            _ => 0,
        }
    }

    /// Returns the wire byte of this tag.
    pub fn to_u8(self) -> (b: u8)
        ensures
            b == self.wire(),
            b < TAG_COUNT,
            decode_tag(b) == Ok::<Tag, ErrorModel>(self),
    {
        match self {
            Tag::End => 0,
            Tag::Byte => 1,
            Tag::Short => 2,
            Tag::Int => 3,
            Tag::Long => 4,
            Tag::Float => 5,
            Tag::Double => 6,
            Tag::ByteArray => 7,
            Tag::String => 8,
            Tag::List => 9,
            Tag::Compound => 10,
            Tag::IntArray => 11,
            Tag::LongArray => 12,
        }
    }

    /// Decodes a wire byte. Bytes 0 to 12 name a tag; any other byte is
    /// rejected with an invalid-tag error that carries the byte.
    pub fn from_u8(b: u8) -> (r: Result<Tag, Error>)
        ensures
            b < TAG_COUNT ==> r == Ok::<Tag, Error>(tag_of_byte(b)),
            b < TAG_COUNT ==> tag_of_byte(b).wire() == b,
            b >= TAG_COUNT ==> r is Err && r->Err_0@ == ErrorModel::InvalidTag(b),
    {
        match b {
            0 => Ok(Tag::End),
            1 => Ok(Tag::Byte),
            2 => Ok(Tag::Short),
            3 => Ok(Tag::Int),
            4 => Ok(Tag::Long),
            5 => Ok(Tag::Float),
            6 => Ok(Tag::Double),
            7 => Ok(Tag::ByteArray),
            8 => Ok(Tag::String),
            9 => Ok(Tag::List),
            10 => Ok(Tag::Compound),
            11 => Ok(Tag::IntArray),
            12 => Ok(Tag::LongArray),
            _ => Err(Error::invalid_tag(b)),
        }
    }

    /// Tells whether this tag is one of the three array kinds.
    pub fn is_array(self) -> (r: bool)
        ensures
            r == self.is_array_kind(),
    {
        match self {
            Tag::ByteArray | Tag::IntArray | Tag::LongArray => true,
            _ => false,
        }
    }

    /// Width in bytes of one array element: 1, 4 or 8 for the array kinds,
    /// `None` for every other tag.
    pub fn element_width(self) -> (r: Option<usize>)
        ensures
            self.is_array_kind() ==> r == Some(self.width() as usize),
            !self.is_array_kind() ==> r is None,
            r matches Some(w) ==> w == 1 || w == 4 || w == 8,
    {
        match self {
            Tag::ByteArray => Some(1),
            Tag::IntArray => Some(4),
            Tag::LongArray => Some(8),
            _ => None,
        }
    }
}

} // verus!
