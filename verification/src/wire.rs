//! The wire format as mathematics: the byte image of a value, the conditions
//! under which a value has one, and what a byte string reads back as.
//!
//! Every multi-byte integer is big-endian. A stream is one root compound,
//! written like a field with an empty name: the tag byte of `Compound`, the
//! empty text, then the compound's payload.
//!
//! Where the format leaves a choice, reading is lenient about shape and
//! strict about content. The name of the root may be any text and is
//! dropped. A compound keeps every field in the order of the stream, also
//! where a name repeats. An empty list may announce any element tag; a list
//! with elements may not announce `End`. Bytes after the root are not looked
//! at. A count below zero is an error, text must be the modified UTF-8 that
//! writing would produce, and nesting is bounded by `MAX_DEPTH` in both
//! directions, so that neither writing nor reading can exhaust the stack.

use crate::endian::{be16, be16_at, be32, be32_at, be64, be64_at};
use crate::error::ErrorModel;
use crate::mutf8::mutf8_decode;
use crate::tag::{decode_tag, Tag};
use crate::value::{element_tag, tag_of, ValueModel};
use crate::writer::{check_count, check_text, count_image, text_image};
use vstd::prelude::*;

verus! {

/// Deepest nesting of lists and compounds, the root included, that is
/// written or read.
pub const MAX_DEPTH: usize = 512;

/// Message of the error for a list whose values do not share one tag.
pub open spec fn mixed_list() -> Seq<char> {
    "list elements differ in type"@
}

/// Message of the error for a count below zero.
pub open spec fn negative_length() -> Seq<char> {
    "negative length"@
}

/// Signed bytes as the bytes with the same bits.
pub open spec fn bytes_image(a: Seq<i8>) -> Seq<u8> {
    Seq::new(a.len(), |i: int| a[i] as u8)
}

/// 32-bit integers as bytes: four for each, big-endian, in order.
pub open spec fn ints_image(a: Seq<i32>) -> Seq<u8>
    decreases a.len(),
{
    if a.len() == 0 {
        Seq::empty()
    } else {
        be32(a[0] as u32) + ints_image(a.skip(1))
    }
}

/// 64-bit integers as bytes: eight for each, big-endian, in order.
pub open spec fn longs_image(a: Seq<i64>) -> Seq<u8>
    decreases a.len(),
{
    if a.len() == 0 {
        Seq::empty()
    } else {
        be64(a[0] as u64) + longs_image(a.skip(1))
    }
}

/// The payload of a value: its wire image without the tag byte.
pub open spec fn payload(m: ValueModel) -> Seq<u8>
    decreases m,
{
    match m {
        ValueModel::Byte(x) => seq![x as u8],
        ValueModel::Short(x) => be16(x as u16),
        ValueModel::Int(x) => be32(x as u32),
        ValueModel::Long(x) => be64(x as u64),
        ValueModel::Float(x) => be32(x),
        ValueModel::Double(x) => be64(x),
        ValueModel::ByteArray(a) => count_image(a.len()) + bytes_image(a),
        ValueModel::String(s) => text_image(s),
        ValueModel::List(items) => seq![element_tag(items).wire()] + count_image(items.len())
            + items_payload(items),
        ValueModel::Compound(fields) => fields_payload(fields) + seq![Tag::End.wire()],
        ValueModel::IntArray(a) => count_image(a.len()) + ints_image(a),
        ValueModel::LongArray(a) => count_image(a.len()) + longs_image(a),
    }
}

/// The payloads of a list's items, one after the other.
pub open spec fn items_payload(items: Seq<ValueModel>) -> Seq<u8>
    decreases items,
{
    if items.len() == 0 {
        Seq::empty()
    } else {
        payload(items[0]) + items_payload(items.skip(1))
    }
}

/// The fields of a compound, one after the other: for each its tag byte, its
/// name and its payload.
pub open spec fn fields_payload(fields: Seq<(Seq<char>, ValueModel)>) -> Seq<u8>
    decreases fields,
{
    if fields.len() == 0 {
        Seq::empty()
    } else {
        seq![tag_of(fields[0].1).wire()] + text_image(fields[0].0) + payload(fields[0].1)
            + fields_payload(fields.skip(1))
    }
}

/// The first error met when writing a value with `depth` levels of nesting
/// left, or `None` where the value has a wire image.
pub open spec fn check(m: ValueModel, depth: nat) -> Option<ErrorModel>
    decreases m,
{
    match m {
        ValueModel::ByteArray(a) => check_count(a.len()),
        ValueModel::IntArray(a) => check_count(a.len()),
        ValueModel::LongArray(a) => check_count(a.len()),
        ValueModel::String(s) => check_text(s),
        ValueModel::List(items) => if depth == 0 {
            Some(ErrorModel::DepthLimit)
        } else if check_count(items.len()) is Some {
            check_count(items.len())
        } else {
            check_items(items, element_tag(items), (depth - 1) as nat)
        },
        ValueModel::Compound(fields) => if depth == 0 {
            Some(ErrorModel::DepthLimit)
        } else {
            check_fields(fields, (depth - 1) as nat)
        },
        _ => None,
    }
}

/// The first error met when writing the items of a list under the element
/// tag `tag`.
pub open spec fn check_items(items: Seq<ValueModel>, tag: Tag, depth: nat) -> Option<ErrorModel>
    decreases items,
{
    if items.len() == 0 {
        None
    } else if tag_of(items[0]) != tag {
        Some(ErrorModel::Custom(mixed_list()))
    } else if check(items[0], depth) is Some {
        check(items[0], depth)
    } else {
        check_items(items.skip(1), tag, depth)
    }
}

/// The first error met when writing the fields of a compound.
pub open spec fn check_fields(fields: Seq<(Seq<char>, ValueModel)>, depth: nat) -> Option<
    ErrorModel,
>
    decreases fields,
{
    if fields.len() == 0 {
        None
    } else if check_text(fields[0].0) is Some {
        check_text(fields[0].0)
    } else if check(fields[0].1, depth) is Some {
        check(fields[0].1, depth)
    } else {
        check_fields(fields.skip(1), depth)
    }
}

/// The stream of a root compound: the tag byte of `Compound`, the empty
/// name, and the payload.
pub open spec fn root_image(m: ValueModel) -> Seq<u8> {
    seq![Tag::Compound.wire()] + text_image(Seq::empty()) + payload(m)
}

/// What encoding a value yields: its stream, or the first error met. Only a
/// compound can be the root.
pub open spec fn encode(m: ValueModel) -> Result<Seq<u8>, ErrorModel> {
    if !(m is Compound) {
        Err(ErrorModel::NoRootCompound)
    } else if check(m, MAX_DEPTH as nat) is Some {
        Err(check(m, MAX_DEPTH as nat).unwrap())
    } else {
        Ok(root_image(m))
    }
}

/// What was read, with the number of bytes it took, or the error met.
pub type Parsed<T> = Result<(T, nat), ErrorModel>;

/// The `n` signed bytes at `pos`.
pub open spec fn bytes_at(b: Seq<u8>, pos: int, n: nat) -> Seq<i8> {
    Seq::new(n, |i: int| b[pos + i] as i8)
}

/// The `n` big-endian 32-bit integers at `pos`.
pub open spec fn ints_at(b: Seq<u8>, pos: int, n: nat) -> Seq<i32> {
    Seq::new(n, |i: int| be32_at(b, pos + 4 * i) as i32)
}

/// The `n` big-endian 64-bit integers at `pos`.
pub open spec fn longs_at(b: Seq<u8>, pos: int, n: nat) -> Seq<i64> {
    Seq::new(n, |i: int| be64_at(b, pos + 8 * i) as i64)
}

/// Reads the 4-byte signed count at `pos`. A count below zero is an error.
pub open spec fn parse_count(b: Seq<u8>, pos: int) -> Result<nat, ErrorModel> {
    if pos + 4 > b.len() {
        Err(ErrorModel::UnexpectedEof)
    } else if (be32_at(b, pos) as i32) < 0 {
        Err(ErrorModel::Custom(negative_length()))
    } else {
        Ok((be32_at(b, pos) as i32) as nat)
    }
}

/// Reads the text at `pos`: a 2-byte length, then that many bytes of
/// modified UTF-8.
pub open spec fn parse_text(b: Seq<u8>, pos: int) -> Parsed<Seq<char>> {
    if pos + 2 > b.len() {
        Err(ErrorModel::UnexpectedEof)
    } else {
        let n = be16_at(b, pos) as nat;
        if pos + 2 + n > b.len() {
            Err(ErrorModel::UnexpectedEof)
        } else {
            let raw = b.subrange(pos + 2, pos + 2 + n);
            match mutf8_decode(raw) {
                Some(s) => Ok((s, 2 + n)),
                None => Err(ErrorModel::NonUnicodeString(raw)),
            }
        }
    }
}

/// Reads the payload of a value of the given tag at `pos`, with `depth`
/// levels of nesting left.
pub open spec fn parse_payload(tag: Tag, b: Seq<u8>, pos: int, depth: nat) -> Parsed<ValueModel>
    decreases depth, 0nat, 0nat,
{
    match tag {
        Tag::End => Err(ErrorModel::InvalidTag(0)),
        Tag::Byte => if pos + 1 > b.len() {
            Err(ErrorModel::UnexpectedEof)
        } else {
            Ok((ValueModel::Byte(b[pos] as i8), 1))
        },
        Tag::Short => if pos + 2 > b.len() {
            Err(ErrorModel::UnexpectedEof)
        } else {
            Ok((ValueModel::Short(be16_at(b, pos) as i16), 2))
        },
        Tag::Int => if pos + 4 > b.len() {
            Err(ErrorModel::UnexpectedEof)
        } else {
            Ok((ValueModel::Int(be32_at(b, pos) as i32), 4))
        },
        Tag::Long => if pos + 8 > b.len() {
            Err(ErrorModel::UnexpectedEof)
        } else {
            Ok((ValueModel::Long(be64_at(b, pos) as i64), 8))
        },
        Tag::Float => if pos + 4 > b.len() {
            Err(ErrorModel::UnexpectedEof)
        } else {
            Ok((ValueModel::Float(be32_at(b, pos)), 4))
        },
        Tag::Double => if pos + 8 > b.len() {
            Err(ErrorModel::UnexpectedEof)
        } else {
            Ok((ValueModel::Double(be64_at(b, pos)), 8))
        },
        Tag::ByteArray => match parse_count(b, pos) {
            Err(e) => Err(e),
            Ok(n) => if pos + 4 + n > b.len() {
                Err(ErrorModel::UnexpectedEof)
            } else {
                Ok((ValueModel::ByteArray(bytes_at(b, pos + 4, n)), 4 + n))
            },
        },
        Tag::String => match parse_text(b, pos) {
            Err(e) => Err(e),
            Ok((s, k)) => Ok((ValueModel::String(s), k)),
        },
        Tag::List => if depth == 0 {
            Err(ErrorModel::DepthLimit)
        } else if pos + 1 > b.len() {
            Err(ErrorModel::UnexpectedEof)
        } else {
            match decode_tag(b[pos]) {
                Err(e) => Err(e),
                Ok(element) => match parse_count(b, pos + 1) {
                    Err(e) => Err(e),
                    Ok(n) => match parse_items(element, b, pos + 5, n, (depth - 1) as nat) {
                        Err(e) => Err(e),
                        Ok((items, k)) => Ok((ValueModel::List(items), 5 + k)),
                    },
                },
            }
        },
        Tag::Compound => if depth == 0 {
            Err(ErrorModel::DepthLimit)
        } else {
            match parse_fields(b, pos, (depth - 1) as nat) {
                Err(e) => Err(e),
                Ok((fields, k)) => Ok((ValueModel::Compound(fields), k)),
            }
        },
        Tag::IntArray => match parse_count(b, pos) {
            Err(e) => Err(e),
            Ok(n) => if pos + 4 + 4 * n > b.len() {
                Err(ErrorModel::UnexpectedEof)
            } else {
                Ok((ValueModel::IntArray(ints_at(b, pos + 4, n)), 4 + 4 * n))
            },
        },
        Tag::LongArray => match parse_count(b, pos) {
            Err(e) => Err(e),
            Ok(n) => if pos + 4 + 8 * n > b.len() {
                Err(ErrorModel::UnexpectedEof)
            } else {
                Ok((ValueModel::LongArray(longs_at(b, pos + 4, n)), 4 + 8 * n))
            },
        },
    }
}

/// Reads `n` payloads of the given tag, one after the other, from `pos`.
pub open spec fn parse_items(tag: Tag, b: Seq<u8>, pos: int, n: nat, depth: nat) -> Parsed<
    Seq<ValueModel>,
>
    decreases depth, 1nat, n,
{
    if n == 0 {
        Ok((Seq::empty(), 0))
    } else {
        match parse_payload(tag, b, pos, depth) {
            Err(e) => Err(e),
            Ok((first, k)) => match parse_items(tag, b, pos + k, (n - 1) as nat, depth) {
                Err(e) => Err(e),
                Ok((rest, l)) => Ok((seq![first] + rest, k + l)),
            },
        }
    }
}

/// Number of bytes of `b` from `pos` on.
pub open spec fn left(b: Seq<u8>, pos: int) -> nat {
    if pos <= b.len() {
        (b.len() - pos) as nat
    } else {
        0
    }
}

/// Reads named fields from `pos` up to and including the `End` byte that
/// closes the compound.
pub open spec fn parse_fields(b: Seq<u8>, pos: int, depth: nat) -> Parsed<
    Seq<(Seq<char>, ValueModel)>,
>
    decreases depth, 1nat, left(b, pos),
{
    if pos + 1 > b.len() {
        Err(ErrorModel::UnexpectedEof)
    } else if b[pos] == Tag::End.wire() {
        Ok((Seq::empty(), 1))
    } else {
        match decode_tag(b[pos]) {
            Err(e) => Err(e),
            Ok(tag) => match parse_text(b, pos + 1) {
                Err(e) => Err(e),
                Ok((name, k)) => match parse_payload(tag, b, pos + 1 + k, depth) {
                    Err(e) => Err(e),
                    Ok((value, l)) => match parse_fields(b, pos + 1 + k + l, depth) {
                        Err(e) => Err(e),
                        Ok((rest, m)) => Ok((seq![(name, value)] + rest, 1 + k + l + m)),
                    },
                },
            },
        }
    }
}

/// Reads a stream: the tag byte of the root, which must be `Compound`, its
/// name, which is dropped, and the compound's payload.
pub open spec fn parse_root(b: Seq<u8>) -> Parsed<ValueModel> {
    if b.len() < 1 {
        Err(ErrorModel::UnexpectedEof)
    } else {
        match decode_tag(b[0]) {
            Err(e) => Err(e),
            Ok(tag) => if tag != Tag::Compound {
                Err(ErrorModel::NoRootCompound)
            } else {
                match parse_text(b, 1) {
                    Err(e) => Err(e),
                    Ok((name, k)) => match parse_payload(
                        Tag::Compound,
                        b,
                        1 + k as int,
                        MAX_DEPTH as nat,
                    ) {
                        Err(e) => Err(e),
                        Ok((root, l)) => Ok((root, 1 + k + l)),
                    },
                }
            },
        }
    }
}

/// What decoding a stream yields: the root compound, or the first error met.
/// Bytes after the root are not looked at.
pub open spec fn decode(b: Seq<u8>) -> Result<ValueModel, ErrorModel> {
    match parse_root(b) {
        Err(e) => Err(e),
        Ok((root, _)) => Ok(root),
    }
}

} // verus!
