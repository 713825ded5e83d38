//! The deserializer: one pass over a stream, building the dynamic tree.

use crate::array::{expect_bytes, rejection, CallKind};
use crate::endian::{get_be16, get_be32, get_be64};
use crate::error::{Error, ErrorModel};
use crate::mutf8::decode_mutf8;
use crate::tag::{Tag, TAG_COUNT};
use crate::ser::{bytes_to_buffer, ints_to_buffer, longs_to_buffer};
use crate::value::{fields_model, items_model, Value, ValueModel};
use crate::wire::{
    bytes_at, bytes_image, decode, ints_image, longs_image, ints_at, longs_at, parse_count, parse_fields, parse_items, parse_payload,
    parse_text, MAX_DEPTH,
};
use vstd::prelude::*;
use vstd::slice::slice_subrange;

verus! {

/// Tells whether fewer than `need` bytes stand at `pos` and after.
fn lacks(data: &[u8], pos: usize, need: usize) -> (r: bool)
    ensures
        r == (pos + need > data@.len()),
{
    pos > data.len() || data.len() - pos < need
}

/// Reads the 4-byte signed count at `pos`. Fails with `UnexpectedEof` where
/// fewer than four bytes are left, and with a custom error where the count
/// is below zero.
pub fn read_count(data: &[u8], pos: usize) -> (r: Result<usize, Error>)
    ensures
        match parse_count(data@, pos as int) {
            Ok(n) => r is Ok && r->Ok_0 == n && pos + 4 <= data@.len(),
            Err(e) => r is Err && r->Err_0@ == e,
        },
{
    if lacks(data, pos, 4) {
        return Err(Error::unexpected_eof());
    }
    let n: i32 = #[verifier::truncate] (get_be32(data, pos) as i32);
    if n < 0 {
        return Err(Error::bespoke("negative length".to_owned()));
    }
    Ok(n as usize)
}

/// Reads the text at `pos`: a 2-byte length, then that many bytes of
/// modified UTF-8. Returns the text and the position after it. Fails with
/// `UnexpectedEof` where the input ends first, and with `NonUnicodeString`,
/// carrying the bytes, where they are not modified UTF-8.
pub fn read_text(data: &[u8], pos: usize) -> (r: Result<(String, usize), Error>)
    ensures
        match parse_text(data@, pos as int) {
            Ok((s, k)) => r is Ok && r->Ok_0.0@ == s && r->Ok_0.1 == pos + k && pos + k
                <= data@.len(),
            Err(e) => r is Err && r->Err_0@ == e,
        },
{
    let len = data.len();
    if lacks(data, pos, 2) {
        return Err(Error::unexpected_eof());
    }
    let n: usize = get_be16(data, pos) as usize;
    if len - pos - 2 < n {
        return Err(Error::unexpected_eof());
    }
    let raw = slice_subrange(data, pos + 2, pos + 2 + n);
    match decode_mutf8(raw) {
        Ok(text) => Ok((text, pos + 2 + n)),
        Err(e) => Err(e),
    }
}

/// Reads `n` signed bytes from `pos`.
fn read_byte_run(data: &[u8], pos: usize, n: usize) -> (out: Vec<i8>)
    requires
        pos + n <= data@.len(),
    ensures
        out@ == bytes_at(data@, pos as int, n as nat),
{
    let len = data.len();
    let mut out: Vec<i8> = Vec::new();
    let mut i: usize = 0;
    while i < n
        invariant
            i <= n,
            pos + n <= data@.len(),
            len == data@.len(),
            out@ == bytes_at(data@, pos as int, i as nat),
        decreases n - i,
    {
        out.push(#[verifier::truncate] (data[pos + i] as i8));
        i += 1;
        assert(out@ =~= bytes_at(data@, pos as int, i as nat));
    }
    out
}

/// Reads `n` big-endian 32-bit integers from `pos`.
fn read_int_run(data: &[u8], pos: usize, n: usize) -> (out: Vec<i32>)
    requires
        pos + 4 * n <= data@.len(),
    ensures
        out@ == ints_at(data@, pos as int, n as nat),
{
    let len = data.len();
    let mut out: Vec<i32> = Vec::new();
    let mut i: usize = 0;
    while i < n
        invariant
            i <= n,
            pos + 4 * n <= data@.len(),
            len == data@.len(),
            out@ == ints_at(data@, pos as int, i as nat),
        decreases n - i,
    {
        out.push(#[verifier::truncate] (get_be32(data, pos + 4 * i) as i32));
        i += 1;
        assert(out@ =~= ints_at(data@, pos as int, i as nat));
    }
    out
}

/// Reads `n` big-endian 64-bit integers from `pos`.
fn read_long_run(data: &[u8], pos: usize, n: usize) -> (out: Vec<i64>)
    requires
        pos + 8 * n <= data@.len(),
    ensures
        out@ == longs_at(data@, pos as int, n as nat),
{
    let len = data.len();
    let mut out: Vec<i64> = Vec::new();
    let mut i: usize = 0;
    while i < n
        invariant
            i <= n,
            pos + 8 * n <= data@.len(),
            len == data@.len(),
            out@ == longs_at(data@, pos as int, i as nat),
        decreases n - i,
    {
        out.push(#[verifier::truncate] (get_be64(data, pos + 8 * i) as i64));
        i += 1;
        assert(out@ =~= longs_at(data@, pos as int, i as nat));
    }
    out
}

/// Reads the payload of a value of the given tag at `pos`, with `depth`
/// levels of nesting left. Returns the value and the position after it, or
/// the first error met: `UnexpectedEof` where the input ends inside the
/// value, `InvalidTag` for a tag byte above 12 and for `End` where a value is
/// required, `NonUnicodeString` for text that is not modified UTF-8,
/// `DepthLimit` where the nesting exceeds `depth`, and a custom error for a
/// count below zero.
pub fn read_payload(data: &[u8], tag: Tag, pos: usize, depth: usize) -> (r: Result<
    (Value, usize),
    Error,
>)
    ensures
        match parse_payload(tag, data@, pos as int, depth as nat) {
            Ok((m, k)) => r is Ok && r->Ok_0.0@ == m && r->Ok_0.1 == pos + k && pos + k
                <= data@.len(),
            Err(e) => r is Err && r->Err_0@ == e,
        },
    decreases depth, 0nat,
{
    let len = data.len();
    match tag {
        Tag::End => Err(Error::invalid_tag(0)),
        Tag::Byte => {
            if lacks(data, pos, 1) {
                return Err(Error::unexpected_eof());
            }
            Ok((Value::Byte(#[verifier::truncate] (data[pos] as i8)), pos + 1))
        },
        Tag::Short => {
            if lacks(data, pos, 2) {
                return Err(Error::unexpected_eof());
            }
            Ok((Value::Short(#[verifier::truncate] (get_be16(data, pos) as i16)), pos + 2))
        },
        Tag::Int => {
            if lacks(data, pos, 4) {
                return Err(Error::unexpected_eof());
            }
            Ok((Value::Int(#[verifier::truncate] (get_be32(data, pos) as i32)), pos + 4))
        },
        Tag::Long => {
            if lacks(data, pos, 8) {
                return Err(Error::unexpected_eof());
            }
            Ok((Value::Long(#[verifier::truncate] (get_be64(data, pos) as i64)), pos + 8))
        },
        Tag::Float => {
            if lacks(data, pos, 4) {
                return Err(Error::unexpected_eof());
            }
            Ok((Value::Float(get_be32(data, pos)), pos + 4))
        },
        Tag::Double => {
            if lacks(data, pos, 8) {
                return Err(Error::unexpected_eof());
            }
            Ok((Value::Double(get_be64(data, pos)), pos + 8))
        },
        Tag::ByteArray => {
            let n = match read_count(data, pos) {
                Ok(n) => n,
                Err(e) => {
                    return Err(e);
                },
            };
            if len - pos - 4 < n {
                return Err(Error::unexpected_eof());
            }
            Ok((Value::ByteArray(read_byte_run(data, pos + 4, n)), pos + 4 + n))
        },
        Tag::String => match read_text(data, pos) {
            Ok((text, next)) => Ok((Value::String(text), next)),
            Err(e) => Err(e),
        },
        Tag::List => {
            if depth == 0 {
                return Err(Error::depth_limit());
            }
            if lacks(data, pos, 1) {
                return Err(Error::unexpected_eof());
            }
            let element = match Tag::from_u8(data[pos]) {
                Ok(t) => t,
                Err(e) => {
                    return Err(e);
                },
            };
            let n = match read_count(data, pos + 1) {
                Ok(n) => n,
                Err(e) => {
                    return Err(e);
                },
            };
            match read_items(data, element, pos + 5, n, depth - 1) {
                Ok((items, next)) => Ok((Value::List(items), next)),
                Err(e) => Err(e),
            }
        },
        Tag::Compound => {
            if depth == 0 {
                return Err(Error::depth_limit());
            }
            match read_fields(data, pos, depth - 1) {
                Ok((fields, next)) => Ok((Value::Compound(fields), next)),
                Err(e) => Err(e),
            }
        },
        Tag::IntArray => {
            let n = match read_count(data, pos) {
                Ok(n) => n,
                Err(e) => {
                    return Err(e);
                },
            };
            if (len - pos - 4) / 4 < n {
                return Err(Error::unexpected_eof());
            }
            Ok((Value::IntArray(read_int_run(data, pos + 4, n)), pos + 4 + 4 * n))
        },
        Tag::LongArray => {
            let n = match read_count(data, pos) {
                Ok(n) => n,
                Err(e) => {
                    return Err(e);
                },
            };
            if (len - pos - 4) / 8 < n {
                return Err(Error::unexpected_eof());
            }
            Ok((Value::LongArray(read_long_run(data, pos + 4, n)), pos + 4 + 8 * n))
        },
    }
}

/// Reads `n` payloads of the given tag, one after the other, from `pos`.
fn read_items(data: &[u8], tag: Tag, pos: usize, n: usize, depth: usize) -> (r: Result<
    (Vec<Value>, usize),
    Error,
>)
    requires
        pos <= data@.len(),
    ensures
        match parse_items(tag, data@, pos as int, n as nat, depth as nat) {
            Ok((items, k)) => r is Ok && items_model(r->Ok_0.0@) == items && r->Ok_0.1 == pos + k
                && pos + k <= data@.len(),
            Err(e) => r is Err && r->Err_0@ == e,
        },
    decreases depth, 1nat,
{
    let mut items: Vec<Value> = Vec::new();
    let mut at: usize = pos;
    let mut i: usize = 0;
    proof {
        match parse_items(tag, data@, pos as int, n as nat, depth as nat) {
            Ok((rest, l)) => {
                assert(items_model(items@) + rest =~= rest);
            },
            Err(_) => {},
        }
    }
    while i < n
        invariant
            i <= n,
            pos <= at <= data@.len(),
            parse_items(tag, data@, pos as int, n as nat, depth as nat) == match parse_items(
                tag,
                data@,
                at as int,
                (n - i) as nat,
                depth as nat,
            ) {
                Ok((rest, l)) => Ok((items_model(items@) + rest, ((at - pos) + l) as nat)),
                Err(e) => Err(e),
            },
        decreases n - i,
    {
        let ghost before = items@;
        match read_payload(data, tag, at, depth) {
            Err(e) => {
                return Err(e);
            },
            Ok((value, next)) => {
                items.push(value);
                proof {
                    assert(items@.drop_last() =~= before);
                    assert(items_model(items@) == items_model(before).push(value@));
                    match parse_items(tag, data@, next as int, (n - i - 1) as nat, depth as nat) {
                        Ok((rest, l)) => {
                            assert(items_model(before) + (seq![value@] + rest) =~= items_model(
                                items@,
                            ) + rest);
                        },
                        Err(_) => {},
                    }
                }
                at = next;
            },
        }
        i += 1;
    }
    proof {
        assert(items_model(items@) + Seq::<ValueModel>::empty() =~= items_model(items@));
    }
    Ok((items, at))
}

/// Reads named fields from `pos` up to and including the `End` byte that
/// closes the compound.
fn read_fields(data: &[u8], pos: usize, depth: usize) -> (r: Result<
    (Vec<(String, Value)>, usize),
    Error,
>)
    ensures
        match parse_fields(data@, pos as int, depth as nat) {
            Ok((fields, k)) => r is Ok && fields_model(r->Ok_0.0@) == fields && r->Ok_0.1 == pos
                + k && pos + k <= data@.len(),
            Err(e) => r is Err && r->Err_0@ == e,
        },
    decreases depth, 1nat,
{
    let len = data.len();
    if pos > len {
        return Err(Error::unexpected_eof());
    }
    let mut fields: Vec<(String, Value)> = Vec::new();
    let mut at: usize = pos;
    proof {
        match parse_fields(data@, pos as int, depth as nat) {
            Ok((rest, l)) => {
                assert(fields_model(fields@) + rest =~= rest);
            },
            Err(_) => {},
        }
    }
    loop
        invariant
            len == data@.len(),
            pos <= at <= len,
            parse_fields(data@, pos as int, depth as nat) == match parse_fields(
                data@,
                at as int,
                depth as nat,
            ) {
                Ok((rest, l)) => Ok((fields_model(fields@) + rest, ((at - pos) + l) as nat)),
                Err(e) => Err(e),
            },
        decreases len - at,
    {
        if len - at < 1 {
            return Err(Error::unexpected_eof());
        }
        let byte = data[at];
        if byte == 0 {
            proof {
                assert(fields_model(fields@) + Seq::<(Seq<char>, ValueModel)>::empty()
                    =~= fields_model(fields@));
            }
            return Ok((fields, at + 1));
        }
        let tag = match Tag::from_u8(byte) {
            Ok(t) => t,
            Err(e) => {
                return Err(e);
            },
        };
        let (name, after_name) = match read_text(data, at + 1) {
            Ok(pair) => pair,
            Err(e) => {
                return Err(e);
            },
        };
        let (value, next) = match read_payload(data, tag, after_name, depth) {
            Ok(pair) => pair,
            Err(e) => {
                return Err(e);
            },
        };
        let ghost before = fields@;
        let ghost entry = (name@, value@);
        fields.push((name, value));
        proof {
            assert(fields@.drop_last() =~= before);
            assert(fields_model(fields@) == fields_model(before).push(entry));
            match parse_fields(data@, next as int, depth as nat) {
                Ok((rest, l)) => {
                    assert(fields_model(before) + (seq![entry] + rest) =~= fields_model(fields@)
                        + rest);
                },
                Err(_) => {},
            }
        }
        at = next;
    }
}

/// Decodes a stream into its root compound. The stream starts with the tag
/// byte of the root, which must be `Compound`, and the root's name, which is
/// dropped; the compound's payload follows. Bytes after the root are not
/// looked at. Returns the root, or the first error met: `UnexpectedEof`
/// where the input ends before the root does, `InvalidTag` for a tag byte
/// above 12, `NoRootCompound` for a root of any other tag,
/// `NonUnicodeString` for text that is not modified UTF-8, `DepthLimit`
/// beyond `MAX_DEPTH` levels of nesting, and a custom error for a count
/// below zero.
pub fn from_bytes(data: &[u8]) -> (r: Result<Value, Error>)
    ensures
        match decode(data@) {
            Ok(root) => r is Ok && r->Ok_0@ == root,
            Err(e) => r is Err && r->Err_0@ == e,
        },
        data@.len() == 0 ==> r is Err && r->Err_0@ == ErrorModel::UnexpectedEof,
        data@.len() > 0 && data@[0] >= TAG_COUNT ==> r is Err && r->Err_0@
            == ErrorModel::InvalidTag(data@[0]),
        data@.len() > 0 && data@[0] < TAG_COUNT && data@[0] != Tag::Compound.wire() ==> r is Err
            && r->Err_0@ == ErrorModel::NoRootCompound,
{
    if data.len() < 1 {
        return Err(Error::unexpected_eof());
    }
    let tag = match Tag::from_u8(data[0]) {
        Ok(t) => t,
        Err(e) => {
            return Err(e);
        },
    };
    match tag {
        Tag::Compound => {},
        _ => {
            return Err(Error::no_root_compound());
        },
    }
    let (_, after_name) = match read_text(data, 1) {
        Ok(pair) => pair,
        Err(e) => {
            return Err(e);
        },
    };
    match read_payload(data, Tag::Compound, after_name, MAX_DEPTH) {
        Ok((root, _)) => Ok(root),
        Err(e) => Err(e),
    }
}

/// The elements of an array value as they stand on the wire, without the
/// count; empty for every other value.
pub open spec fn elements_image(m: ValueModel) -> Seq<u8> {
    match m {
        ValueModel::ByteArray(a) => bytes_image(a),
        ValueModel::IntArray(a) => ints_image(a),
        ValueModel::LongArray(a) => longs_image(a),
        _ => Seq::empty(),
    }
}

/// Hands a decoded array to a consumer. An array is exposed as one byte
/// buffer, its elements big-endian; a consumer that asks for a sequence or a
/// tuple, or for any other shape, is answered with the rejection of that
/// mistake. A value that is no array has no elements, and its buffer is
/// empty.
pub fn array_buffer(v: &Value, request: CallKind) -> (r: Result<Vec<u8>, Error>)
    ensures
        match rejection(request) {
            Some(e) => r is Err && r->Err_0@ == e,
            None => r is Ok && r->Ok_0@ == elements_image(v@),
        },
{
    match expect_bytes(request) {
        Err(e) => {
            return Err(e);
        },
        Ok(()) => {},
    }
    match v {
        Value::ByteArray(a) => Ok(bytes_to_buffer(a.as_slice())),
        Value::IntArray(a) => Ok(ints_to_buffer(a.as_slice())),
        Value::LongArray(a) => Ok(longs_to_buffer(a.as_slice())),
        _ => Ok(Vec::new()),
    }
}

} // verus!
