//! The streaming serializer: one pass over a value, straight onto a byte
//! sink.

use crate::array::{array_image, element_count, ArraySerializer};
use crate::endian::{be16, be32, be64, push_be32, push_be64};
use crate::error::{Error, ErrorModel};
use crate::mutf8::mutf8;
use crate::tag::Tag;
use crate::value::{
    element_tag, fields_model, items_model, lemma_fields_model, lemma_items_model, tag_of, Value,
    ValueModel,
};
use crate::wire::{
    bytes_image, check, check_fields, check_items, encode, fields_payload, ints_image,
    items_payload, longs_image, payload, root_image, MAX_DEPTH,
};
use crate::writer::{
    check_count, count_image, extends, lemma_extends_append, lemma_extends_twice, text_image,
    Writer,
};
use vstd::prelude::*;

verus! {

/// The bytes with the same bits as the given signed bytes.
pub fn bytes_to_buffer(a: &[i8]) -> (buf: Vec<u8>)
    ensures
        buf@ == bytes_image(a@),
{
    let mut buf: Vec<u8> = Vec::new();
    let mut i: usize = 0;
    while i < a.len()
        invariant
            i <= a@.len(),
            buf@ == bytes_image(a@.subrange(0, i as int)),
        decreases a@.len() - i,
    {
        buf.push(#[verifier::truncate] (a[i] as u8));
        i += 1;
        assert(buf@ =~= bytes_image(a@.subrange(0, i as int)));
    }
    assert(a@.subrange(0, i as int) =~= a@);
    buf
}

/// The big-endian bytes of the given 32-bit integers, four for each.
pub fn ints_to_buffer(a: &[i32]) -> (buf: Vec<u8>)
    ensures
        buf@ == ints_image(a@),
        buf@.len() == 4 * a@.len(),
{
    let mut buf: Vec<u8> = Vec::new();
    let mut i: usize = 0;
    proof {
        assert(a@.skip(0) =~= a@);
        assert(buf@ + ints_image(a@) =~= ints_image(a@));
    }
    while i < a.len()
        invariant
            i <= a@.len(),
            buf@.len() == 4 * i,
            buf@ + ints_image(a@.skip(i as int)) == ints_image(a@),
        decreases a@.len() - i,
    {
        proof {
            let tail = a@.skip(i as int);
            assert(tail[0] == a@[i as int]);
            assert(tail.skip(1) =~= a@.skip(i + 1));
            assert(buf@ + (be32(a@[i as int] as u32) + ints_image(tail.skip(1)))
                =~= (buf@ + be32(a@[i as int] as u32)) + ints_image(tail.skip(1)));
        }
        push_be32(&mut buf, #[verifier::truncate] (a[i] as u32));
        i += 1;
    }
    proof {
        assert(a@.skip(i as int) =~= Seq::<i32>::empty());
        assert(buf@ + Seq::<u8>::empty() =~= buf@);
    }
    buf
}

/// The big-endian bytes of the given 64-bit integers, eight for each.
pub fn longs_to_buffer(a: &[i64]) -> (buf: Vec<u8>)
    ensures
        buf@ == longs_image(a@),
        buf@.len() == 8 * a@.len(),
{
    let mut buf: Vec<u8> = Vec::new();
    let mut i: usize = 0;
    proof {
        assert(a@.skip(0) =~= a@);
        assert(buf@ + longs_image(a@) =~= longs_image(a@));
    }
    while i < a.len()
        invariant
            i <= a@.len(),
            buf@.len() == 8 * i,
            buf@ + longs_image(a@.skip(i as int)) == longs_image(a@),
        decreases a@.len() - i,
    {
        proof {
            let tail = a@.skip(i as int);
            assert(tail[0] == a@[i as int]);
            assert(tail.skip(1) =~= a@.skip(i + 1));
            assert(buf@ + (be64(a@[i as int] as u64) + longs_image(tail.skip(1)))
                =~= (buf@ + be64(a@[i as int] as u64)) + longs_image(tail.skip(1)));
        }
        push_be64(&mut buf, #[verifier::truncate] (a[i] as u64));
        i += 1;
    }
    proof {
        assert(a@.skip(i as int) =~= Seq::<i64>::empty());
        assert(buf@ + Seq::<u8>::empty() =~= buf@);
    }
    buf
}

/// Writes the elements of an array value through the array adapter of its
/// tag: the count, then the elements.
fn write_array(writer: &mut Writer, tag: Tag, buf: &[u8]) -> (r: Result<(), Error>)
    requires
        tag.is_array_kind(),
    ensures
        match check_count(element_count(tag, buf@.len())) {
            None => r is Ok && final(writer)@ == old(writer)@ + array_image(tag, buf@),
            Some(e) => r is Err && r->Err_0@ == e && final(writer)@ == old(writer)@,
        },
{
    match ArraySerializer::new(tag) {
        Some(adapter) => adapter.write_bytes(writer, buf),
        None => Err(Error::array_as_other()),
    }
}

/// Writes the payload of a value, with `depth` levels of nesting left. On
/// success the sink has grown by exactly the payload. Otherwise the first
/// error met is returned; the sink then holds what it held before, followed
/// by what was written up to the error.
pub fn write_payload(writer: &mut Writer, v: &Value, depth: usize) -> (r: Result<(), Error>)
    ensures
        match check(v@, depth as nat) {
            None => r is Ok && final(writer)@ == old(writer)@ + payload(v@),
            Some(e) => r is Err && r->Err_0@ == e,
        },
        extends(final(writer)@, old(writer)@),
    decreases depth,
{
    proof {
        lemma_extends_append(writer@, payload(v@));
    }
    match v {
        Value::Byte(x) => {
            writer.write_i8(*x);
            Ok(())
        },
        Value::Short(x) => {
            writer.write_i16(*x);
            Ok(())
        },
        Value::Int(x) => {
            writer.write_i32(*x);
            Ok(())
        },
        Value::Long(x) => {
            writer.write_i64(*x);
            Ok(())
        },
        Value::Float(x) => {
            writer.write_float_bits(*x);
            Ok(())
        },
        Value::Double(x) => {
            writer.write_double_bits(*x);
            Ok(())
        },
        Value::ByteArray(a) => {
            let buf = bytes_to_buffer(a.as_slice());
            assert(buf@.subrange(0, buf@.len() as int) =~= buf@);
            write_array(writer, Tag::ByteArray, buf.as_slice())
        },
        Value::String(s) => writer.write_str(s.as_str()),
        Value::List(items) => write_list(writer, items, depth),
        Value::Compound(fields) => write_compound(writer, fields, depth),
        Value::IntArray(a) => {
            let buf = ints_to_buffer(a.as_slice());
            assert(buf@.subrange(0, buf@.len() as int) =~= buf@);
            write_array(writer, Tag::IntArray, buf.as_slice())
        },
        Value::LongArray(a) => {
            let buf = longs_to_buffer(a.as_slice());
            assert(buf@.subrange(0, buf@.len() as int) =~= buf@);
            write_array(writer, Tag::LongArray, buf.as_slice())
        },
    }
}

/// Writes the payload of a list: the element tag, the count, and the
/// payloads of the items, which must all be of the element tag.
fn write_list(writer: &mut Writer, items: &Vec<Value>, depth: usize) -> (r: Result<(), Error>)
    ensures
        match check(ValueModel::List(items_model(items@)), depth as nat) {
            None => r is Ok && final(writer)@ == old(writer)@ + payload(
                ValueModel::List(items_model(items@)),
            ),
            Some(e) => r is Err && r->Err_0@ == e,
        },
        extends(final(writer)@, old(writer)@),
    decreases depth, 1nat,
{
    let ghost model = items_model(items@);
    let ghost origin = writer@;
    proof {
        lemma_items_model(items@);
        lemma_extends_append(origin, seq![element_tag(model).wire()]);
    }
    if depth == 0 {
        return Err(Error::depth_limit());
    }
    let n = items.len();
    let element = if n == 0 {
        Tag::End
    } else {
        items[0].tag()
    };
    assert(element == element_tag(model));
    writer.write_tag(element);
    let ghost tagged = writer@;
    match writer.write_len(n) {
        Err(e) => {
            return Err(e);
        },
        Ok(()) => {},
    }
    let ghost start = writer@;
    let mut i: usize = 0;
    proof {
        assert(model.skip(0) =~= model);
        lemma_extends_append(tagged, count_image(n as nat));
        lemma_extends_twice(origin, tagged, start);
    }
    while i < n
        invariant
            i <= n,
            n == items@.len(),
            depth > 0,
            model == items_model(items@),
            model.len() == n,
            element == element_tag(model),
            check_count(n as nat) is None,
            forall|j: int| 0 <= j < n ==> #[trigger] model[j] == items@[j]@,
            check_items(model.skip(i as int), element, (depth - 1) as nat) == check_items(
                model,
                element,
                (depth - 1) as nat,
            ),
            writer@ + items_payload(model.skip(i as int)) == start + items_payload(model),
            origin == old(writer)@,
            extends(writer@, origin),
        decreases n - i,
    {
        let item = &items[i];
        let ghost before = writer@;
        proof {
            let tail = model.skip(i as int);
            assert(tail[0] == model[i as int]);
            assert(tail.skip(1) =~= model.skip(i + 1));
            assert(writer@ + (payload(tail[0]) + items_payload(tail.skip(1))) =~= (writer@
                + payload(tail[0])) + items_payload(tail.skip(1)));
        }
        if item.tag() != element {
            return Err(Error::bespoke("list elements differ in type".to_owned()));
        }
        let written = write_payload(writer, item, depth - 1);
        proof {
            lemma_extends_twice(origin, before, writer@);
        }
        match written {
            Err(e) => {
                return Err(e);
            },
            Ok(()) => {},
        }
        i += 1;
    }
    proof {
        assert(model.skip(n as int) =~= Seq::<ValueModel>::empty());
        assert(writer@ + Seq::<u8>::empty() =~= writer@);
        assert(old(writer)@ + seq![element.wire()] + count_image(n as nat) + items_payload(model)
            =~= old(writer)@ + (seq![element.wire()] + count_image(n as nat) + items_payload(
            model,
        )));
    }
    Ok(())
}

/// Writes the payload of a compound: for each field its tag byte, its name
/// and its payload, then the `End` byte.
fn write_compound(writer: &mut Writer, fields: &Vec<(String, Value)>, depth: usize) -> (r: Result<
    (),
    Error,
>)
    ensures
        match check(ValueModel::Compound(fields_model(fields@)), depth as nat) {
            None => r is Ok && final(writer)@ == old(writer)@ + payload(
                ValueModel::Compound(fields_model(fields@)),
            ),
            Some(e) => r is Err && r->Err_0@ == e,
        },
        extends(final(writer)@, old(writer)@),
    decreases depth, 1nat,
{
    let ghost model = fields_model(fields@);
    proof {
        lemma_fields_model(fields@);
        lemma_extends_append(writer@, Seq::empty());
    }
    if depth == 0 {
        return Err(Error::depth_limit());
    }
    let n = fields.len();
    let ghost start = writer@;
    let mut i: usize = 0;
    proof {
        assert(model.skip(0) =~= model);
    }
    while i < n
        invariant
            i <= n,
            n == fields@.len(),
            depth > 0,
            model == fields_model(fields@),
            model.len() == n,
            forall|j: int|
                0 <= j < n ==> #[trigger] model[j] == (fields@[j].0@, fields@[j].1@),
            check_fields(model.skip(i as int), (depth - 1) as nat) == check_fields(
                model,
                (depth - 1) as nat,
            ),
            writer@ + fields_payload(model.skip(i as int)) == start + fields_payload(model),
            start == old(writer)@,
            extends(writer@, start),
        decreases n - i,
    {
        let field = &fields[i];
        let ghost before = writer@;
        proof {
            let tail = model.skip(i as int);
            assert(tail[0] == model[i as int]);
            assert(tail.skip(1) =~= model.skip(i + 1));
        }
        writer.write_tag(field.1.tag());
        let ghost tagged = writer@;
        proof {
            lemma_extends_append(before, seq![tag_of(field.1@).wire()]);
            lemma_extends_twice(start, before, tagged);
        }
        match writer.write_str(field.0.as_str()) {
            Err(e) => {
                return Err(e);
            },
            Ok(()) => {},
        }
        let ghost named = writer@;
        proof {
            lemma_extends_append(tagged, text_image(field.0@));
            lemma_extends_twice(start, tagged, named);
        }
        let written = write_payload(writer, &field.1, depth - 1);
        proof {
            lemma_extends_twice(start, named, writer@);
        }
        match written {
            Err(e) => {
                return Err(e);
            },
            Ok(()) => {},
        }
        proof {
            let tail = model.skip(i as int);
            let head = seq![tag_of(tail[0].1).wire()] + text_image(tail[0].0) + payload(tail[0].1);
            assert(writer@ =~= before + head);
            assert(before + (head + fields_payload(tail.skip(1))) =~= (before + head)
                + fields_payload(tail.skip(1)));
        }
        i += 1;
    }
    let ghost filled = writer@;
    writer.write_tag(Tag::End);
    proof {
        lemma_extends_append(filled, seq![Tag::End.wire()]);
        lemma_extends_twice(start, filled, writer@);
        assert(model.skip(n as int) =~= Seq::<(Seq<char>, ValueModel)>::empty());
        assert(start + fields_payload(model) + seq![Tag::End.wire()] =~= start + (fields_payload(
            model,
        ) + seq![Tag::End.wire()]));
    }
    Ok(())
}

/// Encodes a value as a stream. The root must be a compound; it is written
/// as the tag byte of `Compound`, an empty name, and its payload. Returns
/// the stream, or the first error met: `NoRootCompound` for any other root,
/// `DepthLimit` beyond `MAX_DEPTH` levels of nesting, and a custom error for
/// a list of mixed tags, a text whose encoding exceeds 65535 bytes or a
/// count above `MAX_COUNT`.
pub fn to_bytes(v: &Value) -> (r: Result<Vec<u8>, Error>)
    ensures
        match encode(v@) {
            Ok(stream) => r is Ok && r->Ok_0@ == stream,
            Err(e) => r is Err && r->Err_0@ == e,
        },
        !(v@ is Compound) ==> r is Err && r->Err_0@ == ErrorModel::NoRootCompound,
{
    match v {
        Value::Compound(_) => {},
        _ => {
            return Err(Error::no_root_compound());
        },
    }
    let mut writer = Writer::new();
    writer.write_tag(Tag::Compound);
    writer.write_u16(0);
    match write_payload(&mut writer, v, MAX_DEPTH) {
        Err(e) => {
            return Err(e);
        },
        Ok(()) => {},
    }
    proof {
        assert(mutf8(Seq::<char>::empty()) =~= Seq::<u8>::empty());
        assert(text_image(Seq::<char>::empty()) =~= be16(0));
        assert(writer@ =~= root_image(v@));
    }
    Ok(writer.into_bytes())
}

} // verus!
