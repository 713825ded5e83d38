//! What holds of the wire format as a whole: decoding undoes encoding, a
//! truncated stream is never taken for a whole one, and an array's payload
//! has the length that its count announces.

use crate::endian::{
    be16, be16_at, be32, be32_at, be64, be64_at, lemma_be16_at, lemma_be32_at, lemma_be64_at,
    lemma_same_bits,
};
use crate::error::ErrorModel;
use crate::mutf8::{lemma_mutf8_roundtrip, mutf8};
use crate::tag::{decode_tag, Tag, TAG_COUNT};
use crate::value::{element_tag, tag_of, ValueModel};
use crate::wire::{
    bytes_at, bytes_image, check, check_fields, check_items, decode, encode, fields_payload,
    ints_at, ints_image, items_payload, left, longs_at, longs_image, parse_count, parse_fields,
    parse_items, parse_payload, parse_root, parse_text, payload, root_image, MAX_DEPTH,
};
use crate::writer::{check_text, count_image, text_image, MAX_COUNT};
use vstd::prelude::*;

verus! {

/// True where the bytes `x` stand in `b` from `pos` on.
pub open spec fn holds_at(b: Seq<u8>, pos: int, x: Seq<u8>) -> bool {
    &&& 0 <= pos
    &&& pos + x.len() <= b.len()
    &&& b.subrange(pos, pos + x.len()) == x
}

/// Where a concatenation stands, its two parts stand one after the other.
pub proof fn lemma_holds_at_split(b: Seq<u8>, pos: int, x: Seq<u8>, y: Seq<u8>)
    requires
        holds_at(b, pos, x + y),
    ensures
        holds_at(b, pos, x),
        holds_at(b, pos + x.len(), y),
{
    let whole = b.subrange(pos, pos + (x + y).len());
    assert(b.subrange(pos, pos + x.len()) =~= whole.subrange(0, x.len() as int));
    assert(whole.subrange(0, x.len() as int) =~= x);
    assert(b.subrange(pos + x.len(), pos + x.len() + y.len()) =~= whole.subrange(
        x.len() as int,
        (x + y).len() as int,
    ));
    assert(whole.subrange(x.len() as int, (x + y).len() as int) =~= y);
}

/// The bytes of `n` 32-bit integers are `4 * n` long, and those of `n` 64-bit
/// integers `8 * n`.
pub proof fn lemma_run_lengths(a: Seq<i32>, c: Seq<i64>)
    ensures
        ints_image(a).len() == 4 * a.len(),
        longs_image(c).len() == 8 * c.len(),
    decreases a.len() + c.len(),
{
    if a.len() > 0 {
        lemma_run_lengths(a.skip(1), Seq::empty());
    }
    if c.len() > 0 {
        lemma_run_lengths(Seq::empty(), c.skip(1));
    }
}

/// Width law: after its 4-byte count, the payload of a byte array of `n`
/// elements is `n` bytes long, that of an int array `4 * n`, that of a long
/// array `8 * n`.
pub proof fn lemma_array_payload_length(m: ValueModel)
    ensures
        m matches ValueModel::ByteArray(a) ==> payload(m).len() == 4 + a.len(),
        m matches ValueModel::IntArray(a) ==> payload(m).len() == 4 + 4 * a.len(),
        m matches ValueModel::LongArray(a) ==> payload(m).len() == 4 + 8 * a.len(),
        tag_of(m).is_array_kind() ==> payload(m).subrange(0, 4) == count_image(
            match m {
                ValueModel::ByteArray(a) => a.len(),
                ValueModel::IntArray(a) => a.len(),
                ValueModel::LongArray(a) => a.len(),
                _ => 0,
            },
        ),
{
    match m {
        ValueModel::ByteArray(a) => {
            assert(payload(m).subrange(0, 4) =~= count_image(a.len()));
        },
        ValueModel::IntArray(a) => {
            lemma_run_lengths(a, Seq::empty());
            assert(payload(m).subrange(0, 4) =~= count_image(a.len()));
        },
        ValueModel::LongArray(a) => {
            lemma_run_lengths(Seq::empty(), a);
            assert(payload(m).subrange(0, 4) =~= count_image(a.len()));
        },
        _ => {},
    }
}

/// A count that was written reads back.
pub proof fn lemma_count_reads_back(n: nat, b: Seq<u8>, pos: int)
    requires
        n <= MAX_COUNT,
        holds_at(b, pos, count_image(n)),
    ensures
        parse_count(b, pos) == Ok::<nat, ErrorModel>(n),
{
    lemma_be32_at(b, pos, n as u32);
}

/// A text that was written reads back.
pub proof fn lemma_text_reads_back(s: Seq<char>, b: Seq<u8>, pos: int)
    requires
        check_text(s) is None,
        holds_at(b, pos, text_image(s)),
    ensures
        parse_text(b, pos) == Ok::<(Seq<char>, nat), ErrorModel>((s, text_image(s).len())),
{
    let n = mutf8(s).len();
    lemma_holds_at_split(b, pos, be16(n as u16), mutf8(s));
    lemma_be16_at(b, pos, n as u16);
    lemma_mutf8_roundtrip(s);
}

/// Signed bytes that were written read back.
pub proof fn lemma_bytes_read_back(a: Seq<i8>, b: Seq<u8>, pos: int)
    requires
        holds_at(b, pos, bytes_image(a)),
    ensures
        bytes_at(b, pos, a.len()) == a,
{
    let x = b.subrange(pos, pos + a.len());
    assert forall|i: int| 0 <= i < a.len() implies (b[pos + i] as i8) == a[i] by {
        assert(x[i] == b[pos + i]);
        assert(x[i] == a[i] as u8);
        lemma_same_bits(a[i], 0, 0, 0, 0, 0, 0, 0);
    }
    assert(bytes_at(b, pos, a.len()) =~= a);
}

/// 32-bit integers that were written read back.
pub proof fn lemma_ints_read_back(a: Seq<i32>, b: Seq<u8>, pos: int)
    requires
        holds_at(b, pos, ints_image(a)),
    ensures
        ints_at(b, pos, a.len()) == a,
    decreases a.len(),
{
    lemma_run_lengths(a, Seq::empty());
    if a.len() == 0 {
        assert(ints_at(b, pos, a.len()) =~= a);
    } else {
        let rest = a.skip(1);
        lemma_run_lengths(rest, Seq::empty());
        lemma_holds_at_split(b, pos, be32(a[0] as u32), ints_image(rest));
        lemma_be32_at(b, pos, a[0] as u32);
        lemma_same_bits(0, 0, a[0], 0, 0, 0, 0, 0);
        lemma_ints_read_back(rest, b, pos + 4);
        assert forall|i: int| 0 <= i < a.len() implies ints_at(b, pos, a.len())[i] == a[i] by {
            if i > 0 {
                assert(ints_at(b, pos + 4, rest.len())[i - 1] == rest[i - 1]);
                assert(pos + 4 + 4 * (i - 1) == pos + 4 * i);
            }
        }
        assert(ints_at(b, pos, a.len()) =~= a);
    }
}

/// 64-bit integers that were written read back.
pub proof fn lemma_longs_read_back(a: Seq<i64>, b: Seq<u8>, pos: int)
    requires
        holds_at(b, pos, longs_image(a)),
    ensures
        longs_at(b, pos, a.len()) == a,
    decreases a.len(),
{
    lemma_run_lengths(Seq::empty(), a);
    if a.len() == 0 {
        assert(longs_at(b, pos, a.len()) =~= a);
    } else {
        let rest = a.skip(1);
        lemma_run_lengths(Seq::empty(), rest);
        lemma_holds_at_split(b, pos, be64(a[0] as u64), longs_image(rest));
        lemma_be64_at(b, pos, a[0] as u64);
        lemma_same_bits(0, 0, 0, a[0], 0, 0, 0, 0);
        lemma_longs_read_back(rest, b, pos + 8);
        assert forall|i: int| 0 <= i < a.len() implies longs_at(b, pos, a.len())[i] == a[i] by {
            if i > 0 {
                assert(longs_at(b, pos + 8, rest.len())[i - 1] == rest[i - 1]);
                assert(pos + 8 + 8 * (i - 1) == pos + 8 * i);
            }
        }
        assert(longs_at(b, pos, a.len()) =~= a);
    }
}

/// A payload that was written reads back as the value it was written from,
/// and reading takes exactly the payload's bytes.
pub proof fn lemma_payload_reads_back(m: ValueModel, b: Seq<u8>, pos: int, depth: nat)
    requires
        check(m, depth) is None,
        holds_at(b, pos, payload(m)),
    ensures
        parse_payload(tag_of(m), b, pos, depth) == Ok::<(ValueModel, nat), ErrorModel>(
            (m, payload(m).len()),
        ),
    decreases m, 0nat,
{
    match m {
        ValueModel::Byte(x) => {
            assert(b.subrange(pos, pos + 1)[0] == b[pos]);
            lemma_same_bits(x, 0, 0, 0, 0, 0, 0, 0);
        },
        ValueModel::Short(x) => {
            lemma_be16_at(b, pos, x as u16);
            lemma_same_bits(0, x, 0, 0, 0, 0, 0, 0);
        },
        ValueModel::Int(x) => {
            lemma_be32_at(b, pos, x as u32);
            lemma_same_bits(0, 0, x, 0, 0, 0, 0, 0);
        },
        ValueModel::Long(x) => {
            lemma_be64_at(b, pos, x as u64);
            lemma_same_bits(0, 0, 0, x, 0, 0, 0, 0);
        },
        ValueModel::Float(x) => {
            lemma_be32_at(b, pos, x);
        },
        ValueModel::Double(x) => {
            lemma_be64_at(b, pos, x);
        },
        ValueModel::ByteArray(a) => {
            lemma_holds_at_split(b, pos, count_image(a.len()), bytes_image(a));
            lemma_count_reads_back(a.len(), b, pos);
            lemma_bytes_read_back(a, b, pos + 4);
        },
        ValueModel::String(s) => {
            lemma_text_reads_back(s, b, pos);
        },
        ValueModel::List(items) => {
            let tag = element_tag(items);
            let head = seq![tag.wire()] + count_image(items.len());
            lemma_holds_at_split(b, pos, head, items_payload(items));
            lemma_holds_at_split(b, pos, seq![tag.wire()], count_image(items.len()));
            assert(b.subrange(pos, pos + 1)[0] == b[pos]);
            assert(decode_tag(b[pos]) == Ok::<Tag, ErrorModel>(tag));
            lemma_count_reads_back(items.len(), b, pos + 1);
            lemma_items_read_back(items, tag, b, pos + 5, (depth - 1) as nat);
        },
        ValueModel::Compound(fields) => {
            lemma_fields_read_back(fields, b, pos, (depth - 1) as nat);
        },
        ValueModel::IntArray(a) => {
            lemma_run_lengths(a, Seq::empty());
            lemma_holds_at_split(b, pos, count_image(a.len()), ints_image(a));
            lemma_count_reads_back(a.len(), b, pos);
            lemma_ints_read_back(a, b, pos + 4);
        },
        ValueModel::LongArray(a) => {
            lemma_run_lengths(Seq::empty(), a);
            lemma_holds_at_split(b, pos, count_image(a.len()), longs_image(a));
            lemma_count_reads_back(a.len(), b, pos);
            lemma_longs_read_back(a, b, pos + 4);
        },
    }
}

/// The items of a list that were written read back, in order.
pub proof fn lemma_items_read_back(
    items: Seq<ValueModel>,
    tag: Tag,
    b: Seq<u8>,
    pos: int,
    depth: nat,
)
    requires
        check_items(items, tag, depth) is None,
        holds_at(b, pos, items_payload(items)),
    ensures
        parse_items(tag, b, pos, items.len(), depth) == Ok::<(Seq<ValueModel>, nat), ErrorModel>(
            (items, items_payload(items).len()),
        ),
    decreases items, 1nat,
{
    if items.len() == 0 {
        assert(items =~= Seq::<ValueModel>::empty());
    } else {
        let rest = items.skip(1);
        lemma_holds_at_split(b, pos, payload(items[0]), items_payload(rest));
        lemma_payload_reads_back(items[0], b, pos, depth);
        lemma_items_read_back(rest, tag, b, pos + payload(items[0]).len(), depth);
        assert(seq![items[0]] + rest =~= items);
        assert(rest.len() == (items.len() - 1) as nat);
    }
}

/// The fields of a compound that were written, with the `End` byte after
/// them, read back, in order.
pub proof fn lemma_fields_read_back(
    fields: Seq<(Seq<char>, ValueModel)>,
    b: Seq<u8>,
    pos: int,
    depth: nat,
)
    requires
        check_fields(fields, depth) is None,
        holds_at(b, pos, fields_payload(fields) + seq![Tag::End.wire()]),
    ensures
        parse_fields(b, pos, depth) == Ok::<(Seq<(Seq<char>, ValueModel)>, nat), ErrorModel>(
            (fields, fields_payload(fields).len() + 1),
        ),
    decreases fields, 1nat,
{
    let end = seq![Tag::End.wire()];
    if fields.len() == 0 {
        assert(fields =~= Seq::<(Seq<char>, ValueModel)>::empty());
        assert(fields_payload(fields) + end =~= end);
        assert(b.subrange(pos, pos + 1)[0] == b[pos]);
    } else {
        let (name, value) = fields[0];
        let rest = fields.skip(1);
        let tag = seq![tag_of(value).wire()];
        let head = tag + text_image(name) + payload(value);
        assert(fields_payload(fields) + end =~= head + (fields_payload(rest) + end));
        lemma_holds_at_split(b, pos, head, fields_payload(rest) + end);
        lemma_holds_at_split(b, pos, tag + text_image(name), payload(value));
        lemma_holds_at_split(b, pos, tag, text_image(name));
        assert(b.subrange(pos, pos + 1)[0] == b[pos]);
        assert(decode_tag(b[pos]) == Ok::<Tag, ErrorModel>(tag_of(value)));
        lemma_text_reads_back(name, b, pos + 1);
        lemma_payload_reads_back(value, b, pos + 1 + text_image(name).len(), depth);
        lemma_fields_read_back(rest, b, pos + head.len(), depth);
        assert(seq![(name, value)] + rest =~= fields);
    }
}

/// Round trip: whatever encodes, decodes to itself, and decoding does not
/// look beyond the stream. This holds of every value that has a stream,
/// among them the empty compound, the empty list and arrays of no elements.
pub proof fn lemma_roundtrip(m: ValueModel, after: Seq<u8>)
    requires
        encode(m) is Ok,
    ensures
        decode(encode(m)->Ok_0 + after) == Ok::<ValueModel, ErrorModel>(m),
        parse_root(encode(m)->Ok_0 + after) == Ok::<(ValueModel, nat), ErrorModel>(
            (m, encode(m)->Ok_0.len()),
        ),
{
    let stream = root_image(m);
    let b = stream + after;
    let head = seq![Tag::Compound.wire()] + text_image(Seq::empty());
    assert(b.subrange(0, stream.len() as int) =~= stream);
    lemma_holds_at_split(b, 0, head, payload(m));
    lemma_holds_at_split(b, 0, seq![Tag::Compound.wire()], text_image(Seq::empty()));
    assert(b[0] == Tag::Compound.wire());
    assert(mutf8(Seq::<char>::empty()) =~= Seq::<u8>::empty());
    lemma_text_reads_back(Seq::empty(), b, 1);
    lemma_payload_reads_back(m, b, 3, MAX_DEPTH as nat);
}

/// What reading gives once the input is cut to `k` bytes, where reading the
/// whole input at `pos` gave `full`: the same where what was read ends
/// within the first `k` bytes, and otherwise the end of the input.
pub open spec fn cut_off<T>(full: (T, nat), pos: int, k: int) -> Result<(T, nat), ErrorModel> {
    if pos + full.1 <= k {
        Ok(full)
    } else {
        Err(ErrorModel::UnexpectedEof)
    }
}

/// A count read from a cut input is the count, or the end of the input.
pub proof fn lemma_cut_count(b: Seq<u8>, pos: int, k: int)
    requires
        0 <= pos,
        0 <= k <= b.len(),
        parse_count(b, pos) is Ok,
    ensures
        parse_count(b.subrange(0, k), pos) == if pos + 4 <= k {
            parse_count(b, pos)
        } else {
            Err(ErrorModel::UnexpectedEof)
        },
{
}

/// A text read from a cut input is the text, or the end of the input.
pub proof fn lemma_cut_text(b: Seq<u8>, pos: int, k: int)
    requires
        0 <= pos,
        0 <= k <= b.len(),
        parse_text(b, pos) is Ok,
    ensures
        parse_text(b.subrange(0, k), pos) == cut_off(parse_text(b, pos)->Ok_0, pos, k),
{
    let c = b.subrange(0, k);
    if pos + 2 <= k {
        let n = be16_at(b, pos) as nat;
        assert(be16_at(c, pos) == be16_at(b, pos));
        if pos + 2 + n <= k {
            assert(c.subrange(pos + 2, pos + 2 + n) =~= b.subrange(pos + 2, pos + 2 + n));
        }
    }
}

/// A payload read from a cut input is the payload, or the end of the input:
/// no cut makes a value read as another value or as any other error.
pub proof fn lemma_cut_payload(tag: Tag, b: Seq<u8>, pos: int, depth: nat, k: int)
    requires
        0 <= pos,
        0 <= k <= b.len(),
        parse_payload(tag, b, pos, depth) is Ok,
    ensures
        parse_payload(tag, b.subrange(0, k), pos, depth) == cut_off(
            parse_payload(tag, b, pos, depth)->Ok_0,
            pos,
            k,
        ),
    decreases depth, 0nat, 0nat,
{
    let c = b.subrange(0, k);
    match tag {
        Tag::End => {},
        Tag::Byte => {},
        Tag::Short => {
            if pos + 2 <= k {
                assert(be16_at(c, pos) == be16_at(b, pos));
            }
        },
        Tag::Int | Tag::Float => {
            if pos + 4 <= k {
                assert(be32_at(c, pos) == be32_at(b, pos));
            }
        },
        Tag::Long | Tag::Double => {
            if pos + 8 <= k {
                assert(be64_at(c, pos) == be64_at(b, pos));
            }
        },
        Tag::ByteArray => {
            lemma_cut_count(b, pos, k);
            let n = parse_count(b, pos)->Ok_0;
            if pos + 4 + n <= k {
                assert(bytes_at(c, pos + 4, n) =~= bytes_at(b, pos + 4, n));
            }
        },
        Tag::String => {
            lemma_cut_text(b, pos, k);
        },
        Tag::List => {
            if pos + 1 <= k {
                lemma_cut_count(b, pos + 1, k);
                if pos + 5 <= k {
                    let element = decode_tag(b[pos])->Ok_0;
                    let n = parse_count(b, pos + 1)->Ok_0;
                    lemma_cut_items(element, b, pos + 5, n, (depth - 1) as nat, k);
                }
            }
        },
        Tag::Compound => {
            lemma_cut_fields(b, pos, (depth - 1) as nat, k);
        },
        Tag::IntArray => {
            lemma_cut_count(b, pos, k);
            let n = parse_count(b, pos)->Ok_0;
            if pos + 4 + 4 * n <= k {
                assert forall|i: int| 0 <= i < n implies #[trigger] ints_at(c, pos + 4, n)[i]
                    == ints_at(b, pos + 4, n)[i] by {
                    assert(be32_at(c, pos + 4 + 4 * i) == be32_at(b, pos + 4 + 4 * i));
                }
                assert(ints_at(c, pos + 4, n) =~= ints_at(b, pos + 4, n));
            }
        },
        Tag::LongArray => {
            lemma_cut_count(b, pos, k);
            let n = parse_count(b, pos)->Ok_0;
            if pos + 4 + 8 * n <= k {
                assert forall|i: int| 0 <= i < n implies #[trigger] longs_at(c, pos + 4, n)[i]
                    == longs_at(b, pos + 4, n)[i] by {
                    assert(be64_at(c, pos + 4 + 8 * i) == be64_at(b, pos + 4 + 8 * i));
                }
                assert(longs_at(c, pos + 4, n) =~= longs_at(b, pos + 4, n));
            }
        },
    }
}

/// The items of a list read from a cut input are the items, or the end of
/// the input.
pub proof fn lemma_cut_items(tag: Tag, b: Seq<u8>, pos: int, n: nat, depth: nat, k: int)
    requires
        0 <= pos <= k,
        k <= b.len(),
        parse_items(tag, b, pos, n, depth) is Ok,
    ensures
        parse_items(tag, b.subrange(0, k), pos, n, depth) == cut_off(
            parse_items(tag, b, pos, n, depth)->Ok_0,
            pos,
            k,
        ),
    decreases depth, 1nat, n,
{
    if n > 0 {
        lemma_cut_payload(tag, b, pos, depth, k);
        let (first, used) = parse_payload(tag, b, pos, depth)->Ok_0;
        if pos + used <= k {
            lemma_cut_items(tag, b, pos + used, (n - 1) as nat, depth, k);
        }
    }
}

/// The fields of a compound read from a cut input are the fields, or the
/// end of the input.
pub proof fn lemma_cut_fields(b: Seq<u8>, pos: int, depth: nat, k: int)
    requires
        0 <= pos,
        0 <= k <= b.len(),
        parse_fields(b, pos, depth) is Ok,
    ensures
        parse_fields(b.subrange(0, k), pos, depth) == cut_off(
            parse_fields(b, pos, depth)->Ok_0,
            pos,
            k,
        ),
    decreases depth, 1nat, left(b, pos),
{
    let c = b.subrange(0, k);
    if pos + 1 <= k && b[pos] != Tag::End.wire() {
        assert(c[pos] == b[pos]);
        let tag = decode_tag(b[pos])->Ok_0;
        lemma_cut_text(b, pos + 1, k);
        let (name, used) = parse_text(b, pos + 1)->Ok_0;
        if pos + 1 + used <= k {
            lemma_cut_payload(tag, b, pos + 1 + used, depth, k);
            let (value, more) = parse_payload(tag, b, pos + 1 + used, depth)->Ok_0;
            if pos + 1 + used + more <= k {
                lemma_cut_fields(b, pos + 1 + used + more, depth, k);
            }
        }
    }
}

/// Truncation: a stream that decodes, cut anywhere before the end of its
/// root, fails to decode with `UnexpectedEof`; cut at or after that end, it
/// decodes to the same root.
pub proof fn lemma_truncation(b: Seq<u8>, k: int)
    requires
        0 <= k <= b.len(),
        parse_root(b) is Ok,
    ensures
        k < (parse_root(b)->Ok_0).1 ==> decode(b.subrange(0, k)) == Err::<ValueModel, ErrorModel>(
            ErrorModel::UnexpectedEof,
        ),
        k >= (parse_root(b)->Ok_0).1 ==> decode(b.subrange(0, k)) == decode(b),
        (parse_root(b)->Ok_0).1 <= b.len(),
{
    let c = b.subrange(0, k);
    if 1 <= k {
        assert(c[0] == b[0]);
        lemma_cut_text(b, 1, k);
        let (name, used) = parse_text(b, 1)->Ok_0;
        lemma_cut_payload(Tag::Compound, b, 1 + used as int, MAX_DEPTH as nat, k);
    }
    let whole = b.len() as int;
    let start = 1 + (parse_text(b, 1)->Ok_0).1 as int;
    lemma_cut_payload(Tag::Compound, b, start, MAX_DEPTH as nat, whole);
    assert(b.subrange(0, whole) =~= b);
}

/// Truncation of what was written: every proper prefix of the stream of a
/// value fails to decode with `UnexpectedEof`.
pub proof fn lemma_truncated_stream(m: ValueModel, k: int)
    requires
        encode(m) is Ok,
        0 <= k < encode(m)->Ok_0.len(),
    ensures
        decode(encode(m)->Ok_0.subrange(0, k)) == Err::<ValueModel, ErrorModel>(
            ErrorModel::UnexpectedEof,
        ),
{
    let stream = encode(m)->Ok_0;
    lemma_roundtrip(m, Seq::empty());
    assert(stream + Seq::<u8>::empty() =~= stream);
    lemma_truncation(stream, k);
}

/// Tag validity: where a field is expected, a byte of 13 or more is rejected
/// with `InvalidTag` carrying that byte; so is such a byte as the element
/// tag of a list, and as the tag of the root.
pub proof fn lemma_invalid_tag_rejected(b: Seq<u8>, pos: int, depth: nat)
    requires
        0 <= pos < b.len(),
        b[pos] >= TAG_COUNT,
    ensures
        parse_fields(b, pos, depth) == Err::<(Seq<(Seq<char>, ValueModel)>, nat), ErrorModel>(
            ErrorModel::InvalidTag(b[pos]),
        ),
        depth > 0 ==> parse_payload(Tag::List, b, pos, depth) == Err::<
            (ValueModel, nat),
            ErrorModel,
        >(ErrorModel::InvalidTag(b[pos])),
        pos == 0 ==> decode(b) == Err::<ValueModel, ErrorModel>(ErrorModel::InvalidTag(b[pos])),
{
}

/// Root invariant: a value that is no compound has no stream, and a stream
/// whose first byte is a tag other than `Compound` has no value; both fail
/// with `NoRootCompound`.
pub proof fn lemma_root_must_be_compound(m: ValueModel, b: Seq<u8>)
    ensures
        !(m is Compound) ==> encode(m) == Err::<Seq<u8>, ErrorModel>(ErrorModel::NoRootCompound),
        b.len() > 0 && b[0] < TAG_COUNT && b[0] != Tag::Compound.wire() ==> decode(b) == Err::<
            ValueModel,
            ErrorModel,
        >(ErrorModel::NoRootCompound),
{
}

} // verus!
