//! The array-disambiguation protocol.
//!
//! The generic data model has a call for an opaque byte buffer and none for a
//! native fixed-width array. Where the tag that is declared at the current
//! position is one of the three array kinds, the value arrives as exactly one
//! byte buffer that holds its elements, and any other call is a mistake of
//! the caller. A buffer holds `len / width` elements; bytes at its end that
//! do not fill an element are dropped.

use crate::endian::{be32_at, be64_at, le32_at, le64_at};
use crate::error::{Error, ErrorModel};
use crate::tag::Tag;
use crate::value::{Value, ValueModel};
use crate::writer::{check_count, count_image, Writer};
use byteorder::{NativeEndian, ReadBytesExt};
use vstd::prelude::*;
use vstd::slice::slice_subrange;

verus! {

/// The shapes of call that the generic data model can make.
#[derive(Clone, Copy, Debug, PartialEq, Eq, Hash, Structural)]
pub enum CallKind {
    /// A boolean.
    Bool,
    /// An integer of any width.
    Integer,
    /// A float of any width.
    Float,
    /// A single character.
    Char,
    /// A text.
    Text,
    /// An opaque byte buffer.
    Bytes,
    /// An absent or present optional value.
    Optional,
    /// The unit value.
    Unit,
    /// A sequence of unknown or known length.
    Sequence,
    /// A tuple.
    Tuple,
    /// A map.
    Mapping,
    /// A struct.
    Struct,
    /// A variant of an enum, of any shape.
    EnumVariant,
}

/// How a call is answered where an array is declared: `None` for the one
/// accepted shape, a byte buffer, and otherwise the rejection. A sequence or
/// a tuple has its own rejection; every other shape shares one.
pub open spec fn rejection(kind: CallKind) -> Option<ErrorModel> {
    match kind {
        CallKind::Bytes => None,
        CallKind::Sequence | CallKind::Tuple => Some(ErrorModel::ArrayAsSeq),
        _ => Some(ErrorModel::ArrayAsOther),
    }
}

/// Number of whole elements of the given array kind that `len` bytes hold.
pub open spec fn element_count(tag: Tag, len: nat) -> nat {
    match tag {
        Tag::ByteArray => len,
        Tag::IntArray => len / 4,
        Tag::LongArray => len / 8,
        _ => 0,
    }
}

/// The payload that a buffer is written as: the element count, then the
/// bytes of that many elements as they stand in the buffer.
pub open spec fn array_image(tag: Tag, buf: Seq<u8>) -> Seq<u8> {
    count_image(element_count(tag, buf.len())) + buf.subrange(
        0,
        (element_count(tag, buf.len()) * tag.width()) as int,
    )
}

/// True where `x` is the 32-bit integer that the four bytes at `pos` hold in
/// one of the two byte orders that a machine can have.
pub open spec fn is_native32(buf: Seq<u8>, pos: int, x: i32) -> bool {
    x == be32_at(buf, pos) as i32 || x == le32_at(buf, pos) as i32
}

/// True where `x` is the 64-bit integer that the eight bytes at `pos` hold in
/// one of the two byte orders that a machine can have.
pub open spec fn is_native64(buf: Seq<u8>, pos: int, x: i64) -> bool {
    x == be64_at(buf, pos) as i64 || x == le64_at(buf, pos) as i64
}

/// True where `m` is the array value that a buffer in the machine's own
/// representation stands for: one element for every `width` bytes, each read
/// in the machine's byte order.
pub open spec fn is_native_array(tag: Tag, buf: Seq<u8>, m: ValueModel) -> bool {
    match tag {
        Tag::ByteArray => m == ValueModel::ByteArray(Seq::new(buf.len(), |i: int| buf[i] as i8)),
        Tag::IntArray => {
            &&& m matches ValueModel::IntArray(a)
            &&& a.len() == buf.len() / 4
            &&& forall|i: int| 0 <= i < a.len() ==> is_native32(buf, 4 * i, #[trigger] a[i])
        },
        Tag::LongArray => {
            &&& m matches ValueModel::LongArray(a)
            &&& a.len() == buf.len() / 8
            &&& forall|i: int| 0 <= i < a.len() ==> is_native64(buf, 8 * i, #[trigger] a[i])
        },
        _ => false,
    }
}

/// `std::io::Error` of the standard library: the error of a reader, carried
/// through as it is. Nothing is claimed of what it holds.
#[verifier::external_type_specification]
#[verifier::external_body]
pub struct ExIoError(std::io::Error);

/// `ReadBytesExt::read_i32::<NativeEndian>` of byteorder, on a byte slice as
/// the reader. With four bytes or more to read it succeeds, and the result is
/// the integer that the first four hold in the machine's byte order, which is
/// big-endian or little-endian. With fewer it fails.
#[verifier::external_body]
fn read_native_i32(chunk: &[u8]) -> (r: Result<i32, std::io::Error>)
    ensures
        chunk@.len() >= 4 ==> r is Ok && is_native32(chunk@, 0, r->Ok_0),
        chunk@.len() < 4 ==> r is Err,
{
    let mut reader = chunk;
    reader.read_i32::<NativeEndian>()
}

/// `ReadBytesExt::read_i64::<NativeEndian>` of byteorder, on a byte slice as
/// the reader. With eight bytes or more to read it succeeds, and the result
/// is the integer that the first eight hold in the machine's byte order,
/// which is big-endian or little-endian. With fewer it fails.
#[verifier::external_body]
fn read_native_i64(chunk: &[u8]) -> (r: Result<i64, std::io::Error>)
    ensures
        chunk@.len() >= 8 ==> r is Ok && is_native64(chunk@, 0, r->Ok_0),
        chunk@.len() < 8 ==> r is Err,
{
    let mut reader = chunk;
    reader.read_i64::<NativeEndian>()
}

/// Answers a call made where an array is declared: `Ok` for a byte buffer,
/// and for every other shape the rejection that names the mistake.
pub fn expect_bytes(kind: CallKind) -> (r: Result<(), Error>)
    ensures
        match rejection(kind) {
            None => r is Ok,
            Some(e) => r is Err && r->Err_0@ == e,
        },
        kind == CallKind::Bytes <==> r is Ok,
        kind == CallKind::Sequence || kind == CallKind::Tuple ==> r is Err && r->Err_0@
            == ErrorModel::ArrayAsSeq,
        kind != CallKind::Bytes && kind != CallKind::Sequence && kind != CallKind::Tuple ==> r is Err
            && r->Err_0@ == ErrorModel::ArrayAsOther,
{
    match kind {
        CallKind::Bytes => Ok(()),
        CallKind::Sequence | CallKind::Tuple => Err(Error::array_as_seq()),
        _ => Err(Error::array_as_other()),
    }
}

/// The adapter for a position at which an array is declared.
pub struct ArraySerializer {
    tag: Tag,
}

impl ArraySerializer {
    #[verifier::type_invariant]
    spec fn well_formed(self) -> bool {
        self.tag.is_array_kind()
    }

    /// The array kind that is declared.
    pub closed spec fn kind(self) -> Tag {
        self.tag
    }

    /// The adapter for the given tag, where that is an array kind.
    pub fn new(tag: Tag) -> (r: Option<ArraySerializer>)
        ensures
            tag.is_array_kind() ==> r is Some && r->Some_0.kind() == tag,
            !tag.is_array_kind() ==> r is None,
    {
        if tag.is_array() {
            Some(ArraySerializer { tag })
        } else {
            None
        }
    }

    /// The array kind that is declared.
    pub fn tag(&self) -> (t: Tag)
        ensures
            t == self.kind(),
            t.is_array_kind(),
    {
        proof {
            use_type_invariant(self);
        }
        self.tag
    }

    /// Width in bytes of one element: 1, 4 or 8.
    pub fn stride(&self) -> (w: usize)
        ensures
            w == self.kind().width(),
            w == 1 || w == 4 || w == 8,
    {
        proof {
            use_type_invariant(self);
        }
        match self.tag {
            Tag::ByteArray => 1,
            Tag::IntArray => 4,
            _ => 8,
        }
    }

    /// Writes a buffer as the payload of the declared array: the number of
    /// whole elements as a 4-byte count, then the bytes of those elements as
    /// they stand. The payload after the count is `width * count` bytes long.
    /// A count above `MAX_COUNT` is rejected and nothing is written.
    pub fn write_bytes(&self, writer: &mut Writer, v: &[u8]) -> (r: Result<(), Error>)
        ensures
            match check_count(element_count(self.kind(), v@.len())) {
                None => {
                    &&& r is Ok
                    &&& final(writer)@ == old(writer)@ + array_image(self.kind(), v@)
                    &&& final(writer)@.len() == old(writer)@.len() + 4 + self.kind().width()
                        * element_count(self.kind(), v@.len())
                },
                Some(e) => r is Err && r->Err_0@ == e && final(writer)@ == old(writer)@,
            },
    {
        proof {
            use_type_invariant(self);
        }
        let stride = self.stride();
        let count = v.len() / stride;
        assert(count == element_count(self.kind(), v@.len())) by {
            if stride == 1 {
                assert(v@.len() / 1 == v@.len());
            } else if stride == 4 {
                assert(count == v@.len() / 4);
            } else {
                assert(count == v@.len() / 8);
            }
        }
        match writer.write_len(count) {
            Err(e) => {
                return Err(e);
            },
            Ok(()) => {},
        }
        assert(count * stride <= v@.len()) by (nonlinear_arith)
            requires
                count == v@.len() / (stride as nat),
                stride > 0,
        ;
        writer.write_bytes(slice_subrange(v, 0, count * stride));
        proof {
            let n = element_count(self.kind(), v@.len());
            let w = self.kind().width();
            assert(count * stride == n * w && n * w == w * n) by (nonlinear_arith)
                requires
                    count == n,
                    stride == w,
            ;
            assert(count_image(n).len() == 4);
            assert(writer@ =~= old(writer)@ + array_image(self.kind(), v@));
        }
        Ok(())
    }

    /// Builds the value of the declared array from a buffer in the machine's
    /// own representation: a byte array takes every byte as a signed byte, an
    /// int or long array takes each whole group of 4 or 8 bytes as one
    /// integer in the machine's byte order. Always succeeds.
    pub fn serialize_bytes(&self, v: &[u8]) -> (r: Result<Value, Error>)
        ensures
            r is Ok,
            is_native_array(self.kind(), v@, r->Ok_0@),
    {
        proof {
            use_type_invariant(self);
        }
        match self.tag {
            Tag::ByteArray => {
                let mut out: Vec<i8> = Vec::new();
                let mut i: usize = 0;
                while i < v.len()
                    invariant
                        i <= v@.len(),
                        out@ == Seq::new(i as nat, |j: int| v@[j] as i8),
                    decreases v@.len() - i,
                {
                    out.push(#[verifier::truncate] (v[i] as i8));
                    i += 1;
                    assert(out@ =~= Seq::new(i as nat, |j: int| v@[j] as i8));
                }
                Ok(Value::byte_array(out))
            },
            Tag::IntArray => {
                let count = v.len() / 4;
                let mut out: Vec<i32> = Vec::new();
                let mut i: usize = 0;
                while i < count
                    invariant
                        i <= count,
                        count == v@.len() / 4,
                        v@.len() <= usize::MAX,
                        out@.len() == i,
                        forall|j: int| 0 <= j < i ==> is_native32(v@, 4 * j, #[trigger] out@[j]),
                    decreases count - i,
                {
                    let chunk = slice_subrange(v, 4 * i, 4 * i + 4);
                    assert(be32_at(chunk@, 0) == be32_at(v@, 4 * i) && le32_at(chunk@, 0)
                        == le32_at(v@, 4 * i));
                    match read_native_i32(chunk) {
                        Ok(x) => {
                            out.push(x);
                        },
                        Err(e) => {
                            return Err(Error::io(e.to_string()));
                        },
                    }
                    i += 1;
                }
                Ok(Value::int_array(out))
            },
            _ => {
                let count = v.len() / 8;
                let mut out: Vec<i64> = Vec::new();
                let mut i: usize = 0;
                while i < count
                    invariant
                        i <= count,
                        count == v@.len() / 8,
                        v@.len() <= usize::MAX,
                        out@.len() == i,
                        forall|j: int| 0 <= j < i ==> is_native64(v@, 8 * j, #[trigger] out@[j]),
                    decreases count - i,
                {
                    let chunk = slice_subrange(v, 8 * i, 8 * i + 8);
                    assert(be64_at(chunk@, 0) == be64_at(v@, 8 * i) && le64_at(chunk@, 0)
                        == le64_at(v@, 8 * i));
                    match read_native_i64(chunk) {
                        Ok(x) => {
                            out.push(x);
                        },
                        Err(e) => {
                            return Err(Error::io(e.to_string()));
                        },
                    }
                    i += 1;
                }
                Ok(Value::long_array(out))
            },
        }
    }

    /// Answers one call of the generic data model by writing: a byte buffer
    /// is written as `write_bytes` does, every other shape is rejected and
    /// nothing is written.
    pub fn write(&self, writer: &mut Writer, kind: CallKind, payload: &[u8]) -> (r: Result<
        (),
        Error,
    >)
        ensures
            match rejection(kind) {
                Some(e) => r is Err && r->Err_0@ == e && final(writer)@ == old(writer)@,
                None => match check_count(element_count(self.kind(), payload@.len())) {
                    None => r is Ok && final(writer)@ == old(writer)@ + array_image(
                        self.kind(),
                        payload@,
                    ),
                    Some(e) => r is Err && r->Err_0@ == e && final(writer)@ == old(writer)@,
                },
            },
    {
        match expect_bytes(kind) {
            Err(e) => Err(e),
            Ok(()) => self.write_bytes(writer, payload),
        }
    }

    /// Answers one call of the generic data model by building a value: a
    /// byte buffer gives the array as `serialize_bytes` does, every other
    /// shape is rejected.
    pub fn serialize(&self, kind: CallKind, payload: &[u8]) -> (r: Result<Value, Error>)
        ensures
            match rejection(kind) {
                Some(e) => r is Err && r->Err_0@ == e,
                None => r is Ok && is_native_array(self.kind(), payload@, r->Ok_0@),
            },
    {
        match expect_bytes(kind) {
            Err(e) => Err(e),
            Ok(()) => self.serialize_bytes(payload),
        }
    }
}

} // verus!
