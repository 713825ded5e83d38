//! The append-only primitive writer that every encoder writes through.

use crate::endian::{be16, be32, be64, push_be16, push_be32, push_be64};
use crate::error::{Error, ErrorModel};
use crate::mutf8::{encode_mutf8, mutf8};
use crate::tag::Tag;
use vstd::prelude::*;

verus! {

/// Largest element count that the 4-byte signed count can hold.
pub const MAX_COUNT: usize = 0x7FFF_FFFF;

/// Largest number of bytes that the 2-byte length of a text can announce.
pub const MAX_TEXT_BYTES: usize = 0xFFFF;

/// Message of the error for a count above `MAX_COUNT`.
pub open spec fn len_too_large() -> Seq<char> {
    "len too large"@
}

/// Message of the error for a text whose encoding exceeds `MAX_TEXT_BYTES`.
pub open spec fn text_too_long() -> Seq<char> {
    "string too long"@
}

/// The wire image of an element count.
pub open spec fn count_image(n: nat) -> Seq<u8> {
    be32(n as u32)
}

/// The wire image of a text: the 2-byte length of its modified UTF-8
/// encoding, then the encoding.
pub open spec fn text_image(s: Seq<char>) -> Seq<u8> {
    be16(mutf8(s).len() as u16) + mutf8(s)
}

/// The error, if any, that writing `n` as an element count raises.
pub open spec fn check_count(n: nat) -> Option<ErrorModel> {
    if n > MAX_COUNT {
        Some(ErrorModel::Custom(len_too_large()))
    } else {
        None
    }
}

/// The error, if any, that writing the text `s` raises.
pub open spec fn check_text(s: Seq<char>) -> Option<ErrorModel> {
    if mutf8(s).len() > MAX_TEXT_BYTES {
        Some(ErrorModel::Custom(text_too_long()))
    } else {
        None
    }
}

/// True where `new` is `old` with bytes appended, or `old` itself.
pub open spec fn extends(new: Seq<u8>, old: Seq<u8>) -> bool {
    old.len() <= new.len() && new.subrange(0, old.len() as int) == old
}

/// Appending extends.
pub proof fn lemma_extends_append(a: Seq<u8>, b: Seq<u8>)
    ensures
        extends(a, a),
        extends(a + b, a),
{
    assert(a.subrange(0, a.len() as int) =~= a);
    assert((a + b).subrange(0, a.len() as int) =~= a);
}

/// Extending is transitive.
pub proof fn lemma_extends_twice(a: Seq<u8>, b: Seq<u8>, c: Seq<u8>)
    requires
        extends(b, a),
        extends(c, b),
    ensures
        extends(c, a),
{
    assert(c.subrange(0, a.len() as int) =~= c.subrange(0, b.len() as int).subrange(
        0,
        a.len() as int,
    ));
}

/// An in-memory byte sink. Bytes are only ever appended.
pub struct Writer {
    buf: Vec<u8>,
}

impl View for Writer {
    type V = Seq<u8>;

    closed spec fn view(&self) -> Seq<u8> {
        self.buf@
    }
}

impl Writer {
    /// An empty sink.
    pub fn new() -> (w: Writer)
        ensures
            w@ == Seq::<u8>::empty(),
    {
        Writer { buf: Vec::new() }
    }

    /// Number of bytes written so far.
    pub fn len(&self) -> (n: usize)
        ensures
            n == self@.len(),
    {
        self.buf.len()
    }

    /// Hands out everything that was written.
    pub fn into_bytes(self) -> (bytes: Vec<u8>)
        ensures
            bytes@ == self@,
    {
        self.buf
    }

    /// Appends one byte.
    pub fn write_u8(&mut self, x: u8)
        ensures
            final(self)@ == old(self)@ + seq![x],
    {
        self.buf.push(x);
        assert(self.buf@ =~= old(self).buf@ + seq![x]);
    }

    /// Appends the wire byte of a tag.
    pub fn write_tag(&mut self, tag: Tag)
        ensures
            final(self)@ == old(self)@ + seq![tag.wire()],
    {
        self.write_u8(tag.to_u8());
    }

    /// Appends one signed byte, in two's complement.
    pub fn write_i8(&mut self, x: i8)
        ensures
            final(self)@ == old(self)@ + seq![x as u8],
    {
        self.write_u8(x as u8);
    }

    /// Appends a 16-bit unsigned integer, big-endian.
    pub fn write_u16(&mut self, x: u16)
        ensures
            final(self)@ == old(self)@ + be16(x),
    {
        push_be16(&mut self.buf, x);
    }

    /// Appends a 16-bit signed integer, two's complement, big-endian.
    pub fn write_i16(&mut self, x: i16)
        ensures
            final(self)@ == old(self)@ + be16(x as u16),
    {
        push_be16(&mut self.buf, x as u16);
    }

    /// Appends a 32-bit signed integer, two's complement, big-endian.
    pub fn write_i32(&mut self, x: i32)
        ensures
            final(self)@ == old(self)@ + be32(x as u32),
    {
        push_be32(&mut self.buf, x as u32);
    }

    /// Appends a 64-bit signed integer, two's complement, big-endian.
    pub fn write_i64(&mut self, x: i64)
        ensures
            final(self)@ == old(self)@ + be64(x as u64),
    {
        push_be64(&mut self.buf, x as u64);
    }

    /// Appends an IEEE-754 single, given by its bits, big-endian.
    pub fn write_float_bits(&mut self, bits: u32)
        ensures
            final(self)@ == old(self)@ + be32(bits),
    {
        push_be32(&mut self.buf, bits);
    }

    /// Appends an IEEE-754 double, given by its bits, big-endian.
    pub fn write_double_bits(&mut self, bits: u64)
        ensures
            final(self)@ == old(self)@ + be64(bits),
    {
        push_be64(&mut self.buf, bits);
    }

    /// Appends an element count as a 4-byte signed integer. A count above
    /// `MAX_COUNT` is rejected and nothing is written.
    pub fn write_len(&mut self, len: usize) -> (r: Result<(), Error>)
        ensures
            match check_count(len as nat) {
                None => r is Ok && final(self)@ == old(self)@ + count_image(len as nat),
                Some(e) => r is Err && r->Err_0@ == e && final(self)@ == old(self)@,
            },
    {
        if len > MAX_COUNT {
            return Err(Error::bespoke("len too large".to_owned()));
        }
        push_be32(&mut self.buf, len as u32);
        Ok(())
    }

    /// Appends a buffer as it is.
    pub fn write_bytes(&mut self, data: &[u8])
        ensures
            final(self)@ == old(self)@ + data@,
    {
        self.buf.extend_from_slice(data);
    }

    /// Appends a text: the 2-byte length of its modified UTF-8 encoding, then
    /// the encoding. A text whose encoding exceeds `MAX_TEXT_BYTES` is
    /// rejected and nothing is written.
    pub fn write_str(&mut self, s: &str) -> (r: Result<(), Error>)
        ensures
            match check_text(s@) {
                None => r is Ok && final(self)@ == old(self)@ + text_image(s@),
                Some(e) => r is Err && r->Err_0@ == e && final(self)@ == old(self)@,
            },
    {
        let encoded = encode_mutf8(s);
        if encoded.len() > MAX_TEXT_BYTES {
            return Err(Error::bespoke("string too long".to_owned()));
        }
        push_be16(&mut self.buf, encoded.len() as u16);
        self.buf.extend_from_slice(encoded.as_slice());
        assert(self.buf@ =~= old(self).buf@ + text_image(s@));
        Ok(())
    }
}

} // verus!
