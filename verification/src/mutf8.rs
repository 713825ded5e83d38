//! Modified UTF-8, the text encoding of every length-prefixed string.
//!
//! It differs from UTF-8 in two ways: U+0000 is written as the two bytes
//! `C0 80`, so that encoded text never holds a zero byte, and a character
//! above U+FFFF is written as a surrogate pair, each half in three bytes.
//! Decoding is strict: it accepts exactly the byte strings that encoding
//! produces.

use crate::error::{Error, ErrorModel};
use vstd::prelude::*;

verus! {

/// The modified UTF-8 bytes of one character.
pub open spec fn mutf8_char(c: char) -> Seq<u8> {
    let u = c as int;
    if u == 0 {
        seq![0xC0u8, 0x80u8]
    } else if u < 0x80 {
        seq![u as u8]
    } else if u < 0x800 {
        seq![(0xC0 + u / 0x40) as u8, (0x80 + u % 0x40) as u8]
    } else if u < 0x1_0000 {
        seq![(0xE0 + u / 0x1000) as u8, (0x80 + u / 0x40 % 0x40) as u8, (0x80 + u % 0x40) as u8]
    } else {
        let v = u - 0x1_0000;
        seq![
            0xEDu8,
            (0xA0 + v / 0x1_0000) as u8,
            (0x80 + v / 0x400 % 0x40) as u8,
            0xEDu8,
            (0xB0 + v / 0x40 % 0x10) as u8,
            (0x80 + v % 0x40) as u8,
        ]
    }
}

/// The modified UTF-8 bytes of a text: those of its characters, in order.
pub open spec fn mutf8(s: Seq<char>) -> Seq<u8>
    decreases s.len(),
{
    if s.len() == 0 {
        Seq::empty()
    } else {
        mutf8_char(s[0]) + mutf8(s.skip(1))
    }
}

/// True for the bytes `80` to `BF`, which continue a multi-byte character.
pub open spec fn is_continuation(b: u8) -> bool {
    0x80 <= b < 0xC0
}

/// The character that `b` starts with and the number of bytes it takes, or
/// `None` where `b` starts with no well-formed character.
pub open spec fn first_char(b: Seq<u8>) -> Option<(char, int)> {
    if b.len() == 0 {
        None
    } else if 1 <= b[0] < 0x80 {
        Some((b[0] as char, 1))
    } else if 0xC0 <= b[0] < 0xE0 {
        if b.len() >= 2 && is_continuation(b[1]) {
            let u = (b[0] - 0xC0) * 0x40 + (b[1] - 0x80);
            if u == 0 || u >= 0x80 {
                Some((u as char, 2))
            } else {
                None
            }
        } else {
            None
        }
    } else if 0xE0 <= b[0] < 0xF0 {
        if b.len() >= 3 && is_continuation(b[1]) && is_continuation(b[2]) {
            let u = (b[0] - 0xE0) * 0x1000 + (b[1] - 0x80) * 0x40 + (b[2] - 0x80);
            if u < 0x800 {
                None
            } else if u < 0xD800 || u >= 0xE000 {
                Some((u as char, 3))
            } else if u < 0xDC00 {
                if b.len() >= 6 && b[3] == 0xED && 0xB0 <= b[4] < 0xC0 && is_continuation(b[5]) {
                    let v = (u - 0xD800) * 0x400 + (b[4] - 0xB0) * 0x40 + (b[5] - 0x80);
                    Some(((0x1_0000 + v) as char, 6))
                } else {
                    None
                }
            } else {
                None
            }
        } else {
            None
        }
    } else {
        None
    }
}

/// The text that `b` encodes, or `None` where `b` is not modified UTF-8.
pub open spec fn mutf8_decode(b: Seq<u8>) -> Option<Seq<char>>
    decreases b.len(),
{
    if b.len() == 0 {
        Some(Seq::empty())
    } else {
        match first_char(b) {
            None => None,
            Some((c, k)) => match mutf8_decode(b.skip(k)) {
                None => None,
                Some(rest) => Some(seq![c] + rest),
            },
        }
    }
}

/// A character takes between one and six bytes, and what it was written as
/// reads back as itself, whatever follows.
pub proof fn lemma_first_char_of_encoded(c: char, rest: Seq<u8>)
    ensures
        1 <= mutf8_char(c).len() <= 6,
        first_char(mutf8_char(c) + rest) == Some((c, mutf8_char(c).len() as int)),
{
    let e = mutf8_char(c);
    let b = e + rest;
    let u = c as int;
    assert(forall|i: int| 0 <= i < e.len() ==> b[i] == e[i]);
    if u == 0 {
        assert(b[0] == 0xC0 && b[1] == 0x80);
    } else if u < 0x80 {
        assert(b[0] == u);
    } else if u < 0x800 {
        assert(b[0] == 0xC0 + u / 0x40 && b[1] == 0x80 + u % 0x40);
    } else if u < 0x1_0000 {
        assert(b[0] == 0xE0 + u / 0x1000 && b[1] == 0x80 + u / 0x40 % 0x40 && b[2] == 0x80 + u
            % 0x40);
    } else {
        let v = u - 0x1_0000;
        assert(b[0] == 0xED && b[1] == 0xA0 + v / 0x1_0000 && b[2] == 0x80 + v / 0x400 % 0x40);
        assert(b[3] == 0xED && b[4] == 0xB0 + v / 0x40 % 0x10 && b[5] == 0x80 + v % 0x40);
        let hi = (b[0] - 0xE0) * 0x1000 + (b[1] - 0x80) * 0x40 + (b[2] - 0x80);
        assert(hi == 0xD800 + v / 0x400);
        assert((hi - 0xD800) * 0x400 + (b[4] - 0xB0) * 0x40 + (b[5] - 0x80) == v);
    }
}

/// Decoding undoes encoding: every text reads back from its bytes.
pub proof fn lemma_mutf8_roundtrip(s: Seq<char>)
    ensures
        mutf8_decode(mutf8(s)) == Some(s),
    decreases s.len(),
{
    if s.len() == 0 {
    } else {
        let e = mutf8_char(s[0]);
        let rest = mutf8(s.skip(1));
        lemma_first_char_of_encoded(s[0], rest);
        lemma_mutf8_roundtrip(s.skip(1));
        assert((e + rest).skip(e.len() as int) =~= rest);
        assert(seq![s[0]] + s.skip(1) =~= s);
    }
}

/// The scalar value that two bytes compose gives the two bytes back.
proof fn lemma_split2(b0: int, b1: int)
    requires
        0xC0 <= b0 < 0xE0,
        0x80 <= b1 < 0xC0,
    ensures
        ({
            let u = (b0 - 0xC0) * 0x40 + (b1 - 0x80);
            0 <= u < 0x800 && u / 0x40 == b0 - 0xC0 && u % 0x40 == b1 - 0x80
        }),
{
}

/// The scalar value that three bytes compose gives the three bytes back.
proof fn lemma_split3(b0: int, b1: int, b2: int)
    requires
        0xE0 <= b0 < 0xF0,
        0x80 <= b1 < 0xC0,
        0x80 <= b2 < 0xC0,
    ensures
        ({
            let u = (b0 - 0xE0) * 0x1000 + (b1 - 0x80) * 0x40 + (b2 - 0x80);
            &&& 0 <= u < 0x1_0000
            &&& u / 0x1000 == b0 - 0xE0
            &&& u / 0x40 % 0x40 == b1 - 0x80
            &&& u % 0x40 == b2 - 0x80
        }),
{
    let u = (b0 - 0xE0) * 0x1000 + (b1 - 0x80) * 0x40 + (b2 - 0x80);
    let w = (b0 - 0xE0) * 0x40 + (b1 - 0x80);
    assert(u == w * 0x40 + (b2 - 0x80));
    assert(u / 0x40 == w);
}

/// The offset that a surrogate pair composes gives the pair's bytes back.
proof fn lemma_split_pair(b1: int, b2: int, b4: int, b5: int)
    requires
        0xA0 <= b1 < 0xB0,
        0x80 <= b2 < 0xC0,
        0xB0 <= b4 < 0xC0,
        0x80 <= b5 < 0xC0,
    ensures
        ({
            let hi = 0xD000 + (b1 - 0x80) * 0x40 + (b2 - 0x80);
            let v = (hi - 0xD800) * 0x400 + (b4 - 0xB0) * 0x40 + (b5 - 0x80);
            &&& 0xD800 <= hi < 0xDC00
            &&& 0 <= v < 0x10_0000
            &&& v / 0x1_0000 == b1 - 0xA0
            &&& v / 0x400 % 0x40 == b2 - 0x80
            &&& v / 0x40 % 0x10 == b4 - 0xB0
            &&& v % 0x40 == b5 - 0x80
        }),
{
    let h = (b1 - 0xA0) * 0x40 + (b2 - 0x80);
    let hi = 0xD000 + (b1 - 0x80) * 0x40 + (b2 - 0x80);
    assert(hi == 0xD800 + h);
    let v = h * 0x400 + (b4 - 0xB0) * 0x40 + (b5 - 0x80);
    let w = h * 0x10 + (b4 - 0xB0);
    assert(v == w * 0x40 + (b5 - 0x80));
    assert(v / 0x40 == w);
    assert(w / 0x10 == h);
    assert(v / 0x400 == h);
    assert(h / 0x40 == b1 - 0xA0);
}

/// What `first_char` accepts is the encoding of the character it yields.
pub proof fn lemma_first_char_canonical(b: Seq<u8>)
    requires
        first_char(b) is Some,
    ensures
        first_char(b) matches Some((c, k)) && 1 <= k <= b.len() && mutf8_char(c) == b.subrange(
            0,
            k,
        ),
{
    let (c, k) = first_char(b).unwrap();
    let b0 = b[0] as int;
    if 1 <= b0 < 0x80 {
        assert(c as int == b0);
        assert(mutf8_char(c) =~= b.subrange(0, k));
    } else if 0xC0 <= b0 < 0xE0 {
        let b1 = b[1] as int;
        lemma_split2(b0, b1);
        let u = (b0 - 0xC0) * 0x40 + (b1 - 0x80);
        assert(c as int == u);
        assert(mutf8_char(c) =~= b.subrange(0, k));
    } else {
        let b1 = b[1] as int;
        let b2 = b[2] as int;
        lemma_split3(b0, b1, b2);
        let u = (b0 - 0xE0) * 0x1000 + (b1 - 0x80) * 0x40 + (b2 - 0x80);
        if u < 0xD800 || u >= 0xE000 {
            assert(c as int == u);
            assert(mutf8_char(c) =~= b.subrange(0, k));
        } else {
            let b4 = b[4] as int;
            let b5 = b[5] as int;
            assert(b0 == 0xED);
            assert(0xA0 <= b1 < 0xB0);
            lemma_split_pair(b1, b2, b4, b5);
            let v = (u - 0xD800) * 0x400 + (b4 - 0xB0) * 0x40 + (b5 - 0x80);
            assert(c as int == 0x1_0000 + v);
            assert(mutf8_char(c) =~= b.subrange(0, k));
        }
    }
}

/// Decoding is strict: a byte string decodes to a text exactly when it is
/// the encoding of that text.
pub proof fn lemma_mutf8_decode_iff(b: Seq<u8>, s: Seq<char>)
    ensures
        mutf8_decode(b) == Some(s) <==> mutf8(s) == b,
    decreases b.len(),
{
    if mutf8(s) == b {
        lemma_mutf8_roundtrip(s);
    }
    if mutf8_decode(b) == Some(s) {
        if b.len() == 0 {
            assert(mutf8(s) =~= b);
        } else {
            let (c, k) = first_char(b).unwrap();
            let rest = mutf8_decode(b.skip(k)).unwrap();
            lemma_first_char_canonical(b);
            lemma_mutf8_decode_iff(b.skip(k), rest);
            assert(s.skip(1) =~= rest);
            assert(b.subrange(0, k) + b.skip(k) =~= b);
        }
    }
}

/// `char::from_u32` of the standard library: the character with the given
/// scalar value, or `None` for a surrogate or a value above U+10FFFF.
#[verifier::external_body]
fn char_from_u32(u: u32) -> (r: Option<char>)
    ensures
        u < 0xD800 || 0xE000 <= u <= 0x10_FFFF ==> r == Some(u as char),
        !(u < 0xD800 || 0xE000 <= u <= 0x10_FFFF) ==> r is None,
{
    char::from_u32(u)
}

/// `String::push` of the standard library: appends one character.
#[verifier::external_body]
pub(crate) fn push_char(text: &mut String, c: char)
    ensures
        final(text)@ == old(text)@.push(c),
{
    text.push(c)
}

/// Appends the modified UTF-8 bytes of one character.
pub fn push_mutf8_char(out: &mut Vec<u8>, c: char)
    ensures
        final(out)@ == old(out)@ + mutf8_char(c),
{
    let u: u32 = c as u32;
    if u == 0 {
        out.push(0xC0);
        out.push(0x80);
    } else if u < 0x80 {
        out.push(u as u8);
    } else if u < 0x800 {
        out.push((0xC0 + u / 0x40) as u8);
        out.push((0x80 + u % 0x40) as u8);
    } else if u < 0x1_0000 {
        out.push((0xE0 + u / 0x1000) as u8);
        out.push((0x80 + u / 0x40 % 0x40) as u8);
        out.push((0x80 + u % 0x40) as u8);
    } else {
        let v: u32 = u - 0x1_0000;
        out.push(0xED);
        out.push((0xA0 + v / 0x1_0000) as u8);
        out.push((0x80 + v / 0x400 % 0x40) as u8);
        out.push(0xED);
        out.push((0xB0 + v / 0x40 % 0x10) as u8);
        out.push((0x80 + v % 0x40) as u8);
    }
    assert(out@ =~= old(out)@ + mutf8_char(c));
}

/// Encodes a text as modified UTF-8.
pub fn encode_mutf8(s: &str) -> (out: Vec<u8>)
    ensures
        out@ == mutf8(s@),
{
    let mut out: Vec<u8> = Vec::new();
    proof {
        assert(s@.skip(0) =~= s@);
        assert(out@ + mutf8(s@) =~= mutf8(s@));
    }
    for c in it: s.chars()
        invariant
            it.seq() == s@,
            out@ + mutf8(s@.skip(it.index() as int)) == mutf8(s@),
    {
        proof {
            let tail = s@.skip(it.index() as int);
            assert(tail[0] == c);
            assert(tail.skip(1) =~= s@.skip(it.index() + 1));
            assert(out@ + (mutf8_char(c) + mutf8(tail.skip(1))) =~= (out@ + mutf8_char(c)) + mutf8(
                tail.skip(1),
            ));
        }
        push_mutf8_char(&mut out, c);
    }
    proof {
        assert(s@.skip(s@.len() as int) =~= Seq::<char>::empty());
        assert(out@ + Seq::<u8>::empty() =~= out@);
    }
    out
}

/// Reads the character that starts at `pos`: the character and the number of
/// bytes it takes, or `None` where no well-formed character starts there or
/// `pos` is beyond the last byte.
pub fn decode_mutf8_char(bytes: &[u8], pos: usize) -> (r: Option<(char, usize)>)
    ensures
        pos >= bytes@.len() ==> r is None,
        pos < bytes@.len() ==> match first_char(bytes@.skip(pos as int)) {
            Some((c, k)) => r == Some((c, k as usize)) && 1 <= k && pos + k <= bytes@.len(),
            None => r is None,
        },
{
    let len: usize = bytes.len();
    if pos >= len {
        return None;
    }
    let ghost b = bytes@.skip(pos as int);
    let b0: u32 = bytes[pos] as u32;
    assert(b[0] == bytes@[pos as int]);
    if 1 <= b0 && b0 < 0x80 {
        match char_from_u32(b0) {
            Some(c) => Some((c, 1)),
            None => None,
        }
    } else if 0xC0 <= b0 && b0 < 0xE0 {
        if len - pos < 2 {
            return None;
        }
        let b1: u32 = bytes[pos + 1] as u32;
        assert(b[1] == bytes@[pos + 1]);
        if !(0x80 <= b1 && b1 < 0xC0) {
            return None;
        }
        let u: u32 = (b0 - 0xC0) * 0x40 + (b1 - 0x80);
        if u == 0 || u >= 0x80 {
            match char_from_u32(u) {
                Some(c) => Some((c, 2)),
                None => None,
            }
        } else {
            None
        }
    } else if 0xE0 <= b0 && b0 < 0xF0 {
        if len - pos < 3 {
            return None;
        }
        let b1: u32 = bytes[pos + 1] as u32;
        let b2: u32 = bytes[pos + 2] as u32;
        assert(b[1] == bytes@[pos + 1] && b[2] == bytes@[pos + 2]);
        if !(0x80 <= b1 && b1 < 0xC0 && 0x80 <= b2 && b2 < 0xC0) {
            return None;
        }
        let u: u32 = (b0 - 0xE0) * 0x1000 + (b1 - 0x80) * 0x40 + (b2 - 0x80);
        if u < 0x800 {
            None
        } else if u < 0xD800 || u >= 0xE000 {
            match char_from_u32(u) {
                Some(c) => Some((c, 3)),
                None => None,
            }
        } else if u < 0xDC00 {
            if len - pos < 6 {
                return None;
            }
            let b3: u32 = bytes[pos + 3] as u32;
            let b4: u32 = bytes[pos + 4] as u32;
            let b5: u32 = bytes[pos + 5] as u32;
            assert(b[3] == bytes@[pos + 3] && b[4] == bytes@[pos + 4] && b[5] == bytes@[pos + 5]);
            if !(b3 == 0xED && 0xB0 <= b4 && b4 < 0xC0 && 0x80 <= b5 && b5 < 0xC0) {
                return None;
            }
            let v: u32 = (u - 0xD800) * 0x400 + (b4 - 0xB0) * 0x40 + (b5 - 0x80);
            match char_from_u32(0x1_0000 + v) {
                Some(c) => Some((c, 6)),
                None => None,
            }
        } else {
            None
        }
    } else {
        None
    }
}

/// Decodes modified UTF-8. Returns the text where `bytes` is the encoding of
/// one, and otherwise an error that carries `bytes`.
pub fn decode_mutf8(bytes: &[u8]) -> (r: Result<String, Error>)
    ensures
        match mutf8_decode(bytes@) {
            Some(s) => r is Ok && r->Ok_0@ == s && mutf8(s) == bytes@,
            None => r is Err && r->Err_0@ == ErrorModel::NonUnicodeString(bytes@),
        },
{
    let mut text = String::new();
    let mut pos: usize = 0;
    proof {
        assert(bytes@.skip(0) =~= bytes@);
        assert forall|rest: Seq<char>| #[trigger] (text@ + rest) == rest by {
            assert(text@ + rest =~= rest);
        }
    }
    while pos < bytes.len()
        invariant
            pos <= bytes@.len(),
            mutf8_decode(bytes@) == match mutf8_decode(bytes@.skip(pos as int)) {
                Some(rest) => Some(text@ + rest),
                None => None,
            },
        decreases bytes@.len() - pos,
    {
        let ghost tail = bytes@.skip(pos as int);
        match decode_mutf8_char(bytes, pos) {
            None => {
                return Err(Error::nonunicode_string(bytes));
            },
            Some((c, width)) => {
                proof {
                    assert(tail.skip(width as int) =~= bytes@.skip(pos + width));
                    assert forall|rest: Seq<char>|
                        text@ + (seq![c] + rest) == #[trigger] (text@.push(c) + rest) by {
                        assert(text@ + (seq![c] + rest) =~= text@.push(c) + rest);
                    }
                }
                push_char(&mut text, c);
                pos += width;
            },
        }
    }
    proof {
        assert(bytes@.skip(pos as int) =~= Seq::<u8>::empty());
        assert(text@ + Seq::<char>::empty() =~= text@);
        lemma_mutf8_decode_iff(bytes@, text@);
    }
    Ok(text)
}

} // verus!
