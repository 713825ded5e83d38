//! The error taxonomy shared by encoding and decoding.

use crate::mutf8::push_char;
use vstd::prelude::*;
use vstd::string::StringExecFns;

verus! {

/// What went wrong. Every kind is terminal for the operation that raised it.
#[derive(Debug, Clone, PartialEq, Eq)]
pub enum ErrorKind {
    /// A tag byte outside 0 to 12, or `End` where a value was required.
    InvalidTag(u8),
    /// The outermost value is not a compound.
    NoRootCompound,
    /// Text that is not modified UTF-8; carries the raw bytes.
    NonUnicodeString(Vec<u8>),
    /// The input ended inside a value.
    UnexpectedEof,
    /// An array was declared and a generic sequence was supplied.
    ArrayAsSeq,
    /// An array was declared and something other than bytes was supplied.
    ArrayAsOther,
    /// Containers are nested deeper than `MAX_DEPTH`.
    DepthLimit,
    /// A failure of the underlying byte sink or source, as text.
    Io(String),
    /// Any other mismatch, described by a message.
    Custom(String),
}

/// Mathematical model of an error: the kind with its typed fields.
pub ghost enum ErrorModel {
    InvalidTag(u8),
    NoRootCompound,
    NonUnicodeString(Seq<u8>),
    UnexpectedEof,
    ArrayAsSeq,
    ArrayAsOther,
    DepthLimit,
    Io(Seq<char>),
    Custom(Seq<char>),
}

impl View for ErrorKind {
    type V = ErrorModel;

    open spec fn view(&self) -> ErrorModel {
        match self {
            ErrorKind::InvalidTag(b) => ErrorModel::InvalidTag(*b),
            ErrorKind::NoRootCompound => ErrorModel::NoRootCompound,
            ErrorKind::NonUnicodeString(raw) => ErrorModel::NonUnicodeString(raw@),
            ErrorKind::UnexpectedEof => ErrorModel::UnexpectedEof,
            ErrorKind::ArrayAsSeq => ErrorModel::ArrayAsSeq,
            ErrorKind::ArrayAsOther => ErrorModel::ArrayAsOther,
            ErrorKind::DepthLimit => ErrorModel::DepthLimit,
            ErrorKind::Io(msg) => ErrorModel::Io(msg@),
            ErrorKind::Custom(msg) => ErrorModel::Custom(msg@),
        }
    }
}

/// An error of encoding or decoding.
#[derive(Debug, Clone, PartialEq, Eq)]
pub struct Error {
    kind: ErrorKind,
}

impl View for Error {
    type V = ErrorModel;

    closed spec fn view(&self) -> ErrorModel {
        self.kind@
    }
}

/// The text that invalid UTF-8 is shown as: what `String::from_utf8_lossy`
/// of the standard library makes of the bytes.
pub uninterp spec fn lossy_utf8(raw: Seq<u8>) -> Seq<char>;

/// The decimal digits of `n`, most significant first.
pub open spec fn decimal(n: nat) -> Seq<char>
    decreases n,
{
    if n < 10 {
        seq![(48 + n) as char]
    } else {
        decimal(n / 10).push((48 + n % 10) as char)
    }
}

/// The message that an error is shown with.
pub open spec fn message_of(e: ErrorModel) -> Seq<char> {
    match e {
        ErrorModel::InvalidTag(b) => "invalid nbt tag value: "@ + decimal(b as nat),
        ErrorModel::NoRootCompound => "invalid nbt: no root compound"@,
        ErrorModel::NonUnicodeString(raw) => "invalid nbt string: nonunicode: "@ + lossy_utf8(raw),
        ErrorModel::UnexpectedEof => "eof: unexpectedly ran out of input"@,
        ErrorModel::ArrayAsSeq =>
            "expected NBT Array, found seq: use ByteArray, IntArray or LongArray types"@,
        ErrorModel::ArrayAsOther =>
            "expected NBT Array: use ByteArray, IntArray or LongArray types"@,
        ErrorModel::DepthLimit => "invalid nbt: nested too deeply"@,
        ErrorModel::Io(msg) => "io error: "@ + msg,
        ErrorModel::Custom(msg) => msg,
    }
}

/// `String::from_utf8_lossy` of the standard library, as an owned text: the
/// bytes as text, with what is not UTF-8 replaced. The result depends on the
/// bytes alone.
#[verifier::external_body]
fn lossy_text(raw: &[u8]) -> (text: String)
    ensures
        text@ == lossy_utf8(raw@),
{
    String::from_utf8_lossy(raw).into_owned()
}

/// Appends the decimal digits of `b`.
pub fn push_decimal(text: &mut String, b: u8)
    ensures
        final(text)@ == old(text)@ + decimal(b as nat),
{
    let ghost start = text@;
    if b >= 100 {
        push_char(text, (48 + b / 100) as char);
    }
    if b >= 10 {
        push_char(text, (48 + b / 10 % 10) as char);
    }
    push_char(text, (48 + b % 10) as char);
    proof {
        reveal_with_fuel(decimal, 3);
        assert(text@ =~= start + decimal(b as nat));
    }
}

/// The message of a text that is not modified UTF-8, given what its bytes
/// are shown as.
pub fn nonunicode_message(shown: &str) -> (text: String)
    ensures
        text@ == "invalid nbt string: nonunicode: "@ + shown@,
{
    let mut text = "invalid nbt string: nonunicode: ".to_owned();
    text.append(shown);
    text
}

impl Error {
    /// The kind of this error, with its fields.
    pub fn kind(&self) -> (k: &ErrorKind)
        ensures
            k@ == self@,
    {
        &self.kind
    }

    /// A tag byte that names no tag.
    pub fn invalid_tag(tag: u8) -> (e: Error)
        ensures
            e@ == ErrorModel::InvalidTag(tag),
    {
        Error { kind: ErrorKind::InvalidTag(tag) }
    }

    /// The outermost value is not a compound.
    pub fn no_root_compound() -> (e: Error)
        ensures
            e@ == ErrorModel::NoRootCompound,
    {
        Error { kind: ErrorKind::NoRootCompound }
    }

    /// Text that is not modified UTF-8. The error keeps a copy of the bytes.
    pub fn nonunicode_string(data: &[u8]) -> (e: Error)
        ensures
            e@ == ErrorModel::NonUnicodeString(data@),
    {
        let mut raw: Vec<u8> = Vec::new();
        let mut i: usize = 0;
        while i < data.len()
            invariant
                i <= data@.len(),
                raw@ == data@.subrange(0, i as int),
            decreases data@.len() - i,
        {
            raw.push(data[i]);
            i += 1;
        }
        assert(raw@ == data@);
        Error { kind: ErrorKind::NonUnicodeString(raw) }
    }

    /// The input ended inside a value.
    pub fn unexpected_eof() -> (e: Error)
        ensures
            e@ == ErrorModel::UnexpectedEof,
    {
        Error { kind: ErrorKind::UnexpectedEof }
    }

    /// An array was declared and a generic sequence was supplied.
    pub fn array_as_seq() -> (e: Error)
        ensures
            e@ == ErrorModel::ArrayAsSeq,
    {
        Error { kind: ErrorKind::ArrayAsSeq }
    }

    /// An array was declared and something other than bytes was supplied.
    pub fn array_as_other() -> (e: Error)
        ensures
            e@ == ErrorModel::ArrayAsOther,
    {
        Error { kind: ErrorKind::ArrayAsOther }
    }

    /// Containers are nested too deeply.
    pub fn depth_limit() -> (e: Error)
        ensures
            e@ == ErrorModel::DepthLimit,
    {
        Error { kind: ErrorKind::DepthLimit }
    }

    /// A failure of the byte sink or source, described by `msg`.
    pub fn io(msg: String) -> (e: Error)
        ensures
            e@ == ErrorModel::Io(msg@),
    {
        Error { kind: ErrorKind::Io(msg) }
    }

    /// Any other mismatch, described by `msg`.
    pub fn bespoke(msg: String) -> (e: Error)
        ensures
            e@ == ErrorModel::Custom(msg@),
    {
        Error { kind: ErrorKind::Custom(msg) }
    }

    /// The message that this error is shown with. An invalid tag shows its
    /// byte in decimal, text that is not modified UTF-8 shows its bytes read
    /// as UTF-8 with replacements, a failure of the sink or source and a
    /// custom error show the message they carry.
    pub fn message(&self) -> (text: String)
        ensures
            text@ == message_of(self@),
    {
        match &self.kind {
            ErrorKind::InvalidTag(b) => {
                let mut text = "invalid nbt tag value: ".to_owned();
                push_decimal(&mut text, *b);
                text
            },
            ErrorKind::NoRootCompound => "invalid nbt: no root compound".to_owned(),
            ErrorKind::NonUnicodeString(raw) => {
                let shown = lossy_text(raw.as_slice());
                nonunicode_message(shown.as_str())
            },
            ErrorKind::UnexpectedEof => "eof: unexpectedly ran out of input".to_owned(),
            ErrorKind::ArrayAsSeq => {
                "expected NBT Array, found seq: use ByteArray, IntArray or LongArray types".to_owned()
            },
            ErrorKind::ArrayAsOther => {
                "expected NBT Array: use ByteArray, IntArray or LongArray types".to_owned()
            },
            ErrorKind::DepthLimit => "invalid nbt: nested too deeply".to_owned(),
            ErrorKind::Io(msg) => {
                let mut text = "io error: ".to_owned();
                text.append(msg.as_str());
                text
            },
            ErrorKind::Custom(msg) => msg.clone(),
        }
    }
}

} // verus!
