//! A codec for a binary, self-describing, tag-prefixed tree format of named
//! data, with its three native fixed-width array kinds.

pub mod array;
pub mod de;
pub mod endian;
pub mod error;
pub mod laws;
pub mod mutf8;
pub mod ser;
pub mod tag;
pub mod tree;
pub mod value;
pub mod wire;
pub mod writer;

pub use array::{ArraySerializer, CallKind};
pub use de::from_bytes;
pub use error::{Error, ErrorKind};
pub use ser::to_bytes;
pub use tag::Tag;
pub use value::Value;
pub use writer::Writer;
