//! A small protocol-buffers wire-format codec.
//!
//! The crate reads and writes tagged, typed fields on a single growable byte
//! buffer: variable-length unsigned integers (varints), zigzag-transformed
//! signed integers, fixed-width 4- and 8-byte values, length-delimited
//! strings, byte blobs and packed runs, and recursively nested messages.
//! There is no schema and no reflection: the caller states, through the
//! `ProtoRead` and `ProtoWrite` traits, exactly how each field is encoded.
//!
//! The `wire` module holds the mathematical model of the byte format; every
//! buffer operation is specified and proved against it.

/// All encoding and decoding is done via `u64`, so every scalar type that
/// travels the wire implements the traits of this module.
pub mod bit_cast;
/// The mathematical model of the wire format, with its round-trip laws.
pub mod wire;

mod buffer;
mod error;

pub use buffer::Field;
pub use buffer::fields_wf;
pub use buffer::read_extent;
pub use buffer::skip_result;
pub use buffer::ProtoRead;
pub use buffer::ProtoWrite;
pub use buffer::Protobuf;
pub use error::ProtoError;
pub use buffer::Type;
pub use buffer::zagzig;
pub use buffer::zigzag;
