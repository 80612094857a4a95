use vstd::prelude::*;

verus! {

/// The fatal conditions a buffer session can run into. Every one of them
/// invalidates the session: the caller discards the buffer rather than
/// retrying on it.
#[derive(Debug, Clone, Copy, PartialEq, Eq, Structural)]
pub enum ProtoError {
    /// The cursor would have to read past the available bytes: a truncated
    /// varint, fixed value or length-delimited payload.
    Bounds,
    /// A decoded wire-type code lies outside the valid set {0, 1, 2, 5, 7}.
    Format,
    /// A packed run or message body did not land exactly on its declared
    /// end offset.
    Misalignment,
    /// A string payload is not valid UTF-8.
    Encoding,
}

} // verus!
