//! The failures that reading and writing values share.

use vstd::prelude::*;

verus! {

/// Why bytes could not be read as a value.
#[derive(Clone, Copy, Debug, PartialEq, Eq, Structural)]
pub enum SerializationError {
    /// The bytes ended before the value did.
    UnexpectedEof,
    /// The bytes are no point of the curve.
    DecodingError,
    /// The opcode names no proposition.
    InvalidOpCode(u8),
    /// The construct is declared and has no wire format yet.
    NotSupported,
}

} // verus!
