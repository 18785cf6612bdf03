//! Error taxonomy shared by every encode and decode operation.

use vstd::prelude::*;

verus! {

/// The error value returned by every codec operation.
///
/// The kind is enough for a caller to tell transport failures apart from
/// malformed-input failures.
#[derive(Clone, Copy, Debug, PartialEq, Eq, Structural)]
pub enum Error {
    /// The underlying sink or source reported a transport-level failure.
    Io,
    /// A length or count does not fit the integer width it must be written
    /// in, or a decoded signed length cannot be used as a non-negative size.
    BoundsCheck,
    /// A fixed-width or length-prefixed read needs more bytes than remain.
    OutOfBounds,
    /// A varint group ran past its maximum byte count with the continuation
    /// bit still set in every byte.
    IncorrectVarint,
    /// Decoded string bytes are not valid UTF-8.
    UTF8Error,
}

} // verus!
