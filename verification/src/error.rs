//! The ways in which encoding or decoding an archive can fail.

use vstd::prelude::*;

verus! {

/// Why an operation of the codec failed.
#[derive(Clone, Copy, Debug, PartialEq, Eq, Structural)]
pub enum ArError {
    /// The stream does not begin with the eight-byte archive marker.
    InvalidMagic,
    /// The stream ended inside an entry header or its name extension.
    TruncatedHeader,
    /// A header field is not a number, or a value does not fit its field.
    MalformedField,
    /// The Common dialect was given a name that its identifier field cannot hold.
    UnsupportedLongName,
    /// A GNU name reference points outside the name table.
    NameTableOffsetOutOfRange,
    /// A GNU builder was given an identifier that it was not constructed with.
    UnexpectedIdentifier,
}

} // verus!
