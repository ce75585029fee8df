use vstd::prelude::*;

verus! {

/// Why a cache buffer could not be decoded.
///
/// Every error ends the load that met it: the format has no marker at
/// which decoding could pick up again after a damaged record.
#[derive(Clone, Copy, Debug, PartialEq, Eq, Structural)]
pub enum DecodeError {
    /// The file could not be opened or read.
    Io,
    /// The version tag or the revision byte of the header is not a known one.
    UnsupportedVersion,
    /// The signature in the header is not the one of the expected cache kind.
    BadMagic,
    /// The format version in the header is not 1.
    BadFormatVersion,
    /// The buffer ended in the middle of a field or with maps still open.
    Truncated,
    /// A tag byte that selects no known field kind.
    UnknownTagKind,
    /// A key or a text value is not valid UTF-8.
    InvalidUtf8,
    /// A package record's tree is not a single key holding a map.
    MalformedWrapper,
}

} // verus!
