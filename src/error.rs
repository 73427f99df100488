use vstd::prelude::*;

verus! {

/// `std::io::Error`, as produced by the gzip decoder; carried through opaquely.
#[verifier::external_type_specification]
#[verifier::external_body]
pub struct ExIoError(std::io::Error);

/// Everything that can go wrong while reading an archive.
#[derive(Debug)]
pub enum ParseError {
    /// The first seven bytes are not the archive magic.
    InvalidMagic,
    /// The version byte is not the supported version.
    InvalidVersion,
    /// A decoded field lies outside the values it may take.
    InvalidValue,
    /// Decompression failed.
    IoError(std::io::Error),
    /// A varint does not terminate within ten bytes.
    VarintOverflowError,
    /// A tile address lies beyond the supported zoom levels.
    TooHighZIndex,
    /// The input ended in the middle of a value.
    UnexpectedEnd,
    /// A byte range lies outside the archive.
    OutOfBounds,
    /// The region uses a compression codec that this reader does not decode.
    UnsupportedCompression,
    /// A directory entry points into a leaf directory.
    LeafDirectoryUnsupported,
}

impl From<std::io::Error> for ParseError {
    fn from(value: std::io::Error) -> (r: ParseError) {
        ParseError::IoError(value)
    }
}

impl vstd::std_specs::convert::FromSpecImpl<std::io::Error> for ParseError {
    open spec fn obeys_from_spec() -> bool {
        true
    }

    open spec fn from_spec(v: std::io::Error) -> ParseError {
        ParseError::IoError(v)
    }
}

} // verus!
