//! The kinds of failure that the library reports.

use vstd::prelude::*;

verus! {

/// What went wrong.
#[derive(Clone, Copy, Debug, PartialEq, Eq, Structural)]
pub enum Error {
    /// The data source failed or delivered fewer bytes than asked for.
    IoError,
    /// The file does not start with the container's magic bytes.
    InvalidHeader,
    /// The file's format version is not one this library reads.
    UnsupportedVersion,
    /// A field of the header holds a value outside its range.
    InvalidField,
    /// A block index or tile index is malformed or inconsistent.
    CorruptIndex,
    /// A vector tile could not be decoded.
    DecodeError,
    /// A compressor or decompressor failed.
    CompressionError,
    /// A target compression admits no codec at all.
    NoCompressionAllowed,
    /// A data row lacks the column that holds the join key.
    MissingCsvKey,
    /// A feature lacks the property that holds the join key.
    MissingIdField,
    /// A tile coordinate lies outside the grid of its zoom level.
    CoordOutOfRange,
    /// A configuration is malformed or names an unknown parameter.
    InvalidConfig,
    /// A JSON text is malformed.
    JsonError,
}

} // verus!
