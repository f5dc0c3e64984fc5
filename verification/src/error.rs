//! The error taxonomy of the library.

use vstd::prelude::*;

verus! {

/// Reasons a protobuf message fails to decode.
#[derive(Clone, Copy, Debug, PartialEq, Eq)]
pub enum WireFault {
    /// The message ended in the middle of a field.
    Truncated,
    /// A varint ran past ten bytes or past the range of a 64-bit value.
    InvalidVarint,
    /// A field key carried field number zero, an unsupported wire type, or a
    /// wire type that does not fit the field.
    InvalidKey,
    /// A length-delimited field promised more bytes than the message holds.
    BadLength,
    /// A string field held bytes that are not valid UTF-8.
    InvalidUtf8,
}

/// Reasons reading from the input stream fails.
#[derive(Debug, PartialEq, Eq)]
pub enum IoFault {
    /// The stream ended before the expected number of bytes arrived.
    UnexpectedEof,
    /// The underlying reader reported an error, rendered as text.
    Stream(String),
}

/// A violated assumption in decoded data, scoped as narrowly as possible:
/// a single tag pair or dense node fails without aborting surrounding
/// iteration, except the dense id/lat/lon length check, which fails the
/// whole stream at construction.
#[derive(Clone, Copy, Debug, PartialEq, Eq)]
#[allow(inconsistent_fields)]
pub enum LogicFault {
    /// The id/lat/lon columns of a dense node section differ in length.
    LengthMismatch { id_count: usize, lat_count: usize, lon_count: usize },
    /// A string-table index points past the end of the table.
    IndexOutOfBounds { index: usize, table_len: usize },
    /// The referenced string-table entry is not valid UTF-8.
    InvalidUtf8 { index: usize },
    /// A packed key/value index is negative.
    InvalidIndex { index: i32 },
    /// Delta decoding `user_sid` left the range of an unsigned 32-bit index.
    UserSidOutOfRange { current: u32, delta: i32 },
}

/// Possible errors returned by [Decompressor](crate::Decompressor) implementations.
#[derive(Debug, PartialEq, Eq)]
pub enum DecompressionError {
    /// The given compression method isn't supported by the decompressor.
    UnsupportedCompression,
    /// An internal error occured during decompression, rendered as text.
    InternalError(String),
}

/// Possible errors returned by the library.
#[derive(Debug, PartialEq, Eq)]
pub enum Error {
    /// Returned when a PBF parse error has occured.
    PbfParseError(WireFault),
    /// Returned when reading from the input stream has failed.
    IoError(IoFault),
    /// Returned when a blob header with an invalid size (negative or >=64 KB) is encountered.
    InvalidBlobHeader,
    /// Returned when blob data with an invalid size (negative or >=32 MB) is encountered.
    InvalidBlobData,
    /// Returned when an error has occured during blob decompression.
    DecompressionError(DecompressionError),
    /// Returned when some assumption in the data is violated (for example, an
    /// out of bounds index is encountered).
    LogicError(LogicFault),
}

} // verus!
