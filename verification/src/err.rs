//! Error taxonomy for region-file and NBT decoding.
//!
//! Every malformed input is surfaced as a typed error; no decoder in
//! this crate panics on bad bytes.
use vstd::prelude::*;

verus! {

/// The ways a region-file or NBT decode can fail.
#[derive(Clone, Copy, Debug, PartialEq, Eq, Structural)]
pub enum DecodeError {
    /// A short read: the byte source ends before the fixed-size region
    /// header, or the compressed payload cannot be inflated.
    IoError,
    /// The compression-type byte of a chunk payload is outside the set
    /// the format defines (1 = gzip, 2 = zlib, 3 = uncompressed).
    UnknownCompressionType,
    /// A compression type the format defines but this decoder does not
    /// implement (gzip and uncompressed payloads).
    UnsupportedCompressionType,
    /// An NBT type id outside the defined range, carried in the error.
    UnknownTagType(u8),
    /// A name or string payload is not valid UTF-8.
    InvalidUtf8,
    /// A length field points past the end of the available bytes.
    TruncatedInput,
    /// Every entry of the chunk-location table marks its chunk absent.
    EmptyLocationTable,
}

} // verus!
