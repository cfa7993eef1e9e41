use vstd::prelude::*;

verus! {

/// Why reading an archive or extracting from it failed.
#[derive(Clone, Copy, Debug, PartialEq, Eq, Structural)]
pub enum Error {
    /// Fewer bytes remain in the input than a field requires.
    TruncatedInput,
    /// A structural invariant does not hold: two tables that must have the
    /// same number of entries differ, or a text field is not valid UTF-8.
    DecodeError,
    /// The container does not start with the magic tag of the format.
    InvalidFormat,
    /// The container holds no pack with the content hash of the requested pack.
    PackNotFound,
    /// An entry declares a compressed or uncompressed size above the ceiling.
    OversizedField,
    /// An entry carries a compression tag that is not recognised.
    UnsupportedCompression,
    /// The decompressor did not produce exactly the declared number of bytes.
    DecompressionFailed,
}

} // verus!
