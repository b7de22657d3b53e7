use vstd::prelude::*;

verus! {

/// Why the payload container was rejected by the header parser.
#[derive(Clone, Copy, PartialEq, Eq, Structural, Debug)]
pub enum ParseError {
    /// Fewer bytes than the fixed header needs.
    TooShort,
    /// The leading four bytes are not the payload magic.
    BadMagic,
    /// The format version is not 1 or 2.
    UnsupportedVersion,
    /// The declared manifest or signature size exceeds its cap.
    SizeOutOfRange,
    /// The header size plus the declared region sizes does not fit in 64 bits.
    Overflow,
    /// The buffer ends before the declared regions do.
    Truncated,
}

/// What made a manifest unusable.
#[derive(Clone, Copy, PartialEq, Eq, Structural, Debug)]
pub enum ManifestFault {
    /// A field the extraction needs is absent.
    MissingField,
    /// `start_block + num_blocks`, or a block-to-byte conversion, overflows.
    Overflow,
    /// An extent reaches past the declared partition size.
    OutOfBounds,
    /// Two destination extents overlap; the values are indices into the
    /// partition's flattened extent list.
    Overlap(usize, usize),
    /// The stream an operation writes does not fill its extents to a block
    /// boundary.
    SizeMismatch,
    /// An operation carries a type value the format does not define.
    UnknownOp,
    /// The manifest declares no block size.
    NoBlockSize,
    /// A selected partition names no output size.
    NoSize,
}

/// Why extraction failed.
#[derive(Clone, Copy, PartialEq, Eq, Structural, Debug)]
pub enum ExtractError {
    /// The container header was rejected.
    BadInput(ParseError),
    /// The manifest bytes or an operation's compressed input cannot be decoded,
    /// or the block size is out of range or not a power of two.
    Corrupt,
    /// The manifest's extents or fields are unusable.
    InvalidManifest(ManifestFault),
    /// An operation uses a delta/patch type; the value is the wire value of
    /// that operation type.
    UnsupportedIncremental(u64),
    /// A declared SHA-256 hash does not match the bytes it covers.
    HashMismatch,
    /// Strict mode requires a hash that the manifest does not carry.
    MissingHash,
    /// The output image is all zeros although sanity checks are on.
    SanityFailed,
    /// A size does not fit the machine's address range.
    Io,
    /// Extraction was interrupted.
    Cancelled,
    /// The requested options contradict each other or name unknown partitions.
    ConfigError,
}

} // verus!
