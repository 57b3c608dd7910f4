use vstd::prelude::*;

verus! {

/// The platform a save file was written by.
#[derive(Debug, Clone, Copy, PartialEq, Eq, Structural)]
pub enum SaveType {
    Unknown,
    Retail,
    Steam,
    Android,
    IOS,
}

/// Why a save could not be loaded or converted.
#[derive(Debug, Clone, Copy, PartialEq, Eq, Structural)]
pub enum SaveError {
    /// The file is not `expected` bytes long.
    SizeMismatch { expected: usize, found: usize },
    /// The checksum stored in the file differs from the one computed over its data.
    ChecksumMismatch { stored: u32, computed: u32 },
    /// The chain of length-prefixed blocks runs past the end of the file.
    BlocksOutOfRange,
    /// Only Retail and Steam saves can be converted.
    UnsupportedVariant(SaveType),
    /// The offsets that conversion would touch lie outside the file.
    ConversionNotSupported,
}

} // verus!
