use vstd::prelude::*;

verus! {

/// Every save file is exactly this many bytes long.
pub const FILE_SIZE: usize = 0x31464;

/// Offset of the big-endian checksum in the last four bytes of the file.
pub const CHECKSUM_AT: usize = 0x31460;

/// Number of length-prefixed blocks at the front of the file.
pub const BLOCK_COUNT: usize = 23;

/// Offset of the byte that tells Retail and Steam saves apart, and where the
/// Steam marker starts.
pub const MARKER_AT: usize = 0x58;

} // verus!
