use vstd::prelude::*;
use vstd::slice::slice_subrange;

use crate::bytes::{
    be_bytes_u32, be_u32_at, le_bytes_u16, le_bytes_u32, le_u32_at, overwritten, read_u32_be,
    read_u32_le, write_u16_le, write_u32_be, write_u32_le,
};
use crate::constants::{CHECKSUM_AT, FILE_SIZE, MARKER_AT};
use crate::enums::{SaveError, SaveType};
use crate::libs::{
    block_size, blocks_fit, blocks_in_bounds, calculate_checksum, checksum_is_valid, checksum_of,
    classify, find_save_type, generate_block_info, located, Block,
};

verus! {

/// The checksum stored in the last four bytes of `s`.
pub open spec fn stored_checksum(s: Seq<u8>) -> u32 {
    be_u32_at(s, CHECKSUM_AT as int) as u32
}

/// The bytes that the checksum covers.
pub open spec fn data_region(s: Seq<u8>) -> Seq<u8> {
    s.take(CHECKSUM_AT as int)
}

/// `s` with the checksum of its data written into its last four bytes.
pub open spec fn with_checksum(s: Seq<u8>) -> Seq<u8> {
    overwritten(s, CHECKSUM_AT as int, be_bytes_u32(checksum_of(data_region(s))))
}

/// The four bytes that a Steam save holds at the marker offset and a Retail
/// save lacks.
pub open spec fn steam_marker() -> Seq<u8> {
    seq![0xFDu8, 0u8, 0u8, 0u8]
}

/// A Retail save turned into a Steam one, before its checksum is redone.
/// `size0` is block 0's size and `last_end` the end of the last block, both as
/// found before the change.
pub open spec fn retail_to_steam(s: Seq<u8>, size0: u32, last_end: int) -> Seq<u8> {
    let grown = s.take(MARKER_AT as int) + steam_marker() + s.skip(MARKER_AT as int);
    let sized = overwritten(grown, 0, le_bytes_u16((((size0 % 65536) + 4) % 65536) as u16));
    let at = last_end + 4;
    let anchor = ((le_u32_at(sized, at) - 4) % 0x1_0000_0000) as u32;
    overwritten(sized, at, le_bytes_u32(anchor)).take(s.len() as int)
}

/// A Steam save turned into a Retail one, before its checksum is redone.
pub open spec fn steam_to_retail(s: Seq<u8>, size0: u32, last_end: int) -> Seq<u8> {
    let shrunk = s.take(MARKER_AT as int) + s.skip(MARKER_AT + 4);
    let sized = overwritten(shrunk, 0, le_bytes_u16((((size0 % 65536) + 65532) % 65536) as u16));
    let at = last_end - 4;
    let anchor = ((le_u32_at(sized, at) + 4) % 0x1_0000_0000) as u32;
    overwritten(sized, at, le_bytes_u32(anchor)) + seq![0u8, 0u8, 0u8, 0u8]
}

/// Whether the offsets that converting a save of type `t` touches lie inside
/// the file, given the end of its last block.
pub open spec fn conversion_fits(t: SaveType, last_end: int) -> bool {
    match t {
        SaveType::Retail => last_end + 4 <= FILE_SIZE,
        SaveType::Steam => 4 <= last_end <= FILE_SIZE - 4,
        _ => true,
    }
}

/// Retail to Steam on the bytes alone.
fn insert_marker(file: &mut Vec<u8>, size0: u32, last_end: usize)
    requires
        old(file)@.len() == FILE_SIZE,
        last_end + 4 <= FILE_SIZE,
    ensures
        final(file)@ == retail_to_steam(old(file)@, size0, last_end as int),
        final(file)@.len() == FILE_SIZE,
{
    let ghost start = file@;
    file.insert(MARKER_AT, 0xFD);
    file.insert(MARKER_AT + 1, 0x00);
    file.insert(MARKER_AT + 2, 0x00);
    file.insert(MARKER_AT + 3, 0x00);
    let ghost grown = start.take(MARKER_AT as int) + steam_marker() + start.skip(MARKER_AT as int);
    assert(file@ =~= grown);
    // block 0 holds the marker, so its size grows with it
    let new_block_0_size: u16 = ((size0 % 65536) as u16).wrapping_add(4);
    assert(new_block_0_size == (((size0 % 65536) + 4) % 65536) as u16);
    write_u16_le(file, 0, new_block_0_size);
    let ghost sized = file@;
    let last_block_index: usize = last_end + 4;
    let last_block_size: u32 = read_u32_le(file.as_slice(), last_block_index).wrapping_sub(4);
    write_u32_le(file, last_block_index, last_block_size);
    let ghost anchored = file@;
    // the old checksum has moved past the fixed length: drop it
    file.pop();
    file.pop();
    file.pop();
    file.pop();
    assert(file@ =~= anchored.take(FILE_SIZE as int));
}

/// Steam to Retail on the bytes alone.
fn remove_marker(file: &mut Vec<u8>, size0: u32, last_end: usize)
    requires
        old(file)@.len() == FILE_SIZE,
        4 <= last_end <= FILE_SIZE - 4,
    ensures
        final(file)@ == steam_to_retail(old(file)@, size0, last_end as int),
        final(file)@.len() == FILE_SIZE,
{
    let ghost start = file@;
    file.remove(MARKER_AT);
    file.remove(MARKER_AT);
    file.remove(MARKER_AT);
    file.remove(MARKER_AT);
    let ghost shrunk = start.take(MARKER_AT as int) + start.skip(MARKER_AT + 4);
    assert(file@ =~= shrunk);
    // block 0 held the marker, so its size shrinks with it
    let new_block_0_size: u16 = ((size0 % 65536) as u16).wrapping_sub(4);
    assert(new_block_0_size == (((size0 % 65536) + 65532) % 65536) as u16);
    write_u16_le(file, 0, new_block_0_size);
    let ghost sized = file@;
    assert(sized == overwritten(shrunk, 0, le_bytes_u16((((size0 % 65536) + 65532) % 65536) as u16)));
    let last_block_index: usize = last_end - 4;
    let last_block_size: u32 = read_u32_le(file.as_slice(), last_block_index).wrapping_add(4);
    write_u32_le(file, last_block_index, last_block_size);
    let ghost anchored = file@;
    // pad back to the fixed length; the checksum goes there
    file.push(0);
    file.push(0);
    file.push(0);
    file.push(0);
    assert(file@ =~= anchored + seq![0u8, 0u8, 0u8, 0u8]);
}

/// A loaded save: its bytes and what was read from them when it was loaded.
#[derive(Debug)]
pub struct SaveFile {
    pub checksum: u32,
    pub save_type: SaveType,
    pub file: Vec<u8>,
    pub blocks: [Block; 23],
    pub save_location: String,
}

impl SaveFile {
    /// Checks `file`, the contents of the save at `save_path`, and reads its
    /// block table and platform.
    pub fn new(save_path: &str, file: Vec<u8>) -> (r: Result<SaveFile, SaveError>)
        ensures
            file@.len() != FILE_SIZE ==> r == Err::<SaveFile, SaveError>(
                SaveError::SizeMismatch { expected: FILE_SIZE, found: file@.len() as usize },
            ),
            file@.len() == FILE_SIZE && stored_checksum(file@) != checksum_of(data_region(file@))
                ==> r == Err::<SaveFile, SaveError>(
                SaveError::ChecksumMismatch {
                    stored: stored_checksum(file@),
                    computed: checksum_of(data_region(file@)),
                },
            ),
            file@.len() == FILE_SIZE && stored_checksum(file@) == checksum_of(data_region(file@))
                && !blocks_fit(file@) ==> r == Err::<SaveFile, SaveError>(
                SaveError::BlocksOutOfRange,
            ),
            file@.len() == FILE_SIZE && stored_checksum(file@) == checksum_of(data_region(file@))
                && blocks_fit(file@) ==> {
                &&& r is Ok
                &&& r->Ok_0.file@ == file@
                &&& r->Ok_0.checksum == stored_checksum(file@)
                &&& located(r->Ok_0.blocks@, file@)
                &&& r->Ok_0.save_type == classify(block_size(file@, 1) as u32, file@[0x58])
                &&& r->Ok_0.save_location@ == save_path@
            },
    {
        if file.len() != FILE_SIZE {
            return Err(SaveError::SizeMismatch { expected: FILE_SIZE, found: file.len() });
        }
        let stored = read_u32_be(file.as_slice(), CHECKSUM_AT);
        let data = slice_subrange(file.as_slice(), 0, CHECKSUM_AT);
        assert(data@ == data_region(file@));
        if let Err(computed) = checksum_is_valid(data, stored) {
            return Err(SaveError::ChecksumMismatch { stored, computed });
        }
        if !blocks_in_bounds(file.as_slice()) {
            return Err(SaveError::BlocksOutOfRange);
        }
        proof {
            crate::libs::lemma_fit_blocks_are_readable(file@);
        }
        let blocks = generate_block_info(file.as_slice());
        assert(blocks@[1].index == crate::libs::block_index(file@, 1));
        assert(blocks@[1].size == block_size(file@, 1));
        let save_type = find_save_type(file.as_slice(), blocks.as_slice());
        let checksum = calculate_checksum(data);
        Ok(SaveFile { checksum, save_type, file, blocks, save_location: save_path.to_owned() })
    }

    fn overwrite_checksum(&mut self, new_checksum: u32)
        requires
            old(self).file@.len() == FILE_SIZE,
        ensures
            final(self).file@ == overwritten(
                old(self).file@,
                CHECKSUM_AT as int,
                be_bytes_u32(new_checksum),
            ),
            final(self).checksum == old(self).checksum,
            final(self).save_type == old(self).save_type,
            final(self).blocks == old(self).blocks,
            final(self).save_location == old(self).save_location,
    {
        write_u32_be(&mut self.file, CHECKSUM_AT, new_checksum);
    }

    /// Writes the checksum of the current data into the last four bytes, so
    /// that `file` is ready to be stored. The `checksum` field keeps the value
    /// read at load time.
    pub fn export(&mut self)
        requires
            old(self).file@.len() == FILE_SIZE,
        ensures
            final(self).file@ == with_checksum(old(self).file@),
            final(self).file@.len() == FILE_SIZE,
            final(self).checksum == old(self).checksum,
            final(self).save_type == old(self).save_type,
            final(self).blocks == old(self).blocks,
            final(self).save_location == old(self).save_location,
    {
        let data = slice_subrange(self.file.as_slice(), 0, CHECKSUM_AT);
        assert(data@ == data_region(self.file@));
        let new_checksum = calculate_checksum(data);
        self.overwrite_checksum(new_checksum);
    }

    /// Turns a Retail save into a Steam one or the reverse, then writes the
    /// checksum of the new data into the buffer. The `checksum` field, block
    /// table and platform are left as they were read at load time.
    pub fn convert_save(&mut self) -> (r: Result<(), SaveError>)
        requires
            old(self).file@.len() == FILE_SIZE,
        ensures
            !(old(self).save_type is Retail || old(self).save_type is Steam) ==> {
                &&& r == Err::<(), SaveError>(SaveError::UnsupportedVariant(old(self).save_type))
                &&& *final(self) == *old(self)
            },
            (old(self).save_type is Retail || old(self).save_type is Steam) && !conversion_fits(
                old(self).save_type,
                old(self).blocks[22].end as int,
            ) ==> {
                &&& r == Err::<(), SaveError>(SaveError::ConversionNotSupported)
                &&& *final(self) == *old(self)
            },
            old(self).save_type is Retail && conversion_fits(
                old(self).save_type,
                old(self).blocks[22].end as int,
            ) ==> {
                &&& r is Ok
                &&& final(self).file@ == with_checksum(
                    retail_to_steam(
                        old(self).file@,
                        old(self).blocks[0].size,
                        old(self).blocks[22].end as int,
                    ),
                )
            },
            old(self).save_type is Steam && conversion_fits(
                old(self).save_type,
                old(self).blocks[22].end as int,
            ) ==> {
                &&& r is Ok
                &&& final(self).file@ == with_checksum(
                    steam_to_retail(
                        old(self).file@,
                        old(self).blocks[0].size,
                        old(self).blocks[22].end as int,
                    ),
                )
            },
            r is Ok ==> {
                &&& final(self).file@.len() == FILE_SIZE
                &&& final(self).checksum == old(self).checksum
                &&& final(self).save_type == old(self).save_type
                &&& final(self).blocks == old(self).blocks
                &&& final(self).save_location == old(self).save_location
            },
    {
        let last_end: usize = self.blocks[22].end;
        match self.save_type {
            SaveType::Steam => {
                if last_end < 4 || last_end > FILE_SIZE - 4 {
                    return Err(SaveError::ConversionNotSupported);
                }
                remove_marker(&mut self.file, self.blocks[0].size, last_end);
            },
            SaveType::Retail => {
                if last_end > FILE_SIZE - 4 {
                    return Err(SaveError::ConversionNotSupported);
                }
                insert_marker(&mut self.file, self.blocks[0].size, last_end);
            },
            _ => {
                return Err(SaveError::UnsupportedVariant(self.save_type));
            },
        }
        self.export();
        Ok(())
    }
}

} // verus!
