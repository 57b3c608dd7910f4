use vstd::prelude::*;

use crate::bytes::{le_bytes_u32, be_u32_at, le_u32_at, read_u32_be, read_u32_le, write_u32_le};
use crate::constants::BLOCK_COUNT;
use crate::enums::SaveType;

verus! {

/// Where one block's data lies in the file.
#[derive(Debug, Clone, Copy)]
pub struct Block {
    /// Offset of the first data byte, just after the length prefix.
    pub index: usize,
    pub size: u32,
    /// Offset just past the last data byte.
    pub end: usize,
}

impl Block {
    pub fn new() -> (r: Block)
        ensures
            r.index == 0 && r.size == 0 && r.end == 0,
    {
        Block { index: 0, size: 0, end: 0 }
    }
}

// ----- checksum -----

/// The sum of all bytes of `s`.
pub open spec fn byte_sum(s: Seq<u8>) -> nat
    decreases s.len(),
{
    if s.len() == 0 {
        0
    } else {
        byte_sum(s.drop_last()) + s.last() as nat
    }
}

/// The checksum of `s`: the byte sum kept to 32 bits, laid out least
/// significant byte first and read back most significant byte first.
#[verifier::opaque]
pub open spec fn checksum_of(s: Seq<u8>) -> u32 {
    be_u32_at(le_bytes_u32((byte_sum(s) % 0x1_0000_0000) as u32), 0) as u32
}

pub fn calculate_checksum(data: &[u8]) -> (r: u32)
    ensures
        r == checksum_of(data@),
{
    let mut sum: u32 = 0;
    let mut i: usize = 0;
    while i < data.len()
        invariant
            i <= data@.len(),
            sum as nat == byte_sum(data@.take(i as int)) % 0x1_0000_0000,
        decreases data@.len() - i,
    {
        proof {
            assert(data@.take(i as int + 1).drop_last() =~= data@.take(i as int));
        }
        sum = sum.wrapping_add(data[i] as u32);
        i = i + 1;
    }
    proof {
        assert(data@.take(data@.len() as int) =~= data@);
    }
    proof {
        reveal(checksum_of);
    }
    let mut out: Vec<u8> = vec![0u8, 0u8, 0u8, 0u8];
    write_u32_le(&mut out, 0, sum);
    read_u32_be(out.as_slice(), 0)
}

/// Whether `checksum` is the checksum of `data`.
pub open spec fn checksum_matches(data: Seq<u8>, checksum: u32) -> bool {
    checksum == checksum_of(data)
}

/// `Ok` when `checksum` is the checksum of `data`; otherwise the computed
/// checksum comes back as the error.
pub fn checksum_is_valid(data: &[u8], checksum: u32) -> (r: Result<(), u32>)
    ensures
        r is Ok <==> checksum_matches(data@, checksum),
        checksum == checksum_of(data@) ==> r == Ok::<(), u32>(()),
        checksum != checksum_of(data@) ==> r == Err::<(), u32>(checksum_of(data@)),
{
    let calculated = calculate_checksum(data);
    if calculated == checksum {
        Ok(())
    } else {
        Err(calculated)
    }
}

// ----- block locator -----

/// Offset of the length prefix of block `i`: blocks follow each other, each
/// preceded by its four-byte little-endian length.
pub open spec fn prefix_offset(s: Seq<u8>, i: nat) -> int
    decreases i,
{
    if i == 0 {
        0
    } else {
        let p = prefix_offset(s, (i - 1) as nat);
        p + le_u32_at(s, p) + 4
    }
}

pub open spec fn block_size(s: Seq<u8>, i: nat) -> int {
    le_u32_at(s, prefix_offset(s, i))
}

pub open spec fn block_index(s: Seq<u8>, i: nat) -> int {
    prefix_offset(s, i) + 4
}

pub open spec fn block_end(s: Seq<u8>, i: nat) -> int {
    block_index(s, i) + block_size(s, i)
}

/// All blocks, prefixes and data, lie inside `s`.
pub open spec fn blocks_fit(s: Seq<u8>) -> bool {
    forall|i: nat| i < BLOCK_COUNT ==> #[trigger] block_end(s, i) <= s.len()
}

/// The length prefixes of all blocks can be read from `s`.
pub open spec fn prefixes_readable(s: Seq<u8>) -> bool {
    forall|i: nat| i < BLOCK_COUNT ==> #[trigger] prefix_offset(s, i) + 4 <= s.len()
}

/// A buffer whose blocks all fit has all its prefixes readable, and its last
/// block ends inside it.
pub proof fn lemma_fit_blocks_are_readable(s: Seq<u8>)
    requires
        blocks_fit(s),
    ensures
        prefixes_readable(s),
        block_end(s, 22) <= s.len(),
{
    assert forall|i: nat| i < BLOCK_COUNT implies #[trigger] prefix_offset(s, i) + 4 <= s.len() by {
        assert(block_end(s, i) <= s.len());
    }
    assert(block_end(s, 22) <= s.len());
}

/// `b` is block `i` of `s`.
pub open spec fn block_at(b: Block, s: Seq<u8>, i: nat) -> bool {
    &&& b.index == block_index(s, i)
    &&& b.size == block_size(s, i)
    &&& b.end == block_end(s, i)
}

/// `b` is the block table of `s`.
pub open spec fn located(b: Seq<Block>, s: Seq<u8>) -> bool {
    &&& b.len() == BLOCK_COUNT
    &&& forall|i: int|
        0 <= i < BLOCK_COUNT ==> {
            &&& #[trigger] b[i].index == block_index(s, i as nat)
            &&& b[i].size == block_size(s, i as nat)
            &&& b[i].end == block_end(s, i as nat)
        }
}

/// Whether every block of `data` lies inside it.
pub fn blocks_in_bounds(data: &[u8]) -> (r: bool)
    ensures
        r == blocks_fit(data@),
{
    let mut offset: usize = 0;
    let mut i: usize = 0;
    while i < BLOCK_COUNT
        invariant
            i <= BLOCK_COUNT,
            offset as int == prefix_offset(data@, i as nat),
            offset <= data@.len(),
            forall|j: nat| j < i ==> #[trigger] block_end(data@, j) <= data@.len(),
        decreases BLOCK_COUNT - i,
    {
        if data.len() - offset < 4 {
            assert(!(block_end(data@, i as nat) <= data@.len()));
            return false;
        }
        let size = read_u32_le(data, offset);
        if size as u64 > (data.len() - offset - 4) as u64 {
            assert(!(block_end(data@, i as nat) <= data@.len()));
            return false;
        }
        offset = offset + 4 + size as usize;
        assert(offset as int == prefix_offset(data@, (i + 1) as nat));
        i = i + 1;
    }
    true
}

/// The table of all blocks of `savefile`.
pub fn generate_block_info(savefile: &[u8]) -> (r: [Block; 23])
    requires
        prefixes_readable(savefile@),
        block_end(savefile@, 22) <= usize::MAX,
    ensures
        located(r@, savefile@),
{
    let len: usize = savefile.len();
    let mut blocks = [Block::new();23];
    let mut offset: usize = 0;
    let mut i: usize = 0;
    while i < BLOCK_COUNT
        invariant
            i <= BLOCK_COUNT,
            len == savefile@.len(),
            prefixes_readable(savefile@),
            block_end(savefile@, 22) <= usize::MAX,
            offset as int == prefix_offset(savefile@, i as nat),
            blocks@.len() == BLOCK_COUNT,
            forall|j: int| 0 <= j < i ==> #[trigger] block_at(blocks@[j], savefile@, j as nat),
        decreases BLOCK_COUNT - i,
    {
        assert(prefix_offset(savefile@, i as nat) + 4 <= savefile@.len());
        assert(block_end(savefile@, i as nat) == prefix_offset(savefile@, (i + 1) as nat));
        if i + 1 < BLOCK_COUNT {
            assert(prefix_offset(savefile@, (i + 1) as nat) + 4 <= savefile@.len());
        }
        assert(block_end(savefile@, i as nat) <= usize::MAX);
        let block_start_address: usize = offset + 4;
        let size = read_u32_le(savefile, offset);
        assert(size as int == block_size(savefile@, i as nat));
        let end: usize = block_start_address + size as usize;
        assert(end as int == block_end(savefile@, i as nat));
        blocks[i] = Block { index: block_start_address, size, end };
        offset = end;
        assert(offset as int == prefix_offset(savefile@, (i + 1) as nat));
        i = i + 1;
    }
    assert forall|j: int| 0 <= j < BLOCK_COUNT implies #[trigger] blocks@[j].index == block_index(savefile@, j as nat)
        && blocks@[j].size == block_size(savefile@, j as nat) && blocks@[j].end == block_end(savefile@, j as nat) by {
        assert(block_at(blocks@[j], savefile@, j as nat));
    }
    blocks
}

// ----- variant detector -----

/// The platform that block 1's size and the byte at the marker offset point to.
pub open spec fn classify(block1_size: u32, marker: u8) -> SaveType {
    if block1_size == 0x0708 {
        if marker == 0xE8 {
            SaveType::Retail
        } else if marker == 0xFD {
            SaveType::Steam
        } else {
            SaveType::Unknown
        }
    } else if block1_size == 0x0764 {
        SaveType::Android
    } else if block1_size == 0x075C {
        SaveType::IOS
    } else {
        SaveType::Unknown
    }
}

pub fn find_save_type(save_data: &[u8], block: &[Block]) -> (r: SaveType)
    requires
        block@.len() > 1,
        block@[1].size == 0x0708 ==> save_data@.len() > 0x58,
    ensures
        r == classify(block@[1].size, save_data@[0x58]),
{
    match block[1].size {
        0x0708 => {
            let value: u8 = save_data[0x58];
            match value {
                0xE8 => SaveType::Retail,
                0xFD => SaveType::Steam,
                _ => SaveType::Unknown,
            }
        },
        0x0764 => SaveType::Android,
        0x075C => SaveType::IOS,
        _ => SaveType::Unknown,
    }
}

} // verus!
