use miamic::constants::{CHECKSUM_AT, FILE_SIZE};
use miamic::enums::{SaveError, SaveType};
use miamic::libs::{
    blocks_in_bounds, calculate_checksum, checksum_is_valid, find_save_type, generate_block_info,
    Block,
};
use miamic::savefile::SaveFile;

fn put_le32(buf: &mut [u8], at: usize, v: u32) {
    buf[at..at + 4].copy_from_slice(&v.to_le_bytes());
}

fn le32(buf: &[u8], at: usize) -> u32 {
    u32::from_le_bytes([buf[at], buf[at + 1], buf[at + 2], buf[at + 3]])
}

fn stored(buf: &[u8]) -> u32 {
    u32::from_be_bytes([buf[CHECKSUM_AT], buf[CHECKSUM_AT + 1], buf[CHECKSUM_AT + 2], buf[CHECKSUM_AT + 3]])
}

fn seal(buf: &mut [u8]) {
    let c = calculate_checksum(&buf[..CHECKSUM_AT]);
    buf[CHECKSUM_AT..].copy_from_slice(&c.to_be_bytes());
}

/// A save with 23 blocks: block 0 of `size0` bytes, block 1 of `size1` bytes,
/// then 21 blocks of 0x400 bytes, followed by an anchor length of 0x1000.
/// Data bytes are a pattern of their offset; the checksum is valid.
fn synthetic(size0: u32, size1: u32, marker: u8) -> Vec<u8> {
    let mut buf = vec![0u8; FILE_SIZE];
    for (i, b) in buf.iter_mut().enumerate() {
        *b = (i * 7 % 251) as u8;
    }
    let mut offset = 0usize;
    for i in 0..23 {
        let size = match i {
            0 => size0,
            1 => size1,
            _ => 0x400,
        };
        put_le32(&mut buf, offset, size);
        offset += 4 + size as usize;
    }
    if offset + 4 <= FILE_SIZE {
        put_le32(&mut buf, offset, 0x1000);
    }
    buf[0x58] = marker;
    seal(&mut buf);
    buf
}

fn retail() -> Vec<u8> {
    synthetic(0x100, 0x0708, 0xE8)
}

fn last_end(size0: u32, size1: u32) -> usize {
    4 * 23 + size0 as usize + size1 as usize + 21 * 0x400
}

#[test]
fn block_table_of_a_well_formed_save() {
    let buf = retail();
    assert!(blocks_in_bounds(&buf));
    let blocks = generate_block_info(&buf);
    assert_eq!(blocks.len(), 23);
    assert_eq!((blocks[0].index, blocks[0].size, blocks[0].end), (4, 0x100, 0x104));
    assert_eq!((blocks[1].index, blocks[1].size, blocks[1].end), (0x108, 0x0708, 0x810));
    assert_eq!(blocks[2].index, 0x814);
    for b in blocks.iter() {
        assert!(b.index <= b.end && b.end <= buf.len());
        assert_eq!(b.end, b.index + b.size as usize);
    }
    assert_eq!(blocks[22].end, last_end(0x100, 0x0708));
}

#[test]
fn block_chain_running_past_the_end_is_detected() {
    let mut buf = retail();
    put_le32(&mut buf, 0, 0x4_0000);
    assert!(!blocks_in_bounds(&buf));
    assert!(!blocks_in_bounds(&[1, 0, 0]));
}

#[test]
fn checksum_round_trip() {
    let data: Vec<u8> = (0..1000u32).map(|i| (i * 13 % 256) as u8).collect();
    assert_eq!(checksum_is_valid(&data, calculate_checksum(&data)), Ok(()));
    assert_eq!(checksum_is_valid(&[], calculate_checksum(&[])), Ok(()));
}

#[test]
fn checksum_is_the_byte_swapped_sum() {
    assert_eq!(calculate_checksum(&[]), 0);
    assert_eq!(calculate_checksum(&[1, 2, 3]), 0x0600_0000);
    assert_eq!(calculate_checksum(&[0xFF, 0xFF]), 0xFE01_0000);
    let big = vec![0xFFu8; 0x31460];
    // 0x31460 * 0xFF = 0x0311_4BA0
    assert_eq!(calculate_checksum(&big), 0xA04B_1103);
}

#[test]
fn checksum_mismatch_returns_the_computed_value() {
    assert_eq!(checksum_is_valid(&[1, 2, 3], 5), Err(0x0600_0000));
}

fn blocks_with_size1(size1: u32) -> [Block; 23] {
    let mut blocks = [Block::new(); 23];
    blocks[1].size = size1;
    blocks
}

#[test]
fn classification_by_block_one_and_marker() {
    let mut data = vec![0u8; 0x100];
    data[0x58] = 0xE8;
    assert_eq!(find_save_type(&data, &blocks_with_size1(0x0708)), SaveType::Retail);
    data[0x58] = 0xFD;
    assert_eq!(find_save_type(&data, &blocks_with_size1(0x0708)), SaveType::Steam);
    data[0x58] = 0x12;
    assert_eq!(find_save_type(&data, &blocks_with_size1(0x0708)), SaveType::Unknown);
    for marker in [0xE8u8, 0xFD, 0x00] {
        data[0x58] = marker;
        assert_eq!(find_save_type(&data, &blocks_with_size1(0x0764)), SaveType::Android);
        assert_eq!(find_save_type(&data, &blocks_with_size1(0x075C)), SaveType::IOS);
        assert_eq!(find_save_type(&data, &blocks_with_size1(0x0700)), SaveType::Unknown);
    }
}

#[test]
fn load_reads_type_blocks_and_checksum() {
    let buf = retail();
    let stored = u32::from_be_bytes([buf[CHECKSUM_AT], buf[CHECKSUM_AT + 1], buf[CHECKSUM_AT + 2], buf[CHECKSUM_AT + 3]]);
    let save = SaveFile::new("GTAVCsf1.b", buf.clone()).unwrap();
    assert_eq!(save.save_type, SaveType::Retail);
    assert_eq!(save.checksum, stored);
    assert_eq!(save.file, buf);
    assert_eq!(save.save_location, "GTAVCsf1.b");
    assert_eq!(save.blocks[1].size, 0x0708);
    let steam = SaveFile::new("s", synthetic(0x100, 0x0708, 0xFD)).unwrap();
    assert_eq!(steam.save_type, SaveType::Steam);
}

#[test]
fn load_rejects_a_short_file() {
    let mut buf = retail();
    buf.pop();
    let r = SaveFile::new("x", buf);
    assert_eq!(r.err(), Some(SaveError::SizeMismatch { expected: FILE_SIZE, found: FILE_SIZE - 1 }));
}

#[test]
fn load_rejects_a_corrupted_checksum() {
    let mut buf = retail();
    let good = calculate_checksum(&buf[..CHECKSUM_AT]);
    buf[FILE_SIZE - 1] ^= 0x55;
    let stored = good ^ 0x55;
    let r = SaveFile::new("x", buf);
    assert_eq!(r.err(), Some(SaveError::ChecksumMismatch { stored, computed: good }));
}

#[test]
fn load_rejects_blocks_past_the_end() {
    let mut buf = retail();
    put_le32(&mut buf, 0, 0x4_0000);
    seal(&mut buf);
    let r = SaveFile::new("x", buf);
    assert_eq!(r.err(), Some(SaveError::BlocksOutOfRange));
}

#[test]
fn retail_to_steam_layout() {
    let buf = retail();
    let e = last_end(0x100, 0x0708);
    let mut save = SaveFile::new("x", buf.clone()).unwrap();
    assert_eq!(save.convert_save(), Ok(()));
    let out = &save.file;
    assert_eq!(out.len(), FILE_SIZE);
    assert_eq!(&out[0x58..0x5C], &[0xFD, 0, 0, 0]);
    assert_eq!(le32(out, 0), 0x104);
    assert_eq!(&out[4..0x58], &buf[4..0x58]);
    assert_eq!(&out[0x5C..e + 4], &buf[0x58..e]);
    assert_eq!(le32(out, e + 4), 0x1000 - 4);
    assert_eq!(checksum_is_valid(&out[..CHECKSUM_AT], stored(out)), Ok(()));
    let reloaded = SaveFile::new("x", out.clone()).unwrap();
    assert_eq!(reloaded.save_type, SaveType::Steam);
    assert_eq!(reloaded.blocks[22].end, e + 4);
}

#[test]
fn retail_steam_retail_round_trip() {
    let buf = retail();
    let mut save = SaveFile::new("x", buf.clone()).unwrap();
    assert_eq!(save.convert_save(), Ok(()));
    let mut steam = SaveFile::new("x", save.file.clone()).unwrap();
    assert_eq!(steam.save_type, SaveType::Steam);
    assert_eq!(steam.convert_save(), Ok(()));
    let back = SaveFile::new("x", steam.file.clone()).unwrap();
    assert_eq!(back.save_type, SaveType::Retail);
    assert_eq!(back.file.len(), FILE_SIZE);
    // the Steam file's checksum lands in the four bytes before the checksum field
    assert_eq!(&back.file[..FILE_SIZE - 8], &buf[..FILE_SIZE - 8]);
}

#[test]
fn unsupported_variants_are_left_alone() {
    for (size1, t) in [(0x0764u32, SaveType::Android), (0x075C, SaveType::IOS), (0x0708, SaveType::Unknown)] {
        let buf = synthetic(0x100, size1, 0x33);
        let mut save = SaveFile::new("x", buf.clone()).unwrap();
        assert_eq!(save.save_type, t);
        assert_eq!(save.convert_save(), Err(SaveError::UnsupportedVariant(t)));
        assert_eq!(save.file, buf);
    }
}

#[test]
fn conversion_past_the_end_is_refused() {
    // block 22 reaches into the checksum field, leaving no room for the anchor
    let e = last_end(0x100, 0x0708);
    let size0 = 0x100 + (FILE_SIZE - 2 - e) as u32;
    let buf = synthetic(size0, 0x0708, 0xE8);
    let mut save = SaveFile::new("x", buf.clone()).unwrap();
    assert_eq!(save.blocks[22].end, FILE_SIZE - 2);
    assert_eq!(save.convert_save(), Err(SaveError::ConversionNotSupported));
    assert_eq!(save.file, buf);
}

#[test]
fn export_writes_the_checksum() {
    let mut save = SaveFile::new("x", retail()).unwrap();
    let loaded = save.checksum;
    save.file[0x200] ^= 1;
    save.export();
    let c = calculate_checksum(&save.file[..CHECKSUM_AT]);
    assert_eq!(&save.file[CHECKSUM_AT..], &c.to_be_bytes());
    assert_eq!(stored(&save.file), c);
    assert_ne!(c, loaded);
    assert_eq!(save.checksum, loaded);
    assert!(SaveFile::new("x", save.file.clone()).is_ok());
}

#[test]
fn steam_to_retail_layout() {
    let buf = synthetic(0x104, 0x0708, 0xFD);
    let e = last_end(0x104, 0x0708);
    let mut save = SaveFile::new("x", buf.clone()).unwrap();
    assert_eq!(save.save_type, SaveType::Steam);
    assert_eq!(save.convert_save(), Ok(()));
    let out = &save.file;
    assert_eq!(out.len(), FILE_SIZE);
    assert_eq!(le32(out, 0), 0x100);
    assert_eq!(&out[4..0x58], &buf[4..0x58]);
    assert_eq!(&out[0x58..e - 4], &buf[0x5C..e]);
    assert_eq!(le32(out, e - 4), 0x1000 + 4);
    assert_eq!(&out[FILE_SIZE - 8..FILE_SIZE - 4], &buf[FILE_SIZE - 4..]);
    assert_eq!(checksum_is_valid(&out[..CHECKSUM_AT], stored(out)), Ok(()));
}

#[test]
fn block_table_needs_only_the_prefixes() {
    // 23 empty blocks, except the last, whose data runs past the buffer
    let mut buf = vec![0u8; 4 * 23];
    put_le32(&mut buf, 4 * 22, 100);
    assert!(!blocks_in_bounds(&buf));
    let blocks = generate_block_info(&buf);
    for (i, b) in blocks.iter().enumerate().take(22) {
        assert_eq!((b.index, b.size, b.end), (4 * i + 4, 0, 4 * i + 4));
    }
    assert_eq!((blocks[22].index, blocks[22].size, blocks[22].end), (4 * 23, 100, 4 * 23 + 100));
}
