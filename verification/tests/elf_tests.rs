//! The ELF reader, cross-checked against an independent parser.

use sv39_kernel::elf::{parse_elf, read_le16, read_le32, read_le64};

fn store_le(bytes: &mut Vec<u8>, at: usize, width: usize, value: u64) {
    for i in 0..width {
        bytes[at + i] = ((value >> (8 * i)) & 0xFF) as u8;
    }
}

fn two_segment_elf() -> Vec<u8> {
    let mut bytes = vec![0u8; 64 + 3 * 56 + 32];
    bytes[0] = 0x7f;
    bytes[1] = 0x45;
    bytes[2] = 0x4c;
    bytes[3] = 0x46;
    bytes[4] = 2;
    store_le(&mut bytes, 24, 8, 0x1_0000);
    store_le(&mut bytes, 32, 8, 64);
    store_le(&mut bytes, 54, 2, 56);
    store_le(&mut bytes, 56, 2, 3);
    let table = 64;
    // A loadable text segment.
    store_le(&mut bytes, table, 4, 1);
    store_le(&mut bytes, table + 4, 4, 4 | 1);
    store_le(&mut bytes, table + 8, 8, 232);
    store_le(&mut bytes, table + 16, 8, 0x1_0000);
    store_le(&mut bytes, table + 32, 8, 16);
    store_le(&mut bytes, table + 40, 8, 0x1000);
    // A non-loadable note segment, skipped by the loader.
    store_le(&mut bytes, table + 56, 4, 4);
    // A loadable data segment.
    store_le(&mut bytes, table + 112, 4, 1);
    store_le(&mut bytes, table + 116, 4, 4 | 2);
    store_le(&mut bytes, table + 120, 8, 248);
    store_le(&mut bytes, table + 128, 8, 0x2_0000);
    store_le(&mut bytes, table + 144, 8, 8);
    store_le(&mut bytes, table + 152, 8, 0x2000);
    bytes
}

#[test]
fn little_endian_readers() {
    let data = [0x11u8, 0x22, 0x33, 0x44, 0x55, 0x66, 0x77, 0x88];
    assert_eq!(read_le16(&data, 0), 0x2211);
    assert_eq!(read_le32(&data, 0), 0x4433_2211);
    assert_eq!(read_le64(&data, 0), 0x8877_6655_4433_2211);
}

#[test]
fn parse_keeps_load_segments_in_order() {
    let elf = two_segment_elf();
    let (entry, segs) = parse_elf(&elf).unwrap();
    assert_eq!(entry, 0x1_0000);
    assert_eq!(segs.len(), 2);
    assert_eq!(segs[0].vaddr, 0x1_0000);
    assert_eq!(segs[0].mem_size, 0x1000);
    assert_eq!(segs[0].file_size, 16);
    assert_eq!(segs[0].offset, 232);
    assert_eq!(segs[0].flags, 4 | 1);
    assert_eq!(segs[1].vaddr, 0x2_0000);
    assert_eq!(segs[1].mem_size, 0x2000);
    assert_eq!(segs[1].flags, 4 | 2);
}

#[test]
fn parse_agrees_with_independent_parser() {
    let elf = two_segment_elf();
    let (entry, segs) = parse_elf(&elf).unwrap();
    let other = xmas_elf::ElfFile::new(&elf).unwrap();
    assert_eq!(entry, other.header.pt2.entry_point());
    assert_eq!(other.header.pt2.ph_count(), 3);
    let mut load_idx = 0;
    for i in 0..other.header.pt2.ph_count() {
        let ph = other.program_header(i).unwrap();
        if ph.get_type().unwrap() == xmas_elf::program::Type::Load {
            assert_eq!(segs[load_idx].vaddr, ph.virtual_addr());
            assert_eq!(segs[load_idx].mem_size, ph.mem_size());
            assert_eq!(segs[load_idx].offset, ph.offset());
            assert_eq!(segs[load_idx].file_size, ph.file_size());
            load_idx += 1;
        }
    }
    assert_eq!(load_idx, segs.len());
}

#[test]
fn parse_rejects_wrong_magic() {
    let mut elf = two_segment_elf();
    elf[3] = 0x00;
    assert!(parse_elf(&elf).is_none());
}

#[test]
fn parse_rejects_32_bit_class() {
    let mut elf = two_segment_elf();
    elf[4] = 1;
    assert!(parse_elf(&elf).is_none());
}

#[test]
fn parse_rejects_table_out_of_bounds() {
    let mut elf = two_segment_elf();
    store_le(&mut elf, 56, 2, 100);
    assert!(parse_elf(&elf).is_none());
}

#[test]
fn parse_rejects_segment_past_image() {
    let mut elf = two_segment_elf();
    // Pretend the first segment's bytes extend past the image.
    store_le(&mut elf, 64 + 32, 8, 1 << 20);
    assert!(parse_elf(&elf).is_none());
}
