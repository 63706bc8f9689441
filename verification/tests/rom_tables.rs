use std::path::PathBuf;

use cvsd_extractor::wav_file_name;
use cvsd_extractor::wpc89::{
    chip_name, parse_cvsd_table, read_be_u16, read_rom_header_ptr, system_bank_offset, CvsdEntry,
    RomChip, RomHeader, RomSet, ROM_HDR_CVSD_SAMPLE_TABLE, ROM_HDR_VOICE_TYPE_TABLE, SYSTEM_BANK,
};
use cvsd_extractor::WpcError;

fn put16(rom: &mut [u8], pos: usize, v: u16) {
    rom[pos] = (v >> 8) as u8;
    rom[pos + 1] = v as u8;
}

/// A 0x20000-byte U18 image: system bank at file offset 0, so a banked
/// address `a` lives at file offset `a - 0x4000`.
fn u18_image() -> Vec<u8> {
    let mut rom = vec![0u8; 0x20000];
    put16(&mut rom, 0x01, 0x1111);
    put16(&mut rom, 0x03, 0x2222);
    put16(&mut rom, 0x05, 0x3333);
    put16(&mut rom, 0x07, 0x4200);
    rom[0x0E] = 3;
    put16(&mut rom, 0x0F, 0x4300);
    put16(&mut rom, 0x11, 0x4400);
    put16(&mut rom, 0x15, 0x4100);
    // CVSD table: two records and a sentinel.
    put16(&mut rom, 0x100, 0x4500);
    put16(&mut rom, 0x102, 0x4505);
    put16(&mut rom, 0x104, 0x0000);
    // Record 0: U18 page 0x1C, data 0x4000..0x4010.
    rom[0x500] = SYSTEM_BANK;
    put16(&mut rom, 0x501, 0x4000);
    put16(&mut rom, 0x503, 0x4010);
    // Record 1: U14 page 0x1F, data 0x8000..0x8100.
    rom[0x505] = 0xDF;
    put16(&mut rom, 0x506, 0x8000);
    put16(&mut rom, 0x508, 0x8100);
    rom
}

#[test]
fn big_endian_reads() {
    let data = [0x12u8, 0x34, 0xAB];
    assert_eq!(read_be_u16(&data, 0), 0x1234);
    assert_eq!(read_be_u16(&data, 1), 0x34AB);
    assert_eq!(read_rom_header_ptr(&data, 1, 0), 0x34AB);
}

#[test]
fn system_bank_is_the_last_128k() {
    assert_eq!(system_bank_offset(0x1FFFF), None);
    assert_eq!(system_bank_offset(0x20000), Some(0));
    assert_eq!(system_bank_offset(0x80000), Some(0x60000));
}

#[test]
fn chip_names() {
    assert_eq!(chip_name(RomChip::U14), "u14");
    assert_eq!(chip_name(RomChip::U15), "u15");
    assert_eq!(chip_name(RomChip::U18), "u18");
}

#[test]
fn rom_set_keeps_paths() {
    let set = RomSet::new(PathBuf::from("a.l1"), PathBuf::from("b.l1"), PathBuf::from("c.l1"));
    assert_eq!(set.u14, PathBuf::from("a.l1"));
    assert_eq!(set.u15, PathBuf::from("b.l1"));
    assert_eq!(set.u18, PathBuf::from("c.l1"));
}

#[test]
fn header_fields_come_from_the_system_bank() {
    let mut rom = vec![0u8; 0x20000 + 0x100];
    put16(&mut rom, 0x100 + 0x07, 0x4567);
    put16(&mut rom, 0x100 + 0x15, 0xC123);
    rom[0x100 + 0x0E] = 0x7F;
    let hdr = RomHeader::from_u18(&rom).unwrap();
    assert_eq!(hdr.system_bank_file, 0x100);
    assert_eq!(hdr.voice_type_table, 0x4567);
    assert_eq!(hdr.cvsd_sample_table, 0xC123);
    assert_eq!(hdr.max_cmd_index, 0x7F);
    assert_eq!(
        read_rom_header_ptr(&rom, hdr.system_bank_file, ROM_HDR_VOICE_TYPE_TABLE),
        hdr.voice_type_table
    );
    assert_eq!(
        read_rom_header_ptr(&rom, hdr.system_bank_file, ROM_HDR_CVSD_SAMPLE_TABLE),
        hdr.cvsd_sample_table
    );
    assert_eq!(hdr.rom_len(), rom.len());
}

#[test]
fn header_needs_a_full_system_bank() {
    let rom = vec![0u8; 0x1FFFF];
    assert!(matches!(RomHeader::from_u18(&rom), Err(WpcError::RomTooSmall)));
}

#[test]
fn address_translation() {
    let rom = vec![0u8; 0x80000];
    let hdr = RomHeader::from_u18(&rom).unwrap();
    assert_eq!(hdr.system_bank_file, 0x60000);
    assert_eq!(hdr.to_file_offset(0x4000), 0x60000);
    assert_eq!(hdr.to_file_offset(0xBFFF), 0x67FFF);
    assert_eq!(hdr.to_file_offset(0xC000), 0x7C000);
    assert_eq!(hdr.to_file_offset(0xFFFF), 0x7FFFF);
    assert_eq!(hdr.checked_file_offset(0x3000), Some(0x5F000));
    let small = RomHeader::from_u18(&vec![0u8; 0x20000]).unwrap();
    assert_eq!(small.checked_file_offset(0x3000), None);
    assert_eq!(small.checked_file_offset(0x4000), Some(0));
}

#[test]
fn cvsd_table_entries() {
    let rom = u18_image();
    let entries = parse_cvsd_table(&rom, Some(0x80000), None).unwrap();
    assert_eq!(entries.len(), 2);
    let e = &entries[0];
    assert_eq!((e.chip, e.bank, e.offset, e.size, e.index), (RomChip::U18, 0x1C, 0, 0x10, 0));
    let e = &entries[1];
    assert_eq!((e.chip, e.bank, e.offset, e.size, e.index), (RomChip::U14, 0x1F, 0x7C000, 0x100, 1));
}

#[test]
fn cvsd_table_needs_the_size_of_a_referenced_rom() {
    let rom = u18_image();
    assert!(matches!(
        parse_cvsd_table(&rom, None, Some(0x80000)),
        Err(WpcError::RomUnavailable(RomChip::U14))
    ));
}

#[test]
fn cvsd_table_skips_empty_and_negative_records() {
    let mut rom = u18_image();
    // Record 0 becomes empty (end == start); record 1 lands before the image.
    put16(&mut rom, 0x503, 0x4000);
    rom[0x505] = 0xC0; // U14 page 0
    let err = parse_cvsd_table(&rom, Some(0x80000), None);
    assert!(matches!(err, Err(WpcError::NoCvsdEntries)));
    // With a third usable record after the skipped ones, its index is kept.
    put16(&mut rom, 0x104, 0x450A);
    rom[0x50A] = 0xBE; // U15 page 0x1E
    put16(&mut rom, 0x50B, 0x4100);
    put16(&mut rom, 0x50D, 0x4180);
    put16(&mut rom, 0x10C, 0x0000);
    let entries = parse_cvsd_table(&rom, Some(0x80000), Some(0x40000)).unwrap();
    assert_eq!(entries.len(), 1);
    let e = &entries[0];
    // 0x1E * 0x8000 + 0x40000 - 0x100000 + 0x4100 - 0x4000 = 0x30100
    assert_eq!((e.chip, e.bank, e.offset, e.size, e.index), (RomChip::U15, 0x1E, 0x30100, 0x80, 2));
}

#[test]
fn cvsd_table_stops_at_unknown_chip_enable() {
    let mut rom = u18_image();
    rom[0x505] = 0xFF;
    let entries = parse_cvsd_table(&rom, None, None).unwrap();
    assert_eq!(entries.len(), 1);
}

#[test]
fn cvsd_table_errors() {
    assert!(matches!(parse_cvsd_table(&[0u8; 16], None, None), Err(WpcError::RomTooSmall)));
    let rom = vec![0u8; 0x20000];
    assert!(matches!(parse_cvsd_table(&rom, None, None), Err(WpcError::NoCvsdEntries)));
}

#[test]
fn wav_names() {
    let entry = CvsdEntry { chip: RomChip::U14, bank: 2, offset: 1234, size: 56, index: 7 };
    assert_eq!(wav_file_name(&entry), "007_u14_1234_56.wav");
    let entry = CvsdEntry { chip: RomChip::U18, bank: 2, offset: 0, size: 1, index: 1234 };
    assert_eq!(wav_file_name(&entry), "1234_u18_0_1.wav");
}
