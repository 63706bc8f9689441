use cvsd_extractor::cvsd_chip::{clip10bits, signext10bits, CvsdChip};
use cvsd_extractor::wpc89::{decode_entry, CvsdEntry, RomChip};
use cvsd_extractor::WpcError;

fn decode_bytes(bytes: &[u8]) -> Vec<i8> {
    let entry = CvsdEntry { chip: RomChip::U18, bank: 0, offset: 0, size: bytes.len(), index: 0 };
    decode_entry(&entry, bytes).unwrap()
}

#[test]
fn power_on_sample_is_silence() {
    let chip = CvsdChip::new();
    assert_eq!(chip.to_pcm_i8(), 0);
    let chip = CvsdChip::default();
    assert_eq!(chip.to_pcm_i8(), 0);
}

#[test]
fn run_of_ones_ramps_down() {
    let mut chip = CvsdChip::new();
    let mut out = Vec::new();
    for _ in 0..8 {
        chip.process_bit(true);
        out.push(chip.to_pcm_i8());
    }
    assert_eq!(out, vec![0, -1, -1, -1, -1, -2, -3, -4]);
}

#[test]
fn decode_entry_is_lsb_first() {
    assert_eq!(decode_bytes(&[0xFF]), vec![0, -1, -1, -1, -1, -2, -3, -4]);
    assert_eq!(
        decode_bytes(&[0x00, 0x55, 0xF0]),
        vec![0, 0, 1, 1, 2, 3, 5, 6, 8, 5, 7, 5, 6, 4, 6, 4, 5, 7, 8, 10, 12, 9, 6, 4]
    );
    assert_eq!(
        decode_bytes(&[0xAA, 0x0F]),
        vec![0, 0, 0, 0, 0, 0, 0, 0, 0, -1, -1, -1, -2, -1, 0, 1]
    );
}

#[test]
fn decoding_a_prefix_gives_a_prefix_of_the_samples() {
    let data = [0x00u8, 0x55, 0xF0, 0x12, 0x9C];
    let all = decode_bytes(&data);
    for m in 0..=data.len() {
        let part = decode_bytes(&data[..m]);
        assert_eq!(part[..], all[..8 * m]);
    }
}

#[test]
fn decode_entry_one_sample_per_bit() {
    let rom: Vec<u8> = (0..64u32).map(|i| (i * 37 % 251) as u8).collect();
    let entry = CvsdEntry { chip: RomChip::U15, bank: 3, offset: 10, size: 20, index: 4 };
    let samples = decode_entry(&entry, &rom).unwrap();
    assert_eq!(samples.len(), 160);
    assert_eq!(samples, decode_bytes(&rom[10..30]));
}

#[test]
fn decode_entry_rejects_data_past_the_end() {
    let rom = vec![0u8; 16];
    let entry = CvsdEntry { chip: RomChip::U14, bank: 1, offset: 10, size: 7, index: 9 };
    match decode_entry(&entry, &rom) {
        Err(WpcError::EntryOutOfRange { index, offset, size, rom_len }) => {
            assert_eq!((index, offset, size, rom_len), (9, 10, 7, 16));
        }
        _ => panic!("expected an out-of-range error"),
    }
    let entry = CvsdEntry { chip: RomChip::U14, bank: 1, offset: 10, size: 6, index: 9 };
    assert_eq!(decode_entry(&entry, &rom).unwrap().len(), 48);
}

#[test]
fn samples_stay_in_range_on_long_runs() {
    let mut chip = CvsdChip::new();
    let mut min = 0i8;
    let mut max = 0i8;
    for k in 0..4000 {
        chip.process_bit(k % 1000 < 500);
        let s = chip.to_pcm_i8();
        min = min.min(s);
        max = max.max(s);
    }
    assert!(min >= -120 && max <= 120);
    assert!(min < -60 && max > 60);
}

#[test]
fn ten_bit_clipping_and_sign_extension() {
    assert_eq!(clip10bits(600), 511);
    assert_eq!(clip10bits(-600), -512);
    assert_eq!(clip10bits(5), 5);
    assert_eq!(clip10bits(clip10bits(i32::MAX)), 511);
    assert_eq!(signext10bits(0x3FF), -1);
    assert_eq!(signext10bits(0x1FF), 511);
    assert_eq!(signext10bits(0x200), -512);
    assert_eq!(signext10bits(-3), -3);
    assert_eq!(signext10bits(0x7FF), -1);
}
