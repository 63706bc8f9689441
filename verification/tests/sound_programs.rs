use cvsd_extractor::sound_program::{
    decode_sequence, extract_programs, format_programs, parse_cmd_dispatch_table,
    parse_voice_descriptor, resolve_variable_size, summarise_programs, CommandDispatchEntry,
    DecodedSequence, NextOp, SeqInstruction, SeqOpcode, SoundProgram, VoiceDescriptor,
};
use cvsd_extractor::wpc89::RomHeader;
use cvsd_extractor::WpcError;

fn put16(rom: &mut [u8], pos: usize, v: u16) {
    rom[pos] = (v >> 8) as u8;
    rom[pos + 1] = v as u8;
}

fn put(rom: &mut [u8], pos: usize, bytes: &[u8]) {
    rom[pos..pos + bytes.len()].copy_from_slice(bytes);
}

/// A 0x20000-byte U18 image with system bank at file offset 0: banked
/// address `a` is file offset `a - 0x4000`.
fn program_image() -> Vec<u8> {
    let mut rom = vec![0u8; 0x20000];
    put16(&mut rom, 0x07, 0x4200); // voice-type table
    rom[0x0E] = 3; // max command index
    put16(&mut rom, 0x0F, 0x4300); // dispatch table
    put16(&mut rom, 0x11, 0x4400); // sound-program table
    // Dispatch: (0x04, 0), (0x01, 0), (0x03, 5), (0x04, 1).
    put(&mut rom, 0x300, &[0x04, 0x00, 0x01, 0x00, 0x03, 0x05, 0x04, 0x01]);
    // Voice-type table.
    put16(&mut rom, 0x200, 0x4600);
    put16(&mut rom, 0x202, 0x4700);
    // Descriptor 0: FM channels 0 and 2, CVSD type 2.
    put(&mut rom, 0x600, &[0x05, 0x48, 0x00, 0x49, 0x00, 0x02, 0x4A, 0x00]);
    // Descriptor 1: FM channel 0, no CVSD.
    put(&mut rom, 0x700, &[0x01, 0x4B, 0x00, 0x00]);
    // Sound-program table and its record: channel 0 and channel 9.
    put16(&mut rom, 0x400, 0x4C00);
    put16(&mut rom, 0xC00, 0x4800);
    put16(&mut rom, 0xC00 + 18, 0x4900);
    // Sequences.
    put(&mut rom, 0x800, &[0x0C, 0x0A, 0x0F, 0x46, 0x00]);
    put(&mut rom, 0x900, &[0x13, 0x4D, 0x00, 0x7F]);
    put(&mut rom, 0xD00, &[0x14]);
    put(&mut rom, 0xA00, &[0x34, 0x05, 0x00]);
    put(&mut rom, 0xB00, &[0x0A, 0x01, 0x02, 0x00, 0x00]);
    rom
}

fn ops(seq: &DecodedSequence) -> Vec<(usize, u8, SeqOpcode, Vec<u8>)> {
    seq.instructions.iter().map(|i| (i.pos, i.raw_opcode, i.opcode, i.operands.clone())).collect()
}

#[test]
fn opcode_decoding() {
    assert_eq!(SeqOpcode::from_u8(0x00), Some(SeqOpcode::EndOfSequence));
    assert_eq!(SeqOpcode::from_u8(0x05), Some(SeqOpcode::Nop));
    assert_eq!(SeqOpcode::from_u8(0x4A), Some(SeqOpcode::TimingAdvance));
    assert_eq!(SeqOpcode::from_u8(0xBE), Some(SeqOpcode::SetBankSwitch));
    assert_eq!(SeqOpcode::from_u8(0x3F), None);
    assert_eq!(SeqOpcode::from_u8(0xFF), None);
    for v in 0..=255u8 {
        assert_eq!(SeqOpcode::from_u8(v), SeqOpcode::from_u8(v & 0x3F));
    }
}

#[test]
fn opcode_names() {
    assert_eq!(SeqOpcode::FmPatchLoad.name(), "FmPatchLoad");
    assert_eq!(SeqOpcode::CvsdSampleStartStereo.name(), "CvsdSampleStartStereo");
}

#[test]
fn instruction_render() {
    let inst = SeqInstruction { pos: 2, raw_opcode: 0x0F, opcode: SeqOpcode::SetAbsolutePitch, operands: vec![0x46] };
    assert_eq!(inst.render(), "0002: [0F] SetAbsolutePitch         46");
    let inst = SeqInstruction { pos: 0x1234A, raw_opcode: 0x80, opcode: SeqOpcode::EndOfSequence, operands: vec![] };
    assert_eq!(inst.render(), "1234A: [80] EndOfSequence           ");
    let inst = SeqInstruction { pos: 7, raw_opcode: 0x13, opcode: SeqOpcode::SubroutineCall, operands: vec![0x4D, 0x00] };
    assert_eq!(inst.render(), "0007: [13] SubroutineCall           4D 00");
}

#[test]
fn programs_from_both_handlers() {
    let rom = program_image();
    let programs = extract_programs(&rom).unwrap();
    let summary: Vec<(u8, u8, u8)> =
        programs.iter().map(|p| (p.command, p.handler_id, p.voice_type_index)).collect();
    assert_eq!(summary, vec![(0, 0x04, 0), (1, 0x01, 0), (3, 0x04, 1)]);

    // Command 0: voice descriptor with two FM channels and a CVSD sequence.
    let p = &programs[0];
    assert_eq!(p.descriptor.addr, 0x4600);
    assert_eq!(p.descriptor.fm_mask, 0x05);
    assert_eq!(p.descriptor.fm_channels, vec![(0, 0x4800), (2, 0x4900)]);
    assert_eq!(p.descriptor.cvsd_type, 2);
    assert_eq!(p.descriptor.cvsd_seq_addr, Some(0x4A00));
    let labels: Vec<&str> = p.sequences.iter().map(|s| s.channel.as_str()).collect();
    assert_eq!(labels, vec!["FM0", "FM2", "CVSD"]);

    let s = &p.sequences[0];
    assert!(s.complete && s.truncation.is_none());
    assert_eq!(
        ops(s),
        vec![
            (0, 0x0C, SeqOpcode::FmPatchLoad, vec![0x0A]),
            (2, 0x0F, SeqOpcode::SetAbsolutePitch, vec![0x46]),
            (4, 0x00, SeqOpcode::EndOfSequence, vec![0x00]),
        ]
    );
    // Subroutine call and return, then an unknown opcode.
    let s = &p.sequences[1];
    assert!(!s.complete);
    assert_eq!(s.truncation.as_deref(), Some("unknown opcode 0x7F"));
    assert_eq!(
        ops(s),
        vec![
            (0, 0x13, SeqOpcode::SubroutineCall, vec![0x4D, 0x00]),
            (3, 0x14, SeqOpcode::SubroutineReturn, vec![]),
        ]
    );
    let s = &p.sequences[2];
    assert!(s.complete);
    assert_eq!(
        ops(s),
        vec![
            (0, 0x34, SeqOpcode::CvsdSamplePlayback, vec![0x05]),
            (2, 0x00, SeqOpcode::EndOfSequence, vec![0x00]),
        ]
    );

    // Command 1: sound-program record with channels 0 and 9.
    let p = &programs[1];
    assert_eq!(p.descriptor.addr, 0x4C00);
    assert_eq!(p.descriptor.fm_mask, 0x01);
    assert_eq!(p.descriptor.fm_channels, vec![(0, 0x4800), (9, 0x4900)]);
    assert_eq!(p.descriptor.cvsd_type, 0);
    let labels: Vec<&str> = p.sequences.iter().map(|s| s.channel.as_str()).collect();
    assert_eq!(labels, vec!["FM0", "CH9"]);

    // Command 3: variable-length timing advance resolved to three bytes.
    let p = &programs[2];
    assert_eq!(p.descriptor.fm_channels, vec![(0, 0x4B00)]);
    assert_eq!(p.descriptor.cvsd_seq_addr, None);
    assert_eq!(
        ops(&p.sequences[0]),
        vec![
            (0, 0x0A, SeqOpcode::TimingAdvance, vec![0x01, 0x02]),
            (3, 0x00, SeqOpcode::EndOfSequence, vec![0x00]),
        ]
    );
}

#[test]
fn truncated_descriptor_drops_the_command() {
    let mut rom = program_image();
    // Voice-type entry 1 now points at the very end of the image.
    put16(&mut rom, 0x202, 0xFFFF);
    rom[0x1FFFF] = 0x01;
    let programs = extract_programs(&rom).unwrap();
    let cmds: Vec<u8> = programs.iter().map(|p| p.command).collect();
    assert_eq!(cmds, vec![0, 1]);
    let summary = summarise_programs("BL_U18.L1", &rom).unwrap();
    assert!(summary.contains(
        "--- Command 0x03 (handler=0x04, param=0x01) ---\n  no sound program decoded\n\n"
    ));
}

#[test]
fn call_target_and_stack_limits() {
    let mut rom = program_image();
    // A sequence that calls itself forever overflows the call stack.
    put(&mut rom, 0xB00, &[0x13, 0x4B, 0x00]);
    let programs = extract_programs(&rom).unwrap();
    let s = &programs[2].sequences[0];
    assert_eq!(s.instructions.len(), 9);
    assert_eq!(s.truncation.as_deref(), Some("call stack overflow"));
    // A call into the area below the image is out of bounds.
    put(&mut rom, 0xB00, &[0x13, 0x12, 0x34]);
    let programs = extract_programs(&rom).unwrap();
    let s = &programs[2].sequences[0];
    assert_eq!(s.instructions.len(), 1);
    assert_eq!(s.truncation.as_deref(), Some("call target 0x1234 out of bounds"));
}

#[test]
fn endless_sequence_hits_the_instruction_limit() {
    let mut rom = program_image();
    // Nop-free loop: RepeatLoop (1 byte) chaining into itself until the data runs out.
    for k in 0..2000 {
        rom[0xB00 + k] = 0x0E;
    }
    let programs = extract_programs(&rom).unwrap();
    let s = &programs[2].sequences[0];
    assert_eq!(s.instructions.len(), 500);
    assert!(!s.complete);
    assert_eq!(s.truncation.as_deref(), Some("max instructions reached"));
}

#[test]
fn start_address_out_of_bounds() {
    let mut rom = program_image();
    put(&mut rom, 0x700, &[0x01, 0x00, 0x10, 0x00]);
    let programs = extract_programs(&rom).unwrap();
    let s = &programs[2].sequences[0];
    assert!(s.instructions.is_empty());
    assert_eq!(s.truncation.as_deref(), Some("start address out of bounds"));
}

#[test]
fn extract_needs_a_system_bank() {
    assert!(matches!(extract_programs(&[0u8; 100]), Err(WpcError::RomTooSmall)));
}

fn sample_program() -> SoundProgram {
    SoundProgram {
        command: 0x06,
        handler_id: 0x04,
        voice_type_index: 0x02,
        descriptor: VoiceDescriptor {
            addr: 0xC800,
            fm_mask: 0x05,
            fm_channels: vec![(0, 0xD120), (2, 0xD200)],
            cvsd_type: 1,
            cvsd_seq_addr: Some(0xD300),
        },
        sequences: vec![
            DecodedSequence {
                channel: "FM0".to_string(),
                start_addr: 0xD120,
                instructions: vec![SeqInstruction {
                    pos: 0,
                    raw_opcode: 0x0C,
                    opcode: SeqOpcode::FmPatchLoad,
                    operands: vec![0x0A],
                }],
                complete: false,
                truncation: Some("truncated".to_string()),
            },
        ],
    }
}

#[test]
fn report_layout() {
    let rom = vec![0u8; 0x20000];
    let mut header = RomHeader::from_u18(&rom).unwrap();
    header.max_cmd_index = 0x02;
    let mut p = sample_program();
    p.command = 0x01;
    let dispatch = [
        CommandDispatchEntry { handler_id: 0x03, param: 0x05 },
        CommandDispatchEntry { handler_id: 0x04, param: 0x02 },
    ];
    let report = format_programs(&[p], &dispatch, &header);
    let expected = "=== WPC-89 Sound Program Report ===\n\
Max command index: 0x02, Programs decoded: 1\n\
\n\
--- Command 0x00 (handler=0x03, param=0x05) ---\n\
\x20 no sound program decoded\n\
\n\
--- Command 0x01 (handler=0x04, voice_type=0x02) ---\n\
\x20 Descriptor @ 0xC800:\n\
\x20   FM mask: 0x05 (ch 0, 2)\n\
\x20   FM ch0 seq @ 0xD120\n\
\x20   FM ch2 seq @ 0xD200\n\
\x20   CVSD type: 0x01, seq @ 0xD300\n\
\n\
\x20 [FM0] @ 0xD120 (INCOMPLETE, 1 instructions)\n\
\x20   0000: [0C] FmPatchLoad              0A\n\
\x20   ; truncated: truncated\n\
\n\
--- Command 0x02 ---\n\
\x20 dispatch entry lies outside the ROM image\n\
\n";
    assert_eq!(report, expected);
}

#[test]
fn report_lists_every_command_even_without_programs() {
    let rom = vec![0u8; 0x20000];
    let mut header = RomHeader::from_u18(&rom).unwrap();
    header.max_cmd_index = 0x7F;
    let empty = format_programs(&[], &[], &header);
    assert!(empty.starts_with(
        "=== WPC-89 Sound Program Report ===\nMax command index: 0x7F, Programs decoded: 0\n\n\
--- Command 0x00 ---\n  dispatch entry lies outside the ROM image\n\n--- Command 0x01 ---\n"
    ));
    assert!(empty.ends_with("--- Command 0x7F ---\n  dispatch entry lies outside the ROM image\n\n"));
    assert_eq!(empty.matches("--- Command 0x").count(), 0x80);
}

#[test]
fn report_with_empty_mask_and_no_cvsd() {
    let rom = vec![0u8; 0x20000];
    let header = RomHeader::from_u18(&rom).unwrap();
    let mut p = sample_program();
    p.descriptor.fm_mask = 0;
    p.descriptor.fm_channels = vec![];
    p.descriptor.cvsd_type = 0;
    p.descriptor.cvsd_seq_addr = None;
    p.sequences = vec![];
    p.command = 0x00;
    let dispatch = [CommandDispatchEntry { handler_id: 0x04, param: 0x02 }];
    let report = format_programs(&[p], &dispatch, &header);
    assert!(report.contains("    FM mask: 0x00 (ch none)\n    CVSD: none\n\n"));
}

#[test]
fn summary_names_the_rom() {
    let rom = program_image();
    let summary = summarise_programs("BL_U18.L1", &rom).unwrap();
    assert!(summary.starts_with("ROM: BL_U18.L1\n=== WPC-89 Sound Program Report ===\nMax command index: 0x03, Programs decoded: 3\n"));
    assert!(summary.contains("  [CH9] @ 0x4900 (INCOMPLETE, 2 instructions)\n"));
    assert!(summary.contains("    ; truncated: unknown opcode 0x7F\n"));
    assert!(matches!(summarise_programs("x", &[0u8; 4]), Err(WpcError::RomTooSmall)));
}

#[test]
fn summary_has_a_section_for_every_command() {
    let rom = program_image();
    let summary = summarise_programs("BL_U18.L1", &rom).unwrap();
    assert_eq!(summary.matches("--- Command 0x").count(), 4);
    let c0 = summary.find("--- Command 0x00 (handler=0x04, voice_type=0x00) ---\n").unwrap();
    let c1 = summary.find("--- Command 0x01 (handler=0x01, voice_type=0x00) ---\n").unwrap();
    let c2 = summary
        .find("--- Command 0x02 (handler=0x03, param=0x05) ---\n  no sound program decoded\n\n")
        .unwrap();
    let c3 = summary.find("--- Command 0x03 (handler=0x04, voice_type=0x01) ---\n").unwrap();
    assert!(c0 < c1 && c1 < c2 && c2 < c3);
}

#[test]
fn summary_notes_dispatch_entries_past_the_image_end() {
    let mut rom = vec![0u8; 0x20000];
    rom[0x0E] = 3;
    // The table starts three bytes before the end: one entry fits.
    put16(&mut rom, 0x0F, 0xFFFD);
    put(&mut rom, 0x1FFFD, &[0x07, 0x09]);
    let summary = summarise_programs("T", &rom).unwrap();
    let expected = "ROM: T\n=== WPC-89 Sound Program Report ===\n\
Max command index: 0x03, Programs decoded: 0\n\
\n\
--- Command 0x00 (handler=0x07, param=0x09) ---\n\
\x20 no sound program decoded\n\
\n\
--- Command 0x01 ---\n\
\x20 dispatch entry lies outside the ROM image\n\
\n\
--- Command 0x02 ---\n\
\x20 dispatch entry lies outside the ROM image\n\
\n\
--- Command 0x03 ---\n\
\x20 dispatch entry lies outside the ROM image\n\
\n";
    assert_eq!(summary, expected);
}

#[test]
fn dispatch_entries_are_plain_values() {
    let e = CommandDispatchEntry { handler_id: 4, param: 9 };
    let f = e;
    assert_eq!((f.handler_id, f.param), (4, 9));
}

#[test]
fn opcode_codes() {
    assert_eq!(SeqOpcode::EndOfSequence.code(), 0x00);
    assert_eq!(SeqOpcode::TimingAdvance.code(), 0x0A);
    assert_eq!(SeqOpcode::SetBankSwitch.code(), 0x3E);
    for v in 0..0x3Fu8 {
        let op = SeqOpcode::from_u8(v).unwrap();
        if op != SeqOpcode::Nop {
            assert_eq!(op.code(), v);
        }
    }
}

#[test]
fn variable_length_opcode_takes_the_alternate_count() {
    let mut rom = program_image();
    // With three bytes the embedded next opcode would be 0x3F (none); four fit.
    put(&mut rom, 0xB00, &[0x0A, 0x01, 0x02, 0x3F, 0x00, 0x00]);
    let programs = extract_programs(&rom).unwrap();
    assert_eq!(
        ops(&programs[2].sequences[0]),
        vec![
            (0, 0x0A, SeqOpcode::TimingAdvance, vec![0x01, 0x02, 0x3F]),
            (4, 0x00, SeqOpcode::EndOfSequence, vec![0x00]),
        ]
    );
}

#[test]
fn extracted_programs_follow_their_dispatch_entries() {
    let rom = program_image();
    let programs = extract_programs(&rom).unwrap();
    assert!(programs.len() <= 4);
    for p in &programs {
        let pos = 0x300 + 2 * p.command as usize;
        assert_eq!((p.handler_id, p.voice_type_index), (rom[pos], rom[pos + 1]));
        for s in &p.sequences {
            assert_eq!(s.complete, s.truncation.is_none());
            if let Some(first) = s.instructions.first() {
                assert_eq!(first.pos, 0);
            }
            for w in s.instructions.windows(2) {
                assert!(w[0].pos < w[1].pos);
            }
        }
    }
}

#[test]
fn decoded_sequence_keeps_its_channel_and_start() {
    let rom = program_image();
    let header = RomHeader::from_u18(&rom).unwrap();
    let s = decode_sequence(&rom, 0x4800, "FM0".to_string(), &header);
    assert_eq!((s.channel.as_str(), s.start_addr), ("FM0", 0x4800));
    assert!(s.complete && s.truncation.is_none());
    assert_eq!(
        ops(&s),
        vec![
            (0, 0x0C, SeqOpcode::FmPatchLoad, vec![0x0A]),
            (2, 0x0F, SeqOpcode::SetAbsolutePitch, vec![0x46]),
            (4, 0x00, SeqOpcode::EndOfSequence, vec![0x00]),
        ]
    );
    let s = decode_sequence(&rom, 0x4900, "FM2".to_string(), &header);
    assert!(!s.complete);
    assert_eq!(s.truncation.as_deref(), Some("unknown opcode 0x7F"));
}

#[test]
fn variable_size_resolution() {
    let data = [0x01u8, 0x02, 0x3F, 0x00, 0x00];
    assert_eq!(resolve_variable_size(&data, 0, 3, None), 3);
    assert_eq!(resolve_variable_size(&data, 0, 3, Some(4)), 4);
    let data = [0x01u8, 0x02, 0x00, 0x00];
    assert_eq!(resolve_variable_size(&data, 0, 3, Some(4)), 3);
    // Neither count is plausible: the primary one is kept.
    let data = [0x01u8, 0x02, 0x3F, 0x3F];
    assert_eq!(resolve_variable_size(&data, 0, 3, Some(4)), 3);
}

#[test]
fn operand_layouts() {
    assert_eq!(SeqOpcode::TimingAdvance.operand_info(), (3, Some(4), NextOp::Embedded));
    assert_eq!(SeqOpcode::EndOfSequence.operand_info(), (1, None, NextOp::Terminal));
    assert_eq!(SeqOpcode::SubroutineCall.operand_info(), (2, None, NextOp::Branch));
    assert_eq!(SeqOpcode::PitchGlide.operand_info(), (11, None, NextOp::Embedded));
    assert_eq!(
        SeqOpcode::PushPitchTableAlt.operand_info(),
        SeqOpcode::PushPitchTable.operand_info()
    );
    assert_eq!(SeqOpcode::RepeatLoopAlt.operand_info(), SeqOpcode::RepeatLoop.operand_info());
}

#[test]
fn voice_descriptor_parsing() {
    let mut rom = program_image();
    let header = RomHeader::from_u18(&rom).unwrap();
    let d = parse_voice_descriptor(&rom, 0x4600, &header).unwrap();
    assert_eq!(d.addr, 0x4600);
    assert_eq!(d.fm_mask, 0x05);
    assert_eq!(d.fm_channels, vec![(0, 0x4800), (2, 0x4900)]);
    assert_eq!((d.cvsd_type, d.cvsd_seq_addr), (2, Some(0x4A00)));
    let d = parse_voice_descriptor(&rom, 0x4700, &header).unwrap();
    assert_eq!(d.fm_channels, vec![(0, 0x4B00)]);
    assert_eq!((d.cvsd_type, d.cvsd_seq_addr), (0, None));
    // A mask byte on the last byte of the image: its pointer is cut off.
    rom[0x1FFFF] = 0x01;
    assert_eq!(
        parse_voice_descriptor(&rom, 0xFFFF, &header).err(),
        Some(WpcError::DescriptorTruncatedFmPointer { channel: 0 })
    );
    // An empty mask and a CVSD type on the last byte: its pointer is cut off.
    rom[0x1FFFE] = 0x00;
    rom[0x1FFFF] = 0x03;
    assert_eq!(
        parse_voice_descriptor(&rom, 0xFFFE, &header).err(),
        Some(WpcError::DescriptorTruncatedCvsdPointer)
    );
    // A mask byte on the last byte with no channels: the CVSD type is cut off.
    rom[0x1FFFF] = 0x00;
    assert_eq!(
        parse_voice_descriptor(&rom, 0xFFFF, &header).err(),
        Some(WpcError::DescriptorTruncatedCvsdType)
    );
    let d = parse_voice_descriptor(&rom, 0xFFFE, &header).unwrap();
    assert_eq!((d.fm_mask, d.cvsd_type, d.cvsd_seq_addr), (0, 0, None));
}

#[test]
fn dispatch_table_parsing() {
    let rom = program_image();
    let header = RomHeader::from_u18(&rom).unwrap();
    let table = parse_cmd_dispatch_table(&rom, &header).unwrap();
    let pairs: Vec<(u8, u8)> = table.iter().map(|e| (e.handler_id, e.param)).collect();
    assert_eq!(pairs, vec![(0x04, 0x00), (0x01, 0x00), (0x03, 0x05), (0x04, 0x01)]);
}
