// SPDX-License-Identifier: BSD-3-Clause
//! WPC-89 sound-program extraction and sequence bytecode decoder.
//!
//! Each sound command from the main CPU triggers one or more "voices", each
//! running a small bytecode program (sequence data).  The bytecode is
//! dispatched through an opcode table with 6-bit opcodes.  This module
//! decodes the command dispatch table, voice descriptors and sequence
//! bytecode, and renders a human-readable listing of each sound program.
//!
//! ```text
//! Command (0x00-0xFF)
//!   → Dispatch Table: (handler_id, voice_type_index)
//!     → Voice Type Table[voice_type_index]: pointer to descriptor
//!       → Voice Descriptor: FM_mask, seq_ptrs[], CVSD_type, cvsd_seq_ptr
//!         → Sequence bytecode per channel
//! ```

use vstd::prelude::*;

use crate::error::WpcError;
use crate::text::{dec_text, hex_text, pad_right, push_dec, push_hex, push_padded};
use crate::wpc89::{be_u16, header_of, read_be_u16, RomHeader};

verus! {

// ---------------------------------------------------------------------------
// Sequencer opcodes
// ---------------------------------------------------------------------------

/// A 6-bit opcode for the WPC-89 voice sequencer.
///
/// The sequencer reads the opcode byte masked to its low six bits and
/// dispatches through the firmware's opcode table.  [`SeqOpcode::spec_code`]
/// gives the number of each opcode.
#[derive(Debug, Clone, Copy, PartialEq, Eq, Structural)]
pub enum SeqOpcode {
    /// 0x00 — End of sequence; free the voice block.
    EndOfSequence,
    /// 0x01 — No-op (advance sequence pointer by 1 byte, continue); codes 0x01-0x07.
    Nop,
    /// 0x08 — Start CVSD sample with stereo panning (reads sample#, pan byte).
    CvsdSampleStartStereo,
    /// 0x09 — Start CVSD sample (reads 1-byte sample index).
    CvsdSampleStart,
    /// 0x0A — Timing advance (set voice delay counter).
    TimingAdvance,
    /// 0x0B — FM note-on with timing.
    NoteOnTiming,
    /// 0x0C — Load an FM patch (instrument) into the YM2151.
    FmPatchLoad,
    /// 0x0D — Push pitch from table (set note register from table).
    PushPitchTable,
    /// 0x0E — Repeat loop (decrement counter, branch back).
    RepeatLoop,
    /// 0x0F — Set absolute pitch on FM channel.
    SetAbsolutePitch,
    /// 0x10 — Trigger a sub-sound (inject command into ring buffer).
    TriggerSubSound,
    /// 0x11 — Gap NOP (unused opcode, just returns).
    GapNop11,
    /// 0x12 — Inject command for immediate re-run (bypass ring buffer).
    InjectCmdRerun,
    /// 0x13 — Subroutine call (push return address, jump to target).
    SubroutineCall,
    /// 0x14 — Subroutine return (pop return address).
    SubroutineReturn,
    /// 0x15 — FM key-off on the voice's channel.
    FmKeyOff,
    /// 0x16 — Gap NOP (unused opcode, just returns).
    GapNop16,
    /// 0x17 — CVSD with FM note-on, absolute pitch.
    CvsdFmNoteOnAbs,
    /// 0x18 — CVSD voice update (modify running CVSD parameters).
    CvsdVoiceUpdate,
    /// 0x19 — CVSD with FM note-on, delta pitch.
    CvsdFmNoteOnDelta,
    /// 0x1A — CVSD vibrato effect.
    CvsdVibrato,
    /// 0x1B — Detune (fine pitch offset).
    Detune,
    /// 0x1C — Push pitch from table (alias of 0x0D).
    PushPitchTableAlt,
    /// 0x1D — Repeat loop (alias of 0x0E).
    RepeatLoopAlt,
    /// 0x1E — Combined note + timing setup.
    NoteTimingCombined,
    /// 0x1F — Pitch glide (smooth pitch transition).
    PitchGlide,
    /// 0x20 — Gap NOP (unused opcode, just returns).
    GapNop20,
    /// 0x21 — Stop DAC/CVSD playback on this voice.
    StopDacCvsd,
    /// 0x22 — CVSD volume fade (gradual volume change).
    CvsdVolumeFade,
    /// 0x23 — Send status byte to the main CPU.
    SendStatusToCpu,
    /// 0x24 — Set channel timing parameters.
    SetChannelTiming,
    /// 0x25 — FM key-on with timing parameters.
    FmKeyOnWithTiming,
    /// 0x26 — Add delta to timing value.
    AddTimingDelta,
    /// 0x27 — FM pitch delta from table B.
    FmPitchDeltaTableB,
    /// 0x28 — FM pitch delta from table A.
    FmPitchDeltaTableA,
    /// 0x29 — FM pitch absolute from table B.
    FmPitchAbsTableB,
    /// 0x2A — FM pitch absolute from table A.
    FmPitchAbsTableA,
    /// 0x2B — Global pitch slide (high byte).
    GlobalPitchSlideHi,
    /// 0x2C — Global pitch slide (low byte).
    GlobalPitchSlideLo,
    /// 0x2D — Set global absolute pitch (high byte).
    SetGlobalPitchAbsHi,
    /// 0x2E — Set global absolute pitch (low byte).
    SetGlobalPitchAbsLo,
    /// 0x2F — Note trigger with repeat.
    NoteTriggerRepeat,
    /// 0x30 — Set stereo output mask.
    SetStereoMask,
    /// 0x31 — Clear channel mask bits.
    ClearChannelMask,
    /// 0x32 — Indirect opcode load (read next opcode from data stream).
    IndirectOpcodeLoad,
    /// 0x33 — Inject command into ring buffer.
    InjectCmdRingBuf,
    /// 0x34 — Start CVSD sample playback (reads sample index + next opcode).
    CvsdSamplePlayback,
    /// 0x35 — Timing advance (alternate form).
    TimingAdvanceAlt,
    /// 0x36 — FM program change (switch instrument).
    ProgramChange,
    /// 0x37 — Push pitch from table (variant with 4-byte data).
    PushPitchTable4b,
    /// 0x38 — Set absolute volume (TL register).
    SetVolumeAbs,
    /// 0x39 — Volume fade (relative TL change over time).
    VolumeFadeRel,
    /// 0x3A — FM key-on with complex setup.
    FmKeyOnComplex,
    /// 0x3B — Update note register directly.
    UpdateNoteRegister,
    /// 0x3C — Note register delta (add to current note value).
    NoteRegisterDelta,
    /// 0x3D — Free voice and end sequence.
    FreeVoiceEnd,
    /// 0x3E — Set ROM bank for sequence reads (TZ+ firmware).
    SetBankSwitch,
}

impl SeqOpcode {
    /// The opcode number of each variant (codes 0x02–0x07 alias `Nop`).
    pub open spec fn spec_code(self) -> u8 {
        match self {
            SeqOpcode::EndOfSequence => 0x00,
            SeqOpcode::Nop => 0x01,
            SeqOpcode::CvsdSampleStartStereo => 0x08,
            SeqOpcode::CvsdSampleStart => 0x09,
            SeqOpcode::TimingAdvance => 0x0A,
            SeqOpcode::NoteOnTiming => 0x0B,
            SeqOpcode::FmPatchLoad => 0x0C,
            SeqOpcode::PushPitchTable => 0x0D,
            SeqOpcode::RepeatLoop => 0x0E,
            SeqOpcode::SetAbsolutePitch => 0x0F,
            SeqOpcode::TriggerSubSound => 0x10,
            SeqOpcode::GapNop11 => 0x11,
            SeqOpcode::InjectCmdRerun => 0x12,
            SeqOpcode::SubroutineCall => 0x13,
            SeqOpcode::SubroutineReturn => 0x14,
            SeqOpcode::FmKeyOff => 0x15,
            SeqOpcode::GapNop16 => 0x16,
            SeqOpcode::CvsdFmNoteOnAbs => 0x17,
            SeqOpcode::CvsdVoiceUpdate => 0x18,
            SeqOpcode::CvsdFmNoteOnDelta => 0x19,
            SeqOpcode::CvsdVibrato => 0x1A,
            SeqOpcode::Detune => 0x1B,
            SeqOpcode::PushPitchTableAlt => 0x1C,
            SeqOpcode::RepeatLoopAlt => 0x1D,
            SeqOpcode::NoteTimingCombined => 0x1E,
            SeqOpcode::PitchGlide => 0x1F,
            SeqOpcode::GapNop20 => 0x20,
            SeqOpcode::StopDacCvsd => 0x21,
            SeqOpcode::CvsdVolumeFade => 0x22,
            SeqOpcode::SendStatusToCpu => 0x23,
            SeqOpcode::SetChannelTiming => 0x24,
            SeqOpcode::FmKeyOnWithTiming => 0x25,
            SeqOpcode::AddTimingDelta => 0x26,
            SeqOpcode::FmPitchDeltaTableB => 0x27,
            SeqOpcode::FmPitchDeltaTableA => 0x28,
            SeqOpcode::FmPitchAbsTableB => 0x29,
            SeqOpcode::FmPitchAbsTableA => 0x2A,
            SeqOpcode::GlobalPitchSlideHi => 0x2B,
            SeqOpcode::GlobalPitchSlideLo => 0x2C,
            SeqOpcode::SetGlobalPitchAbsHi => 0x2D,
            SeqOpcode::SetGlobalPitchAbsLo => 0x2E,
            SeqOpcode::NoteTriggerRepeat => 0x2F,
            SeqOpcode::SetStereoMask => 0x30,
            SeqOpcode::ClearChannelMask => 0x31,
            SeqOpcode::IndirectOpcodeLoad => 0x32,
            SeqOpcode::InjectCmdRingBuf => 0x33,
            SeqOpcode::CvsdSamplePlayback => 0x34,
            SeqOpcode::TimingAdvanceAlt => 0x35,
            SeqOpcode::ProgramChange => 0x36,
            SeqOpcode::PushPitchTable4b => 0x37,
            SeqOpcode::SetVolumeAbs => 0x38,
            SeqOpcode::VolumeFadeRel => 0x39,
            SeqOpcode::FmKeyOnComplex => 0x3A,
            SeqOpcode::UpdateNoteRegister => 0x3B,
            SeqOpcode::NoteRegisterDelta => 0x3C,
            SeqOpcode::FreeVoiceEnd => 0x3D,
            SeqOpcode::SetBankSwitch => 0x3E,
        }
    }

    /// The opcode number the sequencer dispatches on.
    pub fn code(self) -> (c: u8)
        ensures
            c == self.spec_code(),
    {
        match self {
            SeqOpcode::EndOfSequence => 0x00,
            SeqOpcode::Nop => 0x01,
            SeqOpcode::CvsdSampleStartStereo => 0x08,
            SeqOpcode::CvsdSampleStart => 0x09,
            SeqOpcode::TimingAdvance => 0x0A,
            SeqOpcode::NoteOnTiming => 0x0B,
            SeqOpcode::FmPatchLoad => 0x0C,
            SeqOpcode::PushPitchTable => 0x0D,
            SeqOpcode::RepeatLoop => 0x0E,
            SeqOpcode::SetAbsolutePitch => 0x0F,
            SeqOpcode::TriggerSubSound => 0x10,
            SeqOpcode::GapNop11 => 0x11,
            SeqOpcode::InjectCmdRerun => 0x12,
            SeqOpcode::SubroutineCall => 0x13,
            SeqOpcode::SubroutineReturn => 0x14,
            SeqOpcode::FmKeyOff => 0x15,
            SeqOpcode::GapNop16 => 0x16,
            SeqOpcode::CvsdFmNoteOnAbs => 0x17,
            SeqOpcode::CvsdVoiceUpdate => 0x18,
            SeqOpcode::CvsdFmNoteOnDelta => 0x19,
            SeqOpcode::CvsdVibrato => 0x1A,
            SeqOpcode::Detune => 0x1B,
            SeqOpcode::PushPitchTableAlt => 0x1C,
            SeqOpcode::RepeatLoopAlt => 0x1D,
            SeqOpcode::NoteTimingCombined => 0x1E,
            SeqOpcode::PitchGlide => 0x1F,
            SeqOpcode::GapNop20 => 0x20,
            SeqOpcode::StopDacCvsd => 0x21,
            SeqOpcode::CvsdVolumeFade => 0x22,
            SeqOpcode::SendStatusToCpu => 0x23,
            SeqOpcode::SetChannelTiming => 0x24,
            SeqOpcode::FmKeyOnWithTiming => 0x25,
            SeqOpcode::AddTimingDelta => 0x26,
            SeqOpcode::FmPitchDeltaTableB => 0x27,
            SeqOpcode::FmPitchDeltaTableA => 0x28,
            SeqOpcode::FmPitchAbsTableB => 0x29,
            SeqOpcode::FmPitchAbsTableA => 0x2A,
            SeqOpcode::GlobalPitchSlideHi => 0x2B,
            SeqOpcode::GlobalPitchSlideLo => 0x2C,
            SeqOpcode::SetGlobalPitchAbsHi => 0x2D,
            SeqOpcode::SetGlobalPitchAbsLo => 0x2E,
            SeqOpcode::NoteTriggerRepeat => 0x2F,
            SeqOpcode::SetStereoMask => 0x30,
            SeqOpcode::ClearChannelMask => 0x31,
            SeqOpcode::IndirectOpcodeLoad => 0x32,
            SeqOpcode::InjectCmdRingBuf => 0x33,
            SeqOpcode::CvsdSamplePlayback => 0x34,
            SeqOpcode::TimingAdvanceAlt => 0x35,
            SeqOpcode::ProgramChange => 0x36,
            SeqOpcode::PushPitchTable4b => 0x37,
            SeqOpcode::SetVolumeAbs => 0x38,
            SeqOpcode::VolumeFadeRel => 0x39,
            SeqOpcode::FmKeyOnComplex => 0x3A,
            SeqOpcode::UpdateNoteRegister => 0x3B,
            SeqOpcode::NoteRegisterDelta => 0x3C,
            SeqOpcode::FreeVoiceEnd => 0x3D,
            SeqOpcode::SetBankSwitch => 0x3E,
        }
    }

    /// Try to decode a 6-bit opcode value.
    ///
    /// The opcode is masked to 6 bits by the sequencer; 0x3F is no opcode.
    pub fn from_u8(value: u8) -> (op: Option<Self>)
        ensures
            op == opcode_of(value),
            op is None <==> value & 0x3F == 0x3F,
            op == Some(SeqOpcode::Nop) <==> 1 <= value & 0x3F <= 7,
            op matches Some(o) ==> (o == SeqOpcode::Nop || o.spec_code() == value & 0x3F),
    {
        let r = match value & 0x3F {
            0x00 => Some(SeqOpcode::EndOfSequence),
            0x01..=0x07 => Some(SeqOpcode::Nop),
            0x08 => Some(SeqOpcode::CvsdSampleStartStereo),
            0x09 => Some(SeqOpcode::CvsdSampleStart),
            0x0A => Some(SeqOpcode::TimingAdvance),
            0x0B => Some(SeqOpcode::NoteOnTiming),
            0x0C => Some(SeqOpcode::FmPatchLoad),
            0x0D => Some(SeqOpcode::PushPitchTable),
            0x0E => Some(SeqOpcode::RepeatLoop),
            0x0F => Some(SeqOpcode::SetAbsolutePitch),
            0x10 => Some(SeqOpcode::TriggerSubSound),
            0x11 => Some(SeqOpcode::GapNop11),
            0x12 => Some(SeqOpcode::InjectCmdRerun),
            0x13 => Some(SeqOpcode::SubroutineCall),
            0x14 => Some(SeqOpcode::SubroutineReturn),
            0x15 => Some(SeqOpcode::FmKeyOff),
            0x16 => Some(SeqOpcode::GapNop16),
            0x17 => Some(SeqOpcode::CvsdFmNoteOnAbs),
            0x18 => Some(SeqOpcode::CvsdVoiceUpdate),
            0x19 => Some(SeqOpcode::CvsdFmNoteOnDelta),
            0x1A => Some(SeqOpcode::CvsdVibrato),
            0x1B => Some(SeqOpcode::Detune),
            0x1C => Some(SeqOpcode::PushPitchTableAlt),
            0x1D => Some(SeqOpcode::RepeatLoopAlt),
            0x1E => Some(SeqOpcode::NoteTimingCombined),
            0x1F => Some(SeqOpcode::PitchGlide),
            0x20 => Some(SeqOpcode::GapNop20),
            0x21 => Some(SeqOpcode::StopDacCvsd),
            0x22 => Some(SeqOpcode::CvsdVolumeFade),
            0x23 => Some(SeqOpcode::SendStatusToCpu),
            0x24 => Some(SeqOpcode::SetChannelTiming),
            0x25 => Some(SeqOpcode::FmKeyOnWithTiming),
            0x26 => Some(SeqOpcode::AddTimingDelta),
            0x27 => Some(SeqOpcode::FmPitchDeltaTableB),
            0x28 => Some(SeqOpcode::FmPitchDeltaTableA),
            0x29 => Some(SeqOpcode::FmPitchAbsTableB),
            0x2A => Some(SeqOpcode::FmPitchAbsTableA),
            0x2B => Some(SeqOpcode::GlobalPitchSlideHi),
            0x2C => Some(SeqOpcode::GlobalPitchSlideLo),
            0x2D => Some(SeqOpcode::SetGlobalPitchAbsHi),
            0x2E => Some(SeqOpcode::SetGlobalPitchAbsLo),
            0x2F => Some(SeqOpcode::NoteTriggerRepeat),
            0x30 => Some(SeqOpcode::SetStereoMask),
            0x31 => Some(SeqOpcode::ClearChannelMask),
            0x32 => Some(SeqOpcode::IndirectOpcodeLoad),
            0x33 => Some(SeqOpcode::InjectCmdRingBuf),
            0x34 => Some(SeqOpcode::CvsdSamplePlayback),
            0x35 => Some(SeqOpcode::TimingAdvanceAlt),
            0x36 => Some(SeqOpcode::ProgramChange),
            0x37 => Some(SeqOpcode::PushPitchTable4b),
            0x38 => Some(SeqOpcode::SetVolumeAbs),
            0x39 => Some(SeqOpcode::VolumeFadeRel),
            0x3A => Some(SeqOpcode::FmKeyOnComplex),
            0x3B => Some(SeqOpcode::UpdateNoteRegister),
            0x3C => Some(SeqOpcode::NoteRegisterDelta),
            0x3D => Some(SeqOpcode::FreeVoiceEnd),
            0x3E => Some(SeqOpcode::SetBankSwitch),
            _ => None,
        };
        proof {
            assert(value & 0x3F <= 0x3F) by (bit_vector);
            if let Some(o) = r {
                if o != SeqOpcode::Nop {
                    assert(o.spec_code() == value & 0x3F);
                    let c = choose|x: SeqOpcode| x.spec_code() == value & 0x3F;
                    lemma_code_injective(o, c);
                }
            }
        }
        r
    }
}

/// The opcode a sequencer byte selects: its low six bits are the opcode
/// number, 0x01–0x07 all select `Nop` and 0x3F selects nothing.
pub open spec fn opcode_of(value: u8) -> Option<SeqOpcode> {
    let code = value & 0x3F;
    if code == 0x3F {
        None
    } else if 1 <= code <= 7 {
        Some(SeqOpcode::Nop)
    } else {
        Some(choose|op: SeqOpcode| op.spec_code() == code)
    }
}

spec fn opcode_for_code(code: u8) -> SeqOpcode {
                if code == 0x00 {
            SeqOpcode::EndOfSequence
        } else         if code == 0x01 {
            SeqOpcode::Nop
        } else         if code == 0x08 {
            SeqOpcode::CvsdSampleStartStereo
        } else         if code == 0x09 {
            SeqOpcode::CvsdSampleStart
        } else         if code == 0x0A {
            SeqOpcode::TimingAdvance
        } else         if code == 0x0B {
            SeqOpcode::NoteOnTiming
        } else         if code == 0x0C {
            SeqOpcode::FmPatchLoad
        } else         if code == 0x0D {
            SeqOpcode::PushPitchTable
        } else         if code == 0x0E {
            SeqOpcode::RepeatLoop
        } else         if code == 0x0F {
            SeqOpcode::SetAbsolutePitch
        } else         if code == 0x10 {
            SeqOpcode::TriggerSubSound
        } else         if code == 0x11 {
            SeqOpcode::GapNop11
        } else         if code == 0x12 {
            SeqOpcode::InjectCmdRerun
        } else         if code == 0x13 {
            SeqOpcode::SubroutineCall
        } else         if code == 0x14 {
            SeqOpcode::SubroutineReturn
        } else         if code == 0x15 {
            SeqOpcode::FmKeyOff
        } else         if code == 0x16 {
            SeqOpcode::GapNop16
        } else         if code == 0x17 {
            SeqOpcode::CvsdFmNoteOnAbs
        } else         if code == 0x18 {
            SeqOpcode::CvsdVoiceUpdate
        } else         if code == 0x19 {
            SeqOpcode::CvsdFmNoteOnDelta
        } else         if code == 0x1A {
            SeqOpcode::CvsdVibrato
        } else         if code == 0x1B {
            SeqOpcode::Detune
        } else         if code == 0x1C {
            SeqOpcode::PushPitchTableAlt
        } else         if code == 0x1D {
            SeqOpcode::RepeatLoopAlt
        } else         if code == 0x1E {
            SeqOpcode::NoteTimingCombined
        } else         if code == 0x1F {
            SeqOpcode::PitchGlide
        } else         if code == 0x20 {
            SeqOpcode::GapNop20
        } else         if code == 0x21 {
            SeqOpcode::StopDacCvsd
        } else         if code == 0x22 {
            SeqOpcode::CvsdVolumeFade
        } else         if code == 0x23 {
            SeqOpcode::SendStatusToCpu
        } else         if code == 0x24 {
            SeqOpcode::SetChannelTiming
        } else         if code == 0x25 {
            SeqOpcode::FmKeyOnWithTiming
        } else         if code == 0x26 {
            SeqOpcode::AddTimingDelta
        } else         if code == 0x27 {
            SeqOpcode::FmPitchDeltaTableB
        } else         if code == 0x28 {
            SeqOpcode::FmPitchDeltaTableA
        } else         if code == 0x29 {
            SeqOpcode::FmPitchAbsTableB
        } else         if code == 0x2A {
            SeqOpcode::FmPitchAbsTableA
        } else         if code == 0x2B {
            SeqOpcode::GlobalPitchSlideHi
        } else         if code == 0x2C {
            SeqOpcode::GlobalPitchSlideLo
        } else         if code == 0x2D {
            SeqOpcode::SetGlobalPitchAbsHi
        } else         if code == 0x2E {
            SeqOpcode::SetGlobalPitchAbsLo
        } else         if code == 0x2F {
            SeqOpcode::NoteTriggerRepeat
        } else         if code == 0x30 {
            SeqOpcode::SetStereoMask
        } else         if code == 0x31 {
            SeqOpcode::ClearChannelMask
        } else         if code == 0x32 {
            SeqOpcode::IndirectOpcodeLoad
        } else         if code == 0x33 {
            SeqOpcode::InjectCmdRingBuf
        } else         if code == 0x34 {
            SeqOpcode::CvsdSamplePlayback
        } else         if code == 0x35 {
            SeqOpcode::TimingAdvanceAlt
        } else         if code == 0x36 {
            SeqOpcode::ProgramChange
        } else         if code == 0x37 {
            SeqOpcode::PushPitchTable4b
        } else         if code == 0x38 {
            SeqOpcode::SetVolumeAbs
        } else         if code == 0x39 {
            SeqOpcode::VolumeFadeRel
        } else         if code == 0x3A {
            SeqOpcode::FmKeyOnComplex
        } else         if code == 0x3B {
            SeqOpcode::UpdateNoteRegister
        } else         if code == 0x3C {
            SeqOpcode::NoteRegisterDelta
        } else         if code == 0x3D {
            SeqOpcode::FreeVoiceEnd
        } else         if code == 0x3E {
            SeqOpcode::SetBankSwitch
        } else {
            SeqOpcode::Nop
        }
}

proof fn lemma_opcode_for_code(op: SeqOpcode)
    ensures
        opcode_for_code(op.spec_code()) == op,
        op.spec_code() <= 0x3E,
{
    match op {
        SeqOpcode::EndOfSequence => {},
        SeqOpcode::Nop => {},
        SeqOpcode::CvsdSampleStartStereo => {},
        SeqOpcode::CvsdSampleStart => {},
        SeqOpcode::TimingAdvance => {},
        SeqOpcode::NoteOnTiming => {},
        SeqOpcode::FmPatchLoad => {},
        SeqOpcode::PushPitchTable => {},
        SeqOpcode::RepeatLoop => {},
        SeqOpcode::SetAbsolutePitch => {},
        SeqOpcode::TriggerSubSound => {},
        SeqOpcode::GapNop11 => {},
        SeqOpcode::InjectCmdRerun => {},
        SeqOpcode::SubroutineCall => {},
        SeqOpcode::SubroutineReturn => {},
        SeqOpcode::FmKeyOff => {},
        SeqOpcode::GapNop16 => {},
        SeqOpcode::CvsdFmNoteOnAbs => {},
        SeqOpcode::CvsdVoiceUpdate => {},
        SeqOpcode::CvsdFmNoteOnDelta => {},
        SeqOpcode::CvsdVibrato => {},
        SeqOpcode::Detune => {},
        SeqOpcode::PushPitchTableAlt => {},
        SeqOpcode::RepeatLoopAlt => {},
        SeqOpcode::NoteTimingCombined => {},
        SeqOpcode::PitchGlide => {},
        SeqOpcode::GapNop20 => {},
        SeqOpcode::StopDacCvsd => {},
        SeqOpcode::CvsdVolumeFade => {},
        SeqOpcode::SendStatusToCpu => {},
        SeqOpcode::SetChannelTiming => {},
        SeqOpcode::FmKeyOnWithTiming => {},
        SeqOpcode::AddTimingDelta => {},
        SeqOpcode::FmPitchDeltaTableB => {},
        SeqOpcode::FmPitchDeltaTableA => {},
        SeqOpcode::FmPitchAbsTableB => {},
        SeqOpcode::FmPitchAbsTableA => {},
        SeqOpcode::GlobalPitchSlideHi => {},
        SeqOpcode::GlobalPitchSlideLo => {},
        SeqOpcode::SetGlobalPitchAbsHi => {},
        SeqOpcode::SetGlobalPitchAbsLo => {},
        SeqOpcode::NoteTriggerRepeat => {},
        SeqOpcode::SetStereoMask => {},
        SeqOpcode::ClearChannelMask => {},
        SeqOpcode::IndirectOpcodeLoad => {},
        SeqOpcode::InjectCmdRingBuf => {},
        SeqOpcode::CvsdSamplePlayback => {},
        SeqOpcode::TimingAdvanceAlt => {},
        SeqOpcode::ProgramChange => {},
        SeqOpcode::PushPitchTable4b => {},
        SeqOpcode::SetVolumeAbs => {},
        SeqOpcode::VolumeFadeRel => {},
        SeqOpcode::FmKeyOnComplex => {},
        SeqOpcode::UpdateNoteRegister => {},
        SeqOpcode::NoteRegisterDelta => {},
        SeqOpcode::FreeVoiceEnd => {},
        SeqOpcode::SetBankSwitch => {},
    }
}

/// Distinct opcodes have distinct opcode numbers.
pub proof fn lemma_code_injective(a: SeqOpcode, b: SeqOpcode)
    requires
        a.spec_code() == b.spec_code(),
    ensures
        a == b,
{
    lemma_opcode_for_code(a);
    lemma_opcode_for_code(b);
}

proof fn lemma_low_six_bits(v: u8)
    by (bit_vector)
    ensures
        (v & 0x3F) & 0x3F == v & 0x3F,
        v <= 0x3F ==> v & 0x3F == v,
{
}

/// Only the low six bits of a sequencer byte select the opcode.
pub proof fn lemma_opcode_ignores_high_bits(value: u8)
    ensures
        opcode_of(value) == opcode_of(value & 0x3F),
{
    lemma_low_six_bits(value);
}

/// Decoding an opcode's own number gives back that opcode.
pub proof fn lemma_opcode_code_roundtrip(op: SeqOpcode)
    requires
        op != SeqOpcode::Nop,
    ensures
        opcode_of(op.spec_code()) == Some(op),
{
    lemma_opcode_for_code(op);
    lemma_low_six_bits(op.spec_code());
    let c = choose|x: SeqOpcode| x.spec_code() == op.spec_code();
    lemma_code_injective(op, c);
}

// ---------------------------------------------------------------------------
// Operand info — how many bytes each opcode consumes from the data stream
// ---------------------------------------------------------------------------

/// How the sequencer determines the next opcode after executing an instruction.
#[derive(Debug, Clone, Copy, PartialEq, Eq, Structural)]
pub enum NextOp {
    /// The last byte consumed from the stream is the next opcode.
    Embedded,
    /// The sequence terminates (voice freed or looping).
    Terminal,
    /// Control-flow transfer (subroutine call/return, indirect load).
    Branch,
}

impl SeqOpcode {
    /// Bytes consumed from the data stream, the alternate count of a
    /// variable-length opcode, and how the next opcode is found.  For
    /// [`NextOp::Embedded`] the last consumed byte is the next opcode.
    pub open spec fn layout(self) -> (usize, Option<usize>, NextOp) {
        match self {
            SeqOpcode::EndOfSequence => (1, None, NextOp::Terminal),
            SeqOpcode::Nop => (0, None, NextOp::Terminal),
            SeqOpcode::CvsdSampleStartStereo => (4, None, NextOp::Embedded),
            SeqOpcode::CvsdSampleStart => (3, None, NextOp::Embedded),
            SeqOpcode::TimingAdvance => (3, Some(4), NextOp::Embedded),
            SeqOpcode::NoteOnTiming => (2, Some(3), NextOp::Embedded),
            SeqOpcode::FmPatchLoad => (2, None, NextOp::Embedded),
            SeqOpcode::PushPitchTable => (2, None, NextOp::Embedded),
            SeqOpcode::RepeatLoop => (1, None, NextOp::Embedded),
            SeqOpcode::SetAbsolutePitch => (2, None, NextOp::Embedded),
            SeqOpcode::TriggerSubSound => (2, None, NextOp::Embedded),
            SeqOpcode::GapNop11 => (0, None, NextOp::Terminal),
            SeqOpcode::InjectCmdRerun => (1, None, NextOp::Terminal),
            SeqOpcode::SubroutineCall => (2, None, NextOp::Branch),
            SeqOpcode::SubroutineReturn => (0, None, NextOp::Branch),
            SeqOpcode::FmKeyOff => (0, None, NextOp::Terminal),
            SeqOpcode::GapNop16 => (0, None, NextOp::Terminal),
            SeqOpcode::CvsdFmNoteOnAbs => (3, None, NextOp::Embedded),
            SeqOpcode::CvsdVoiceUpdate => (3, None, NextOp::Embedded),
            SeqOpcode::CvsdFmNoteOnDelta => (3, None, NextOp::Embedded),
            SeqOpcode::CvsdVibrato => (5, None, NextOp::Embedded),
            SeqOpcode::Detune => (3, None, NextOp::Embedded),
            SeqOpcode::PushPitchTableAlt => (2, None, NextOp::Embedded),
            SeqOpcode::RepeatLoopAlt => (1, None, NextOp::Embedded),
            SeqOpcode::NoteTimingCombined => (2, Some(3), NextOp::Embedded),
            SeqOpcode::PitchGlide => (11, None, NextOp::Embedded),
            SeqOpcode::GapNop20 => (0, None, NextOp::Terminal),
            SeqOpcode::StopDacCvsd => (0, None, NextOp::Terminal),
            SeqOpcode::CvsdVolumeFade => (2, None, NextOp::Embedded),
            SeqOpcode::SendStatusToCpu => (2, None, NextOp::Embedded),
            SeqOpcode::SetChannelTiming => (3, None, NextOp::Embedded),
            SeqOpcode::FmKeyOnWithTiming => (1, None, NextOp::Embedded),
            SeqOpcode::AddTimingDelta => (3, None, NextOp::Embedded),
            SeqOpcode::FmPitchDeltaTableB => (3, None, NextOp::Embedded),
            SeqOpcode::FmPitchDeltaTableA => (3, None, NextOp::Embedded),
            SeqOpcode::FmPitchAbsTableB => (3, None, NextOp::Embedded),
            SeqOpcode::FmPitchAbsTableA => (3, None, NextOp::Embedded),
            SeqOpcode::GlobalPitchSlideHi => (3, None, NextOp::Embedded),
            SeqOpcode::GlobalPitchSlideLo => (3, None, NextOp::Embedded),
            SeqOpcode::SetGlobalPitchAbsHi => (3, None, NextOp::Embedded),
            SeqOpcode::SetGlobalPitchAbsLo => (3, None, NextOp::Embedded),
            SeqOpcode::NoteTriggerRepeat => (5, None, NextOp::Embedded),
            SeqOpcode::SetStereoMask => (1, None, NextOp::Embedded),
            SeqOpcode::ClearChannelMask => (1, None, NextOp::Embedded),
            SeqOpcode::IndirectOpcodeLoad => (2, None, NextOp::Branch),
            SeqOpcode::InjectCmdRingBuf => (2, None, NextOp::Embedded),
            SeqOpcode::CvsdSamplePlayback => (2, None, NextOp::Embedded),
            SeqOpcode::TimingAdvanceAlt => (2, Some(3), NextOp::Embedded),
            SeqOpcode::ProgramChange => (3, None, NextOp::Embedded),
            SeqOpcode::PushPitchTable4b => (4, None, NextOp::Embedded),
            SeqOpcode::SetVolumeAbs => (2, None, NextOp::Embedded),
            SeqOpcode::VolumeFadeRel => (2, None, NextOp::Embedded),
            SeqOpcode::FmKeyOnComplex => (2, Some(3), NextOp::Embedded),
            SeqOpcode::UpdateNoteRegister => (2, None, NextOp::Embedded),
            SeqOpcode::NoteRegisterDelta => (2, None, NextOp::Embedded),
            SeqOpcode::FreeVoiceEnd => (0, None, NextOp::Terminal),
            SeqOpcode::SetBankSwitch => (2, None, NextOp::Embedded),
        }
    }

    /// The operand layout of the opcode: its primary byte count, its
    /// alternate byte count where it has one (always one more, and only for
    /// opcodes that embed their successor), and how the next opcode is
    /// found. The two alias opcodes share the layouts of the ones they
    /// alias.
    pub fn operand_info(self) -> (info: (usize, Option<usize>, NextOp))
        ensures
            info == self.layout(),
            info.0 <= 11,
            info.1 matches Some(a) ==> a == info.0 + 1 && info.2 == NextOp::Embedded,
            info.2 == NextOp::Embedded ==> info.0 >= 1,
            self == SeqOpcode::PushPitchTableAlt ==> info == SeqOpcode::PushPitchTable.layout(),
            self == SeqOpcode::RepeatLoopAlt ==> info == SeqOpcode::RepeatLoop.layout(),
    {
        proof {
            lemma_layout_bounds(self);
        }
        match self {
            SeqOpcode::EndOfSequence => (1, None, NextOp::Terminal),
            SeqOpcode::Nop => (0, None, NextOp::Terminal),
            SeqOpcode::CvsdSampleStartStereo => (4, None, NextOp::Embedded),
            SeqOpcode::CvsdSampleStart => (3, None, NextOp::Embedded),
            SeqOpcode::TimingAdvance => (3, Some(4), NextOp::Embedded),
            SeqOpcode::NoteOnTiming => (2, Some(3), NextOp::Embedded),
            SeqOpcode::FmPatchLoad => (2, None, NextOp::Embedded),
            SeqOpcode::PushPitchTable => (2, None, NextOp::Embedded),
            SeqOpcode::RepeatLoop => (1, None, NextOp::Embedded),
            SeqOpcode::SetAbsolutePitch => (2, None, NextOp::Embedded),
            SeqOpcode::TriggerSubSound => (2, None, NextOp::Embedded),
            SeqOpcode::GapNop11 => (0, None, NextOp::Terminal),
            SeqOpcode::InjectCmdRerun => (1, None, NextOp::Terminal),
            SeqOpcode::SubroutineCall => (2, None, NextOp::Branch),
            SeqOpcode::SubroutineReturn => (0, None, NextOp::Branch),
            SeqOpcode::FmKeyOff => (0, None, NextOp::Terminal),
            SeqOpcode::GapNop16 => (0, None, NextOp::Terminal),
            SeqOpcode::CvsdFmNoteOnAbs => (3, None, NextOp::Embedded),
            SeqOpcode::CvsdVoiceUpdate => (3, None, NextOp::Embedded),
            SeqOpcode::CvsdFmNoteOnDelta => (3, None, NextOp::Embedded),
            SeqOpcode::CvsdVibrato => (5, None, NextOp::Embedded),
            SeqOpcode::Detune => (3, None, NextOp::Embedded),
            SeqOpcode::PushPitchTableAlt => (2, None, NextOp::Embedded),
            SeqOpcode::RepeatLoopAlt => (1, None, NextOp::Embedded),
            SeqOpcode::NoteTimingCombined => (2, Some(3), NextOp::Embedded),
            SeqOpcode::PitchGlide => (11, None, NextOp::Embedded),
            SeqOpcode::GapNop20 => (0, None, NextOp::Terminal),
            SeqOpcode::StopDacCvsd => (0, None, NextOp::Terminal),
            SeqOpcode::CvsdVolumeFade => (2, None, NextOp::Embedded),
            SeqOpcode::SendStatusToCpu => (2, None, NextOp::Embedded),
            SeqOpcode::SetChannelTiming => (3, None, NextOp::Embedded),
            SeqOpcode::FmKeyOnWithTiming => (1, None, NextOp::Embedded),
            SeqOpcode::AddTimingDelta => (3, None, NextOp::Embedded),
            SeqOpcode::FmPitchDeltaTableB => (3, None, NextOp::Embedded),
            SeqOpcode::FmPitchDeltaTableA => (3, None, NextOp::Embedded),
            SeqOpcode::FmPitchAbsTableB => (3, None, NextOp::Embedded),
            SeqOpcode::FmPitchAbsTableA => (3, None, NextOp::Embedded),
            SeqOpcode::GlobalPitchSlideHi => (3, None, NextOp::Embedded),
            SeqOpcode::GlobalPitchSlideLo => (3, None, NextOp::Embedded),
            SeqOpcode::SetGlobalPitchAbsHi => (3, None, NextOp::Embedded),
            SeqOpcode::SetGlobalPitchAbsLo => (3, None, NextOp::Embedded),
            SeqOpcode::NoteTriggerRepeat => (5, None, NextOp::Embedded),
            SeqOpcode::SetStereoMask => (1, None, NextOp::Embedded),
            SeqOpcode::ClearChannelMask => (1, None, NextOp::Embedded),
            SeqOpcode::IndirectOpcodeLoad => (2, None, NextOp::Branch),
            SeqOpcode::InjectCmdRingBuf => (2, None, NextOp::Embedded),
            SeqOpcode::CvsdSamplePlayback => (2, None, NextOp::Embedded),
            SeqOpcode::TimingAdvanceAlt => (2, Some(3), NextOp::Embedded),
            SeqOpcode::ProgramChange => (3, None, NextOp::Embedded),
            SeqOpcode::PushPitchTable4b => (4, None, NextOp::Embedded),
            SeqOpcode::SetVolumeAbs => (2, None, NextOp::Embedded),
            SeqOpcode::VolumeFadeRel => (2, None, NextOp::Embedded),
            SeqOpcode::FmKeyOnComplex => (2, Some(3), NextOp::Embedded),
            SeqOpcode::UpdateNoteRegister => (2, None, NextOp::Embedded),
            SeqOpcode::NoteRegisterDelta => (2, None, NextOp::Embedded),
            SeqOpcode::FreeVoiceEnd => (0, None, NextOp::Terminal),
            SeqOpcode::SetBankSwitch => (2, None, NextOp::Embedded),
        }
    }

    /// The variant name of an opcode.
    pub open spec fn spec_name(self) -> Seq<char> {
        match self {
            SeqOpcode::EndOfSequence => "EndOfSequence"@,
            SeqOpcode::Nop => "Nop"@,
            SeqOpcode::CvsdSampleStartStereo => "CvsdSampleStartStereo"@,
            SeqOpcode::CvsdSampleStart => "CvsdSampleStart"@,
            SeqOpcode::TimingAdvance => "TimingAdvance"@,
            SeqOpcode::NoteOnTiming => "NoteOnTiming"@,
            SeqOpcode::FmPatchLoad => "FmPatchLoad"@,
            SeqOpcode::PushPitchTable => "PushPitchTable"@,
            SeqOpcode::RepeatLoop => "RepeatLoop"@,
            SeqOpcode::SetAbsolutePitch => "SetAbsolutePitch"@,
            SeqOpcode::TriggerSubSound => "TriggerSubSound"@,
            SeqOpcode::GapNop11 => "GapNop11"@,
            SeqOpcode::InjectCmdRerun => "InjectCmdRerun"@,
            SeqOpcode::SubroutineCall => "SubroutineCall"@,
            SeqOpcode::SubroutineReturn => "SubroutineReturn"@,
            SeqOpcode::FmKeyOff => "FmKeyOff"@,
            SeqOpcode::GapNop16 => "GapNop16"@,
            SeqOpcode::CvsdFmNoteOnAbs => "CvsdFmNoteOnAbs"@,
            SeqOpcode::CvsdVoiceUpdate => "CvsdVoiceUpdate"@,
            SeqOpcode::CvsdFmNoteOnDelta => "CvsdFmNoteOnDelta"@,
            SeqOpcode::CvsdVibrato => "CvsdVibrato"@,
            SeqOpcode::Detune => "Detune"@,
            SeqOpcode::PushPitchTableAlt => "PushPitchTableAlt"@,
            SeqOpcode::RepeatLoopAlt => "RepeatLoopAlt"@,
            SeqOpcode::NoteTimingCombined => "NoteTimingCombined"@,
            SeqOpcode::PitchGlide => "PitchGlide"@,
            SeqOpcode::GapNop20 => "GapNop20"@,
            SeqOpcode::StopDacCvsd => "StopDacCvsd"@,
            SeqOpcode::CvsdVolumeFade => "CvsdVolumeFade"@,
            SeqOpcode::SendStatusToCpu => "SendStatusToCpu"@,
            SeqOpcode::SetChannelTiming => "SetChannelTiming"@,
            SeqOpcode::FmKeyOnWithTiming => "FmKeyOnWithTiming"@,
            SeqOpcode::AddTimingDelta => "AddTimingDelta"@,
            SeqOpcode::FmPitchDeltaTableB => "FmPitchDeltaTableB"@,
            SeqOpcode::FmPitchDeltaTableA => "FmPitchDeltaTableA"@,
            SeqOpcode::FmPitchAbsTableB => "FmPitchAbsTableB"@,
            SeqOpcode::FmPitchAbsTableA => "FmPitchAbsTableA"@,
            SeqOpcode::GlobalPitchSlideHi => "GlobalPitchSlideHi"@,
            SeqOpcode::GlobalPitchSlideLo => "GlobalPitchSlideLo"@,
            SeqOpcode::SetGlobalPitchAbsHi => "SetGlobalPitchAbsHi"@,
            SeqOpcode::SetGlobalPitchAbsLo => "SetGlobalPitchAbsLo"@,
            SeqOpcode::NoteTriggerRepeat => "NoteTriggerRepeat"@,
            SeqOpcode::SetStereoMask => "SetStereoMask"@,
            SeqOpcode::ClearChannelMask => "ClearChannelMask"@,
            SeqOpcode::IndirectOpcodeLoad => "IndirectOpcodeLoad"@,
            SeqOpcode::InjectCmdRingBuf => "InjectCmdRingBuf"@,
            SeqOpcode::CvsdSamplePlayback => "CvsdSamplePlayback"@,
            SeqOpcode::TimingAdvanceAlt => "TimingAdvanceAlt"@,
            SeqOpcode::ProgramChange => "ProgramChange"@,
            SeqOpcode::PushPitchTable4b => "PushPitchTable4b"@,
            SeqOpcode::SetVolumeAbs => "SetVolumeAbs"@,
            SeqOpcode::VolumeFadeRel => "VolumeFadeRel"@,
            SeqOpcode::FmKeyOnComplex => "FmKeyOnComplex"@,
            SeqOpcode::UpdateNoteRegister => "UpdateNoteRegister"@,
            SeqOpcode::NoteRegisterDelta => "NoteRegisterDelta"@,
            SeqOpcode::FreeVoiceEnd => "FreeVoiceEnd"@,
            SeqOpcode::SetBankSwitch => "SetBankSwitch"@,
        }
    }

    /// The variant name of an opcode, as printed in listings.
    pub fn name(self) -> (name: &'static str)
        ensures
            name@ == self.spec_name(),
    {
        match self {
            SeqOpcode::EndOfSequence => "EndOfSequence",
            SeqOpcode::Nop => "Nop",
            SeqOpcode::CvsdSampleStartStereo => "CvsdSampleStartStereo",
            SeqOpcode::CvsdSampleStart => "CvsdSampleStart",
            SeqOpcode::TimingAdvance => "TimingAdvance",
            SeqOpcode::NoteOnTiming => "NoteOnTiming",
            SeqOpcode::FmPatchLoad => "FmPatchLoad",
            SeqOpcode::PushPitchTable => "PushPitchTable",
            SeqOpcode::RepeatLoop => "RepeatLoop",
            SeqOpcode::SetAbsolutePitch => "SetAbsolutePitch",
            SeqOpcode::TriggerSubSound => "TriggerSubSound",
            SeqOpcode::GapNop11 => "GapNop11",
            SeqOpcode::InjectCmdRerun => "InjectCmdRerun",
            SeqOpcode::SubroutineCall => "SubroutineCall",
            SeqOpcode::SubroutineReturn => "SubroutineReturn",
            SeqOpcode::FmKeyOff => "FmKeyOff",
            SeqOpcode::GapNop16 => "GapNop16",
            SeqOpcode::CvsdFmNoteOnAbs => "CvsdFmNoteOnAbs",
            SeqOpcode::CvsdVoiceUpdate => "CvsdVoiceUpdate",
            SeqOpcode::CvsdFmNoteOnDelta => "CvsdFmNoteOnDelta",
            SeqOpcode::CvsdVibrato => "CvsdVibrato",
            SeqOpcode::Detune => "Detune",
            SeqOpcode::PushPitchTableAlt => "PushPitchTableAlt",
            SeqOpcode::RepeatLoopAlt => "RepeatLoopAlt",
            SeqOpcode::NoteTimingCombined => "NoteTimingCombined",
            SeqOpcode::PitchGlide => "PitchGlide",
            SeqOpcode::GapNop20 => "GapNop20",
            SeqOpcode::StopDacCvsd => "StopDacCvsd",
            SeqOpcode::CvsdVolumeFade => "CvsdVolumeFade",
            SeqOpcode::SendStatusToCpu => "SendStatusToCpu",
            SeqOpcode::SetChannelTiming => "SetChannelTiming",
            SeqOpcode::FmKeyOnWithTiming => "FmKeyOnWithTiming",
            SeqOpcode::AddTimingDelta => "AddTimingDelta",
            SeqOpcode::FmPitchDeltaTableB => "FmPitchDeltaTableB",
            SeqOpcode::FmPitchDeltaTableA => "FmPitchDeltaTableA",
            SeqOpcode::FmPitchAbsTableB => "FmPitchAbsTableB",
            SeqOpcode::FmPitchAbsTableA => "FmPitchAbsTableA",
            SeqOpcode::GlobalPitchSlideHi => "GlobalPitchSlideHi",
            SeqOpcode::GlobalPitchSlideLo => "GlobalPitchSlideLo",
            SeqOpcode::SetGlobalPitchAbsHi => "SetGlobalPitchAbsHi",
            SeqOpcode::SetGlobalPitchAbsLo => "SetGlobalPitchAbsLo",
            SeqOpcode::NoteTriggerRepeat => "NoteTriggerRepeat",
            SeqOpcode::SetStereoMask => "SetStereoMask",
            SeqOpcode::ClearChannelMask => "ClearChannelMask",
            SeqOpcode::IndirectOpcodeLoad => "IndirectOpcodeLoad",
            SeqOpcode::InjectCmdRingBuf => "InjectCmdRingBuf",
            SeqOpcode::CvsdSamplePlayback => "CvsdSamplePlayback",
            SeqOpcode::TimingAdvanceAlt => "TimingAdvanceAlt",
            SeqOpcode::ProgramChange => "ProgramChange",
            SeqOpcode::PushPitchTable4b => "PushPitchTable4b",
            SeqOpcode::SetVolumeAbs => "SetVolumeAbs",
            SeqOpcode::VolumeFadeRel => "VolumeFadeRel",
            SeqOpcode::FmKeyOnComplex => "FmKeyOnComplex",
            SeqOpcode::UpdateNoteRegister => "UpdateNoteRegister",
            SeqOpcode::NoteRegisterDelta => "NoteRegisterDelta",
            SeqOpcode::FreeVoiceEnd => "FreeVoiceEnd",
            SeqOpcode::SetBankSwitch => "SetBankSwitch",
        }
    }
}

/// Every opcode that embeds its successor consumes at least that byte, and
/// no opcode consumes more than 11 bytes.
pub proof fn lemma_layout_bounds(op: SeqOpcode)
    ensures
        op.layout().0 <= 11,
        op.layout().1 matches Some(a) ==> 1 <= a <= 11,
        op.layout().1 matches Some(a) ==> a == op.layout().0 + 1 && op.layout().2
            == NextOp::Embedded,
        op.layout().2 == NextOp::Embedded ==> op.layout().0 >= 1,
{
}

/// The firmware's opcode table, code by code: the opcode each of the 64
/// six-bit codes selects, with its operand layout (bytes consumed, the
/// alternate count of a variable-length opcode, and how the next opcode is
/// found). Codes 0x01-0x07 all select `Nop` and 0x3F selects nothing.
pub proof fn lemma_firmware_opcode_table()
    ensures
        opcode_of(0x00u8) == Some(SeqOpcode::EndOfSequence)
            && SeqOpcode::EndOfSequence.layout() == (1usize, None::<usize>, NextOp::Terminal),
        opcode_of(0x01u8) == Some(SeqOpcode::Nop)
            && SeqOpcode::Nop.layout() == (0usize, None::<usize>, NextOp::Terminal),
        opcode_of(0x02u8) == Some(SeqOpcode::Nop)
            && SeqOpcode::Nop.layout() == (0usize, None::<usize>, NextOp::Terminal),
        opcode_of(0x03u8) == Some(SeqOpcode::Nop)
            && SeqOpcode::Nop.layout() == (0usize, None::<usize>, NextOp::Terminal),
        opcode_of(0x04u8) == Some(SeqOpcode::Nop)
            && SeqOpcode::Nop.layout() == (0usize, None::<usize>, NextOp::Terminal),
        opcode_of(0x05u8) == Some(SeqOpcode::Nop)
            && SeqOpcode::Nop.layout() == (0usize, None::<usize>, NextOp::Terminal),
        opcode_of(0x06u8) == Some(SeqOpcode::Nop)
            && SeqOpcode::Nop.layout() == (0usize, None::<usize>, NextOp::Terminal),
        opcode_of(0x07u8) == Some(SeqOpcode::Nop)
            && SeqOpcode::Nop.layout() == (0usize, None::<usize>, NextOp::Terminal),
        opcode_of(0x08u8) == Some(SeqOpcode::CvsdSampleStartStereo)
            && SeqOpcode::CvsdSampleStartStereo.layout() == (4usize, None::<usize>, NextOp::Embedded),
        opcode_of(0x09u8) == Some(SeqOpcode::CvsdSampleStart)
            && SeqOpcode::CvsdSampleStart.layout() == (3usize, None::<usize>, NextOp::Embedded),
        opcode_of(0x0Au8) == Some(SeqOpcode::TimingAdvance)
            && SeqOpcode::TimingAdvance.layout() == (3usize, Some(4usize), NextOp::Embedded),
        opcode_of(0x0Bu8) == Some(SeqOpcode::NoteOnTiming)
            && SeqOpcode::NoteOnTiming.layout() == (2usize, Some(3usize), NextOp::Embedded),
        opcode_of(0x0Cu8) == Some(SeqOpcode::FmPatchLoad)
            && SeqOpcode::FmPatchLoad.layout() == (2usize, None::<usize>, NextOp::Embedded),
        opcode_of(0x0Du8) == Some(SeqOpcode::PushPitchTable)
            && SeqOpcode::PushPitchTable.layout() == (2usize, None::<usize>, NextOp::Embedded),
        opcode_of(0x0Eu8) == Some(SeqOpcode::RepeatLoop)
            && SeqOpcode::RepeatLoop.layout() == (1usize, None::<usize>, NextOp::Embedded),
        opcode_of(0x0Fu8) == Some(SeqOpcode::SetAbsolutePitch)
            && SeqOpcode::SetAbsolutePitch.layout() == (2usize, None::<usize>, NextOp::Embedded),
        opcode_of(0x10u8) == Some(SeqOpcode::TriggerSubSound)
            && SeqOpcode::TriggerSubSound.layout() == (2usize, None::<usize>, NextOp::Embedded),
        opcode_of(0x11u8) == Some(SeqOpcode::GapNop11)
            && SeqOpcode::GapNop11.layout() == (0usize, None::<usize>, NextOp::Terminal),
        opcode_of(0x12u8) == Some(SeqOpcode::InjectCmdRerun)
            && SeqOpcode::InjectCmdRerun.layout() == (1usize, None::<usize>, NextOp::Terminal),
        opcode_of(0x13u8) == Some(SeqOpcode::SubroutineCall)
            && SeqOpcode::SubroutineCall.layout() == (2usize, None::<usize>, NextOp::Branch),
        opcode_of(0x14u8) == Some(SeqOpcode::SubroutineReturn)
            && SeqOpcode::SubroutineReturn.layout() == (0usize, None::<usize>, NextOp::Branch),
        opcode_of(0x15u8) == Some(SeqOpcode::FmKeyOff)
            && SeqOpcode::FmKeyOff.layout() == (0usize, None::<usize>, NextOp::Terminal),
        opcode_of(0x16u8) == Some(SeqOpcode::GapNop16)
            && SeqOpcode::GapNop16.layout() == (0usize, None::<usize>, NextOp::Terminal),
        opcode_of(0x17u8) == Some(SeqOpcode::CvsdFmNoteOnAbs)
            && SeqOpcode::CvsdFmNoteOnAbs.layout() == (3usize, None::<usize>, NextOp::Embedded),
        opcode_of(0x18u8) == Some(SeqOpcode::CvsdVoiceUpdate)
            && SeqOpcode::CvsdVoiceUpdate.layout() == (3usize, None::<usize>, NextOp::Embedded),
        opcode_of(0x19u8) == Some(SeqOpcode::CvsdFmNoteOnDelta)
            && SeqOpcode::CvsdFmNoteOnDelta.layout() == (3usize, None::<usize>, NextOp::Embedded),
        opcode_of(0x1Au8) == Some(SeqOpcode::CvsdVibrato)
            && SeqOpcode::CvsdVibrato.layout() == (5usize, None::<usize>, NextOp::Embedded),
        opcode_of(0x1Bu8) == Some(SeqOpcode::Detune)
            && SeqOpcode::Detune.layout() == (3usize, None::<usize>, NextOp::Embedded),
        opcode_of(0x1Cu8) == Some(SeqOpcode::PushPitchTableAlt)
            && SeqOpcode::PushPitchTableAlt.layout() == (2usize, None::<usize>, NextOp::Embedded),
        opcode_of(0x1Du8) == Some(SeqOpcode::RepeatLoopAlt)
            && SeqOpcode::RepeatLoopAlt.layout() == (1usize, None::<usize>, NextOp::Embedded),
        opcode_of(0x1Eu8) == Some(SeqOpcode::NoteTimingCombined)
            && SeqOpcode::NoteTimingCombined.layout() == (2usize, Some(3usize), NextOp::Embedded),
        opcode_of(0x1Fu8) == Some(SeqOpcode::PitchGlide)
            && SeqOpcode::PitchGlide.layout() == (11usize, None::<usize>, NextOp::Embedded),
        opcode_of(0x20u8) == Some(SeqOpcode::GapNop20)
            && SeqOpcode::GapNop20.layout() == (0usize, None::<usize>, NextOp::Terminal),
        opcode_of(0x21u8) == Some(SeqOpcode::StopDacCvsd)
            && SeqOpcode::StopDacCvsd.layout() == (0usize, None::<usize>, NextOp::Terminal),
        opcode_of(0x22u8) == Some(SeqOpcode::CvsdVolumeFade)
            && SeqOpcode::CvsdVolumeFade.layout() == (2usize, None::<usize>, NextOp::Embedded),
        opcode_of(0x23u8) == Some(SeqOpcode::SendStatusToCpu)
            && SeqOpcode::SendStatusToCpu.layout() == (2usize, None::<usize>, NextOp::Embedded),
        opcode_of(0x24u8) == Some(SeqOpcode::SetChannelTiming)
            && SeqOpcode::SetChannelTiming.layout() == (3usize, None::<usize>, NextOp::Embedded),
        opcode_of(0x25u8) == Some(SeqOpcode::FmKeyOnWithTiming)
            && SeqOpcode::FmKeyOnWithTiming.layout() == (1usize, None::<usize>, NextOp::Embedded),
        opcode_of(0x26u8) == Some(SeqOpcode::AddTimingDelta)
            && SeqOpcode::AddTimingDelta.layout() == (3usize, None::<usize>, NextOp::Embedded),
        opcode_of(0x27u8) == Some(SeqOpcode::FmPitchDeltaTableB)
            && SeqOpcode::FmPitchDeltaTableB.layout() == (3usize, None::<usize>, NextOp::Embedded),
        opcode_of(0x28u8) == Some(SeqOpcode::FmPitchDeltaTableA)
            && SeqOpcode::FmPitchDeltaTableA.layout() == (3usize, None::<usize>, NextOp::Embedded),
        opcode_of(0x29u8) == Some(SeqOpcode::FmPitchAbsTableB)
            && SeqOpcode::FmPitchAbsTableB.layout() == (3usize, None::<usize>, NextOp::Embedded),
        opcode_of(0x2Au8) == Some(SeqOpcode::FmPitchAbsTableA)
            && SeqOpcode::FmPitchAbsTableA.layout() == (3usize, None::<usize>, NextOp::Embedded),
        opcode_of(0x2Bu8) == Some(SeqOpcode::GlobalPitchSlideHi)
            && SeqOpcode::GlobalPitchSlideHi.layout() == (3usize, None::<usize>, NextOp::Embedded),
        opcode_of(0x2Cu8) == Some(SeqOpcode::GlobalPitchSlideLo)
            && SeqOpcode::GlobalPitchSlideLo.layout() == (3usize, None::<usize>, NextOp::Embedded),
        opcode_of(0x2Du8) == Some(SeqOpcode::SetGlobalPitchAbsHi)
            && SeqOpcode::SetGlobalPitchAbsHi.layout() == (3usize, None::<usize>, NextOp::Embedded),
        opcode_of(0x2Eu8) == Some(SeqOpcode::SetGlobalPitchAbsLo)
            && SeqOpcode::SetGlobalPitchAbsLo.layout() == (3usize, None::<usize>, NextOp::Embedded),
        opcode_of(0x2Fu8) == Some(SeqOpcode::NoteTriggerRepeat)
            && SeqOpcode::NoteTriggerRepeat.layout() == (5usize, None::<usize>, NextOp::Embedded),
        opcode_of(0x30u8) == Some(SeqOpcode::SetStereoMask)
            && SeqOpcode::SetStereoMask.layout() == (1usize, None::<usize>, NextOp::Embedded),
        opcode_of(0x31u8) == Some(SeqOpcode::ClearChannelMask)
            && SeqOpcode::ClearChannelMask.layout() == (1usize, None::<usize>, NextOp::Embedded),
        opcode_of(0x32u8) == Some(SeqOpcode::IndirectOpcodeLoad)
            && SeqOpcode::IndirectOpcodeLoad.layout() == (2usize, None::<usize>, NextOp::Branch),
        opcode_of(0x33u8) == Some(SeqOpcode::InjectCmdRingBuf)
            && SeqOpcode::InjectCmdRingBuf.layout() == (2usize, None::<usize>, NextOp::Embedded),
        opcode_of(0x34u8) == Some(SeqOpcode::CvsdSamplePlayback)
            && SeqOpcode::CvsdSamplePlayback.layout() == (2usize, None::<usize>, NextOp::Embedded),
        opcode_of(0x35u8) == Some(SeqOpcode::TimingAdvanceAlt)
            && SeqOpcode::TimingAdvanceAlt.layout() == (2usize, Some(3usize), NextOp::Embedded),
        opcode_of(0x36u8) == Some(SeqOpcode::ProgramChange)
            && SeqOpcode::ProgramChange.layout() == (3usize, None::<usize>, NextOp::Embedded),
        opcode_of(0x37u8) == Some(SeqOpcode::PushPitchTable4b)
            && SeqOpcode::PushPitchTable4b.layout() == (4usize, None::<usize>, NextOp::Embedded),
        opcode_of(0x38u8) == Some(SeqOpcode::SetVolumeAbs)
            && SeqOpcode::SetVolumeAbs.layout() == (2usize, None::<usize>, NextOp::Embedded),
        opcode_of(0x39u8) == Some(SeqOpcode::VolumeFadeRel)
            && SeqOpcode::VolumeFadeRel.layout() == (2usize, None::<usize>, NextOp::Embedded),
        opcode_of(0x3Au8) == Some(SeqOpcode::FmKeyOnComplex)
            && SeqOpcode::FmKeyOnComplex.layout() == (2usize, Some(3usize), NextOp::Embedded),
        opcode_of(0x3Bu8) == Some(SeqOpcode::UpdateNoteRegister)
            && SeqOpcode::UpdateNoteRegister.layout() == (2usize, None::<usize>, NextOp::Embedded),
        opcode_of(0x3Cu8) == Some(SeqOpcode::NoteRegisterDelta)
            && SeqOpcode::NoteRegisterDelta.layout() == (2usize, None::<usize>, NextOp::Embedded),
        opcode_of(0x3Du8) == Some(SeqOpcode::FreeVoiceEnd)
            && SeqOpcode::FreeVoiceEnd.layout() == (0usize, None::<usize>, NextOp::Terminal),
        opcode_of(0x3Eu8) == Some(SeqOpcode::SetBankSwitch)
            && SeqOpcode::SetBankSwitch.layout() == (2usize, None::<usize>, NextOp::Embedded),
        opcode_of(0x3Fu8) is None,
{
    assert(opcode_of(0x00u8) == Some(SeqOpcode::EndOfSequence)
            && SeqOpcode::EndOfSequence.layout() == (1usize, None::<usize>, NextOp::Terminal)) by {
        lemma_opcode_code_roundtrip(SeqOpcode::EndOfSequence);
    }
    assert(opcode_of(0x01u8) == Some(SeqOpcode::Nop)
            && SeqOpcode::Nop.layout() == (0usize, None::<usize>, NextOp::Terminal)) by {
        lemma_low_six_bits(0x01u8);
    }
    assert(opcode_of(0x02u8) == Some(SeqOpcode::Nop)
            && SeqOpcode::Nop.layout() == (0usize, None::<usize>, NextOp::Terminal)) by {
        lemma_low_six_bits(0x02u8);
    }
    assert(opcode_of(0x03u8) == Some(SeqOpcode::Nop)
            && SeqOpcode::Nop.layout() == (0usize, None::<usize>, NextOp::Terminal)) by {
        lemma_low_six_bits(0x03u8);
    }
    assert(opcode_of(0x04u8) == Some(SeqOpcode::Nop)
            && SeqOpcode::Nop.layout() == (0usize, None::<usize>, NextOp::Terminal)) by {
        lemma_low_six_bits(0x04u8);
    }
    assert(opcode_of(0x05u8) == Some(SeqOpcode::Nop)
            && SeqOpcode::Nop.layout() == (0usize, None::<usize>, NextOp::Terminal)) by {
        lemma_low_six_bits(0x05u8);
    }
    assert(opcode_of(0x06u8) == Some(SeqOpcode::Nop)
            && SeqOpcode::Nop.layout() == (0usize, None::<usize>, NextOp::Terminal)) by {
        lemma_low_six_bits(0x06u8);
    }
    assert(opcode_of(0x07u8) == Some(SeqOpcode::Nop)
            && SeqOpcode::Nop.layout() == (0usize, None::<usize>, NextOp::Terminal)) by {
        lemma_low_six_bits(0x07u8);
    }
    assert(opcode_of(0x08u8) == Some(SeqOpcode::CvsdSampleStartStereo)
            && SeqOpcode::CvsdSampleStartStereo.layout() == (4usize, None::<usize>, NextOp::Embedded)) by {
        lemma_opcode_code_roundtrip(SeqOpcode::CvsdSampleStartStereo);
    }
    assert(opcode_of(0x09u8) == Some(SeqOpcode::CvsdSampleStart)
            && SeqOpcode::CvsdSampleStart.layout() == (3usize, None::<usize>, NextOp::Embedded)) by {
        lemma_opcode_code_roundtrip(SeqOpcode::CvsdSampleStart);
    }
    assert(opcode_of(0x0Au8) == Some(SeqOpcode::TimingAdvance)
            && SeqOpcode::TimingAdvance.layout() == (3usize, Some(4usize), NextOp::Embedded)) by {
        lemma_opcode_code_roundtrip(SeqOpcode::TimingAdvance);
    }
    assert(opcode_of(0x0Bu8) == Some(SeqOpcode::NoteOnTiming)
            && SeqOpcode::NoteOnTiming.layout() == (2usize, Some(3usize), NextOp::Embedded)) by {
        lemma_opcode_code_roundtrip(SeqOpcode::NoteOnTiming);
    }
    assert(opcode_of(0x0Cu8) == Some(SeqOpcode::FmPatchLoad)
            && SeqOpcode::FmPatchLoad.layout() == (2usize, None::<usize>, NextOp::Embedded)) by {
        lemma_opcode_code_roundtrip(SeqOpcode::FmPatchLoad);
    }
    assert(opcode_of(0x0Du8) == Some(SeqOpcode::PushPitchTable)
            && SeqOpcode::PushPitchTable.layout() == (2usize, None::<usize>, NextOp::Embedded)) by {
        lemma_opcode_code_roundtrip(SeqOpcode::PushPitchTable);
    }
    assert(opcode_of(0x0Eu8) == Some(SeqOpcode::RepeatLoop)
            && SeqOpcode::RepeatLoop.layout() == (1usize, None::<usize>, NextOp::Embedded)) by {
        lemma_opcode_code_roundtrip(SeqOpcode::RepeatLoop);
    }
    assert(opcode_of(0x0Fu8) == Some(SeqOpcode::SetAbsolutePitch)
            && SeqOpcode::SetAbsolutePitch.layout() == (2usize, None::<usize>, NextOp::Embedded)) by {
        lemma_opcode_code_roundtrip(SeqOpcode::SetAbsolutePitch);
    }
    assert(opcode_of(0x10u8) == Some(SeqOpcode::TriggerSubSound)
            && SeqOpcode::TriggerSubSound.layout() == (2usize, None::<usize>, NextOp::Embedded)) by {
        lemma_opcode_code_roundtrip(SeqOpcode::TriggerSubSound);
    }
    assert(opcode_of(0x11u8) == Some(SeqOpcode::GapNop11)
            && SeqOpcode::GapNop11.layout() == (0usize, None::<usize>, NextOp::Terminal)) by {
        lemma_opcode_code_roundtrip(SeqOpcode::GapNop11);
    }
    assert(opcode_of(0x12u8) == Some(SeqOpcode::InjectCmdRerun)
            && SeqOpcode::InjectCmdRerun.layout() == (1usize, None::<usize>, NextOp::Terminal)) by {
        lemma_opcode_code_roundtrip(SeqOpcode::InjectCmdRerun);
    }
    assert(opcode_of(0x13u8) == Some(SeqOpcode::SubroutineCall)
            && SeqOpcode::SubroutineCall.layout() == (2usize, None::<usize>, NextOp::Branch)) by {
        lemma_opcode_code_roundtrip(SeqOpcode::SubroutineCall);
    }
    assert(opcode_of(0x14u8) == Some(SeqOpcode::SubroutineReturn)
            && SeqOpcode::SubroutineReturn.layout() == (0usize, None::<usize>, NextOp::Branch)) by {
        lemma_opcode_code_roundtrip(SeqOpcode::SubroutineReturn);
    }
    assert(opcode_of(0x15u8) == Some(SeqOpcode::FmKeyOff)
            && SeqOpcode::FmKeyOff.layout() == (0usize, None::<usize>, NextOp::Terminal)) by {
        lemma_opcode_code_roundtrip(SeqOpcode::FmKeyOff);
    }
    assert(opcode_of(0x16u8) == Some(SeqOpcode::GapNop16)
            && SeqOpcode::GapNop16.layout() == (0usize, None::<usize>, NextOp::Terminal)) by {
        lemma_opcode_code_roundtrip(SeqOpcode::GapNop16);
    }
    assert(opcode_of(0x17u8) == Some(SeqOpcode::CvsdFmNoteOnAbs)
            && SeqOpcode::CvsdFmNoteOnAbs.layout() == (3usize, None::<usize>, NextOp::Embedded)) by {
        lemma_opcode_code_roundtrip(SeqOpcode::CvsdFmNoteOnAbs);
    }
    assert(opcode_of(0x18u8) == Some(SeqOpcode::CvsdVoiceUpdate)
            && SeqOpcode::CvsdVoiceUpdate.layout() == (3usize, None::<usize>, NextOp::Embedded)) by {
        lemma_opcode_code_roundtrip(SeqOpcode::CvsdVoiceUpdate);
    }
    assert(opcode_of(0x19u8) == Some(SeqOpcode::CvsdFmNoteOnDelta)
            && SeqOpcode::CvsdFmNoteOnDelta.layout() == (3usize, None::<usize>, NextOp::Embedded)) by {
        lemma_opcode_code_roundtrip(SeqOpcode::CvsdFmNoteOnDelta);
    }
    assert(opcode_of(0x1Au8) == Some(SeqOpcode::CvsdVibrato)
            && SeqOpcode::CvsdVibrato.layout() == (5usize, None::<usize>, NextOp::Embedded)) by {
        lemma_opcode_code_roundtrip(SeqOpcode::CvsdVibrato);
    }
    assert(opcode_of(0x1Bu8) == Some(SeqOpcode::Detune)
            && SeqOpcode::Detune.layout() == (3usize, None::<usize>, NextOp::Embedded)) by {
        lemma_opcode_code_roundtrip(SeqOpcode::Detune);
    }
    assert(opcode_of(0x1Cu8) == Some(SeqOpcode::PushPitchTableAlt)
            && SeqOpcode::PushPitchTableAlt.layout() == (2usize, None::<usize>, NextOp::Embedded)) by {
        lemma_opcode_code_roundtrip(SeqOpcode::PushPitchTableAlt);
    }
    assert(opcode_of(0x1Du8) == Some(SeqOpcode::RepeatLoopAlt)
            && SeqOpcode::RepeatLoopAlt.layout() == (1usize, None::<usize>, NextOp::Embedded)) by {
        lemma_opcode_code_roundtrip(SeqOpcode::RepeatLoopAlt);
    }
    assert(opcode_of(0x1Eu8) == Some(SeqOpcode::NoteTimingCombined)
            && SeqOpcode::NoteTimingCombined.layout() == (2usize, Some(3usize), NextOp::Embedded)) by {
        lemma_opcode_code_roundtrip(SeqOpcode::NoteTimingCombined);
    }
    assert(opcode_of(0x1Fu8) == Some(SeqOpcode::PitchGlide)
            && SeqOpcode::PitchGlide.layout() == (11usize, None::<usize>, NextOp::Embedded)) by {
        lemma_opcode_code_roundtrip(SeqOpcode::PitchGlide);
    }
    assert(opcode_of(0x20u8) == Some(SeqOpcode::GapNop20)
            && SeqOpcode::GapNop20.layout() == (0usize, None::<usize>, NextOp::Terminal)) by {
        lemma_opcode_code_roundtrip(SeqOpcode::GapNop20);
    }
    assert(opcode_of(0x21u8) == Some(SeqOpcode::StopDacCvsd)
            && SeqOpcode::StopDacCvsd.layout() == (0usize, None::<usize>, NextOp::Terminal)) by {
        lemma_opcode_code_roundtrip(SeqOpcode::StopDacCvsd);
    }
    assert(opcode_of(0x22u8) == Some(SeqOpcode::CvsdVolumeFade)
            && SeqOpcode::CvsdVolumeFade.layout() == (2usize, None::<usize>, NextOp::Embedded)) by {
        lemma_opcode_code_roundtrip(SeqOpcode::CvsdVolumeFade);
    }
    assert(opcode_of(0x23u8) == Some(SeqOpcode::SendStatusToCpu)
            && SeqOpcode::SendStatusToCpu.layout() == (2usize, None::<usize>, NextOp::Embedded)) by {
        lemma_opcode_code_roundtrip(SeqOpcode::SendStatusToCpu);
    }
    assert(opcode_of(0x24u8) == Some(SeqOpcode::SetChannelTiming)
            && SeqOpcode::SetChannelTiming.layout() == (3usize, None::<usize>, NextOp::Embedded)) by {
        lemma_opcode_code_roundtrip(SeqOpcode::SetChannelTiming);
    }
    assert(opcode_of(0x25u8) == Some(SeqOpcode::FmKeyOnWithTiming)
            && SeqOpcode::FmKeyOnWithTiming.layout() == (1usize, None::<usize>, NextOp::Embedded)) by {
        lemma_opcode_code_roundtrip(SeqOpcode::FmKeyOnWithTiming);
    }
    assert(opcode_of(0x26u8) == Some(SeqOpcode::AddTimingDelta)
            && SeqOpcode::AddTimingDelta.layout() == (3usize, None::<usize>, NextOp::Embedded)) by {
        lemma_opcode_code_roundtrip(SeqOpcode::AddTimingDelta);
    }
    assert(opcode_of(0x27u8) == Some(SeqOpcode::FmPitchDeltaTableB)
            && SeqOpcode::FmPitchDeltaTableB.layout() == (3usize, None::<usize>, NextOp::Embedded)) by {
        lemma_opcode_code_roundtrip(SeqOpcode::FmPitchDeltaTableB);
    }
    assert(opcode_of(0x28u8) == Some(SeqOpcode::FmPitchDeltaTableA)
            && SeqOpcode::FmPitchDeltaTableA.layout() == (3usize, None::<usize>, NextOp::Embedded)) by {
        lemma_opcode_code_roundtrip(SeqOpcode::FmPitchDeltaTableA);
    }
    assert(opcode_of(0x29u8) == Some(SeqOpcode::FmPitchAbsTableB)
            && SeqOpcode::FmPitchAbsTableB.layout() == (3usize, None::<usize>, NextOp::Embedded)) by {
        lemma_opcode_code_roundtrip(SeqOpcode::FmPitchAbsTableB);
    }
    assert(opcode_of(0x2Au8) == Some(SeqOpcode::FmPitchAbsTableA)
            && SeqOpcode::FmPitchAbsTableA.layout() == (3usize, None::<usize>, NextOp::Embedded)) by {
        lemma_opcode_code_roundtrip(SeqOpcode::FmPitchAbsTableA);
    }
    assert(opcode_of(0x2Bu8) == Some(SeqOpcode::GlobalPitchSlideHi)
            && SeqOpcode::GlobalPitchSlideHi.layout() == (3usize, None::<usize>, NextOp::Embedded)) by {
        lemma_opcode_code_roundtrip(SeqOpcode::GlobalPitchSlideHi);
    }
    assert(opcode_of(0x2Cu8) == Some(SeqOpcode::GlobalPitchSlideLo)
            && SeqOpcode::GlobalPitchSlideLo.layout() == (3usize, None::<usize>, NextOp::Embedded)) by {
        lemma_opcode_code_roundtrip(SeqOpcode::GlobalPitchSlideLo);
    }
    assert(opcode_of(0x2Du8) == Some(SeqOpcode::SetGlobalPitchAbsHi)
            && SeqOpcode::SetGlobalPitchAbsHi.layout() == (3usize, None::<usize>, NextOp::Embedded)) by {
        lemma_opcode_code_roundtrip(SeqOpcode::SetGlobalPitchAbsHi);
    }
    assert(opcode_of(0x2Eu8) == Some(SeqOpcode::SetGlobalPitchAbsLo)
            && SeqOpcode::SetGlobalPitchAbsLo.layout() == (3usize, None::<usize>, NextOp::Embedded)) by {
        lemma_opcode_code_roundtrip(SeqOpcode::SetGlobalPitchAbsLo);
    }
    assert(opcode_of(0x2Fu8) == Some(SeqOpcode::NoteTriggerRepeat)
            && SeqOpcode::NoteTriggerRepeat.layout() == (5usize, None::<usize>, NextOp::Embedded)) by {
        lemma_opcode_code_roundtrip(SeqOpcode::NoteTriggerRepeat);
    }
    assert(opcode_of(0x30u8) == Some(SeqOpcode::SetStereoMask)
            && SeqOpcode::SetStereoMask.layout() == (1usize, None::<usize>, NextOp::Embedded)) by {
        lemma_opcode_code_roundtrip(SeqOpcode::SetStereoMask);
    }
    assert(opcode_of(0x31u8) == Some(SeqOpcode::ClearChannelMask)
            && SeqOpcode::ClearChannelMask.layout() == (1usize, None::<usize>, NextOp::Embedded)) by {
        lemma_opcode_code_roundtrip(SeqOpcode::ClearChannelMask);
    }
    assert(opcode_of(0x32u8) == Some(SeqOpcode::IndirectOpcodeLoad)
            && SeqOpcode::IndirectOpcodeLoad.layout() == (2usize, None::<usize>, NextOp::Branch)) by {
        lemma_opcode_code_roundtrip(SeqOpcode::IndirectOpcodeLoad);
    }
    assert(opcode_of(0x33u8) == Some(SeqOpcode::InjectCmdRingBuf)
            && SeqOpcode::InjectCmdRingBuf.layout() == (2usize, None::<usize>, NextOp::Embedded)) by {
        lemma_opcode_code_roundtrip(SeqOpcode::InjectCmdRingBuf);
    }
    assert(opcode_of(0x34u8) == Some(SeqOpcode::CvsdSamplePlayback)
            && SeqOpcode::CvsdSamplePlayback.layout() == (2usize, None::<usize>, NextOp::Embedded)) by {
        lemma_opcode_code_roundtrip(SeqOpcode::CvsdSamplePlayback);
    }
    assert(opcode_of(0x35u8) == Some(SeqOpcode::TimingAdvanceAlt)
            && SeqOpcode::TimingAdvanceAlt.layout() == (2usize, Some(3usize), NextOp::Embedded)) by {
        lemma_opcode_code_roundtrip(SeqOpcode::TimingAdvanceAlt);
    }
    assert(opcode_of(0x36u8) == Some(SeqOpcode::ProgramChange)
            && SeqOpcode::ProgramChange.layout() == (3usize, None::<usize>, NextOp::Embedded)) by {
        lemma_opcode_code_roundtrip(SeqOpcode::ProgramChange);
    }
    assert(opcode_of(0x37u8) == Some(SeqOpcode::PushPitchTable4b)
            && SeqOpcode::PushPitchTable4b.layout() == (4usize, None::<usize>, NextOp::Embedded)) by {
        lemma_opcode_code_roundtrip(SeqOpcode::PushPitchTable4b);
    }
    assert(opcode_of(0x38u8) == Some(SeqOpcode::SetVolumeAbs)
            && SeqOpcode::SetVolumeAbs.layout() == (2usize, None::<usize>, NextOp::Embedded)) by {
        lemma_opcode_code_roundtrip(SeqOpcode::SetVolumeAbs);
    }
    assert(opcode_of(0x39u8) == Some(SeqOpcode::VolumeFadeRel)
            && SeqOpcode::VolumeFadeRel.layout() == (2usize, None::<usize>, NextOp::Embedded)) by {
        lemma_opcode_code_roundtrip(SeqOpcode::VolumeFadeRel);
    }
    assert(opcode_of(0x3Au8) == Some(SeqOpcode::FmKeyOnComplex)
            && SeqOpcode::FmKeyOnComplex.layout() == (2usize, Some(3usize), NextOp::Embedded)) by {
        lemma_opcode_code_roundtrip(SeqOpcode::FmKeyOnComplex);
    }
    assert(opcode_of(0x3Bu8) == Some(SeqOpcode::UpdateNoteRegister)
            && SeqOpcode::UpdateNoteRegister.layout() == (2usize, None::<usize>, NextOp::Embedded)) by {
        lemma_opcode_code_roundtrip(SeqOpcode::UpdateNoteRegister);
    }
    assert(opcode_of(0x3Cu8) == Some(SeqOpcode::NoteRegisterDelta)
            && SeqOpcode::NoteRegisterDelta.layout() == (2usize, None::<usize>, NextOp::Embedded)) by {
        lemma_opcode_code_roundtrip(SeqOpcode::NoteRegisterDelta);
    }
    assert(opcode_of(0x3Du8) == Some(SeqOpcode::FreeVoiceEnd)
            && SeqOpcode::FreeVoiceEnd.layout() == (0usize, None::<usize>, NextOp::Terminal)) by {
        lemma_opcode_code_roundtrip(SeqOpcode::FreeVoiceEnd);
    }
    assert(opcode_of(0x3Eu8) == Some(SeqOpcode::SetBankSwitch)
            && SeqOpcode::SetBankSwitch.layout() == (2usize, None::<usize>, NextOp::Embedded)) by {
        lemma_opcode_code_roundtrip(SeqOpcode::SetBankSwitch);
    }
    assert(opcode_of(0x3Fu8) is None) by {
        lemma_low_six_bits(0x3Fu8);
    }
}

// ---------------------------------------------------------------------------
// Decoded instructions and sequences
// ---------------------------------------------------------------------------

/// A decoded instruction as a value.
pub struct InstructionModel {
    pub pos: int,
    pub raw_opcode: u8,
    pub opcode: SeqOpcode,
    pub operands: Seq<u8>,
}

/// A single decoded sequencer instruction.
#[derive(Debug, Clone)]
pub struct SeqInstruction {
    /// Byte offset of this instruction's opcode within the sequence stream.
    pub pos: usize,
    /// Raw opcode byte (may include priority flag in bit 7).
    pub raw_opcode: u8,
    /// Decoded opcode.
    pub opcode: SeqOpcode,
    /// Data operand bytes (embedded next-opcode stripped for non-terminal ops).
    pub operands: Vec<u8>,
}

impl View for SeqInstruction {
    type V = InstructionModel;

    open spec fn view(&self) -> InstructionModel {
        InstructionModel {
            pos: self.pos as int,
            raw_opcode: self.raw_opcode,
            opcode: self.opcode,
            operands: self.operands@,
        }
    }
}

/// A decoded sequence as a value.
pub struct SequenceModel {
    pub channel: Seq<char>,
    pub start_addr: u16,
    pub instructions: Seq<InstructionModel>,
    pub complete: bool,
    pub truncation: Option<Seq<char>>,
}

/// A fully decoded bytecode sequence for one channel.
#[derive(Debug, Clone)]
pub struct DecodedSequence {
    /// Channel label (e.g. "FM2", "CVSD").
    pub channel: String,
    /// 6809 start address of the sequence.
    pub start_addr: u16,
    /// Decoded instructions.
    pub instructions: Vec<SeqInstruction>,
    /// Whether decoding completed normally (terminal opcode reached).
    pub complete: bool,
    /// Reason for incomplete decoding.
    pub truncation: Option<String>,
}

/// The views of a list of instructions.
pub open spec fn instruction_views(v: Seq<SeqInstruction>) -> Seq<InstructionModel> {
    v.map_values(|i: SeqInstruction| i@)
}

/// The text of an optional string.
pub open spec fn opt_text(s: Option<String>) -> Option<Seq<char>> {
    match s {
        Some(t) => Some(t@),
        None => None,
    }
}

impl View for DecodedSequence {
    type V = SequenceModel;

    open spec fn view(&self) -> SequenceModel {
        SequenceModel {
            channel: self.channel@,
            start_addr: self.start_addr,
            instructions: instruction_views(self.instructions@),
            complete: self.complete,
            truncation: opt_text(self.truncation),
        }
    }
}

/// Maximum number of instructions decoded per sequence.
pub const MAX_INSTRUCTIONS: usize = 500;
/// Maximum subroutine nesting depth.
pub const MAX_CALL_DEPTH: usize = 8;

// ---------------------------------------------------------------------------
// Variable-length opcodes
// ---------------------------------------------------------------------------

/// An operand count of `size` at `pos` is plausible: the byte it ends on is
/// an opcode, and if that opcode embeds its successor, the byte that
/// successor's operands end on is an opcode too.
pub open spec fn size_fits(data: Seq<u8>, pos: int, size: int) -> bool {
    &&& size != 0
    &&& pos + size <= data.len()
    &&& match opcode_of(data[pos + size - 1]) {
        None => false,
        Some(next_op) => {
            let next_primary = next_op.layout().0 as int;
            match next_op.layout().2 {
                NextOp::Embedded => {
                    &&& pos + size + next_primary <= data.len()
                    &&& next_primary > 0
                    &&& opcode_of(data[pos + size + next_primary - 1]) is Some
                },
                _ => true,
            }
        },
    }
}

/// The operand count used for an opcode: the primary count unless it has an
/// alternate and only the alternate is plausible.
pub open spec fn resolved_size(data: Seq<u8>, pos: int, primary: int, alternate: Option<usize>) -> int {
    match alternate {
        None => primary,
        Some(alt) => if size_fits(data, pos, primary) {
            primary
        } else if size_fits(data, pos, alt as int) {
            alt as int
        } else {
            primary
        },
    }
}

fn size_plausible(data: &[u8], pos: usize, size: usize) -> (ok: bool)
    ensures
        ok == size_fits(data@, pos as int, size as int),
{
    let len = data.len();
    if size == 0 || pos > len || size > len - pos {
        return false;
    }
    let candidate_next = data[pos + size - 1];
    match SeqOpcode::from_u8(candidate_next) {
        None => false,
        Some(next_op) => {
            proof {
                lemma_layout_bounds(next_op);
            }
            let (next_primary, _, next_behavior) = next_op.operand_info();
            match next_behavior {
                NextOp::Embedded => {
                    if next_primary <= len - pos - size && next_primary > 0 {
                        let next_next = data[pos + size + next_primary - 1];
                        SeqOpcode::from_u8(next_next).is_some()
                    } else {
                        false
                    }
                },
                _ => true,
            }
        },
    }
}

/// For variable-length opcodes, try both sizes and pick the one that yields
/// a valid subsequent opcode. Falls back to `primary` if ambiguous: the
/// result is `primary` without an alternate, one of the two otherwise, and
/// the alternate only where the byte it ends on is an opcode.
pub fn resolve_variable_size(data: &[u8], pos: usize, primary: usize, alternate: Option<usize>) -> (size:
    usize)
    ensures
        size == resolved_size(data@, pos as int, primary as int, alternate),
        alternate is None ==> size == primary,
        alternate matches Some(a) ==> size == primary || size == a,
        alternate matches Some(a) ==> (size == a && a != primary ==> pos + a <= data@.len() && a
            >= 1 && opcode_of(data@[pos + a - 1]) is Some),
{
    proof {
        lemma_resolved_size_choice(data@, pos as int, primary as int, alternate);
    }
    let alt = match alternate {
        Some(a) => a,
        None => return primary,
    };
    if size_plausible(data, pos, primary) {
        return primary;
    }
    if size_plausible(data, pos, alt) {
        return alt;
    }
    // If nothing validated, return primary.
    primary
}

/// The operand count used for an opcode is its primary count or its
/// alternate; the alternate is used only where it is plausible, so the byte
/// it ends on lies within the data and is an opcode.
pub proof fn lemma_resolved_size_choice(data: Seq<u8>, pos: int, primary: int, alternate: Option<usize>)
    ensures
        alternate is None ==> resolved_size(data, pos, primary, alternate) == primary,
        alternate matches Some(a) ==> resolved_size(data, pos, primary, alternate) == primary
            || resolved_size(data, pos, primary, alternate) == a,
        alternate matches Some(a) ==> (resolved_size(data, pos, primary, alternate) == a && a
            != primary ==> pos + a <= data.len() && a >= 1 && opcode_of(data[pos + a - 1]) is Some),
{
}

// ---------------------------------------------------------------------------
// The decoder as a step machine
// ---------------------------------------------------------------------------

/// Decoder registers: the current opcode byte, the file position of the next
/// data byte, the offset within the stream for display, and the return
/// positions of pending subroutine calls.
pub struct DecodeState {
    pub op: u8,
    pub data_pos: int,
    pub stream_offset: int,
    pub call_stack: Seq<int>,
}

/// What one decoding step does: emit an instruction and go on, or stop,
/// possibly after a last instruction, with `None` for a complete sequence
/// or the reason it is incomplete.
pub enum StepOutcome {
    Continue(InstructionModel, DecodeState),
    Stop(Option<InstructionModel>, Option<Seq<char>>),
}

/// The instruction whose opcode is the current one.
pub open spec fn instruction_at(st: DecodeState, opcode: SeqOpcode, operands: Seq<u8>) -> InstructionModel {
    InstructionModel { pos: st.stream_offset, raw_opcode: st.op, opcode, operands }
}

/// One step of the decoder on the U18 image `data`.
pub open spec fn decode_step(data: Seq<u8>, hdr: RomHeader, st: DecodeState) -> StepOutcome {
    let len = data.len() as int;
    let dp = st.data_pos;
    match opcode_of(st.op) {
        None => StepOutcome::Stop(None, Some("unknown opcode 0x"@ + hex_text(st.op as nat, 2))),
        Some(opcode) => {
            let primary = opcode.layout().0 as int;
            let alternate = opcode.layout().1;
            match opcode.layout().2 {
                NextOp::Terminal => if dp + primary > len {
                    StepOutcome::Stop(None, Some("truncated at terminal"@))
                } else {
                    StepOutcome::Stop(
                        Some(instruction_at(st, opcode, data.subrange(dp, dp + primary))),
                        None,
                    )
                },
                NextOp::Branch => if opcode == SeqOpcode::SubroutineCall {
                    if dp + 2 > len {
                        StepOutcome::Stop(None, Some("truncated at call"@))
                    } else {
                        let inst = instruction_at(st, opcode, data.subrange(dp, dp + 2));
                        let target = be_u16(data, dp);
                        let target_file = hdr.spec_file_offset(target as int);
                        if st.call_stack.len() >= 8 {
                            StepOutcome::Stop(Some(inst), Some("call stack overflow"@))
                        } else if target_file < 0 || target_file >= len {
                            StepOutcome::Stop(
                                Some(inst),
                                Some(
                                    "call target 0x"@ + hex_text(target as nat, 4)
                                        + " out of bounds"@,
                                ),
                            )
                        } else {
                            StepOutcome::Continue(
                                inst,
                                DecodeState {
                                    op: data[target_file],
                                    data_pos: target_file + 1,
                                    stream_offset: st.stream_offset + 3,
                                    call_stack: st.call_stack.push(dp + 2),
                                },
                            )
                        }
                    }
                } else if opcode == SeqOpcode::SubroutineReturn {
                    let inst = instruction_at(st, opcode, Seq::empty());
                    if st.call_stack.len() == 0 {
                        // Empty call stack: treated as terminal.
                        StepOutcome::Stop(Some(inst), None)
                    } else {
                        let ret = st.call_stack.last();
                        if ret >= len {
                            StepOutcome::Stop(Some(inst), Some("return address out of bounds"@))
                        } else {
                            StepOutcome::Continue(
                                inst,
                                DecodeState {
                                    op: data[ret],
                                    data_pos: ret + 1,
                                    stream_offset: st.stream_offset + 1,
                                    call_stack: st.call_stack.drop_last(),
                                },
                            )
                        }
                    }
                } else {
                    // Indirect opcode load: decoding stops here.
                    let end = if dp + primary <= len {
                        dp + primary
                    } else {
                        len
                    };
                    StepOutcome::Stop(Some(instruction_at(st, opcode, data.subrange(dp, end))), None)
                },
                NextOp::Embedded => {
                    let count = resolved_size(data, dp, primary, alternate);
                    if dp + count > len || count == 0 {
                        StepOutcome::Stop(None, Some("truncated"@))
                    } else {
                        StepOutcome::Continue(
                            instruction_at(st, opcode, data.subrange(dp, dp + count - 1)),
                            DecodeState {
                                op: data[dp + count - 1],
                                data_pos: dp + count,
                                stream_offset: st.stream_offset + count,
                                call_stack: st.call_stack,
                            },
                        )
                    }
                },
            }
        },
    }
}

/// Run the decoder for at most `fuel` steps: the instructions it emits and
/// why it stopped (`None` for a complete sequence).
pub open spec fn run_decoder(data: Seq<u8>, hdr: RomHeader, st: DecodeState, fuel: nat) -> (Seq<
    InstructionModel,
>, Option<Seq<char>>)
    decreases fuel,
{
    if fuel == 0 {
        (Seq::empty(), Some("max instructions reached"@))
    } else {
        match decode_step(data, hdr, st) {
            StepOutcome::Continue(inst, next) => {
                let rest = run_decoder(data, hdr, next, (fuel - 1) as nat);
                (seq![inst] + rest.0, rest.1)
            },
            StepOutcome::Stop(last, reason) => (
                match last {
                    Some(i) => seq![i],
                    None => Seq::empty(),
                },
                reason,
            ),
        }
    }
}

/// The sequence at 6809 address `start_addr` of the U18 image `data`, decoded
/// for at most [`MAX_INSTRUCTIONS`] instructions.  The first byte of a
/// sequence is its initial opcode.
pub open spec fn decoded_sequence(data: Seq<u8>, hdr: RomHeader, start_addr: u16, channel: Seq<
    char,
>) -> SequenceModel {
    let start_file = hdr.spec_file_offset(start_addr as int);
    if start_file < 0 || start_file >= data.len() {
        SequenceModel {
            channel,
            start_addr,
            instructions: Seq::empty(),
            complete: false,
            truncation: Some("start address out of bounds"@),
        }
    } else {
        let run = run_decoder(
            data,
            hdr,
            DecodeState {
                op: data[start_file],
                data_pos: start_file + 1,
                stream_offset: 0,
                call_stack: Seq::empty(),
            },
            500,
        );
        SequenceModel {
            channel,
            start_addr,
            instructions: run.0,
            complete: run.1 is None,
            truncation: run.1,
        }
    }
}

/// Decoder registers as executable values.
struct DecoderRegs {
    op: u8,
    data_pos: usize,
    stream_offset: usize,
    call_stack: Vec<usize>,
}

impl View for DecoderRegs {
    type V = DecodeState;

    closed spec fn view(&self) -> DecodeState {
        DecodeState {
            op: self.op,
            data_pos: self.data_pos as int,
            stream_offset: self.stream_offset as int,
            call_stack: self.call_stack@.map_values(|p: usize| p as int),
        }
    }
}

impl DecoderRegs {
    spec fn wf(self, len: int) -> bool {
        &&& self.data_pos <= len
        &&& self.call_stack@.len() <= 8
        &&& forall|i: int| 0 <= i < self.call_stack@.len() ==> #[trigger] self.call_stack@[i] <= len
    }
}

enum DecodeStep {
    Continue(SeqInstruction),
    Stop(Option<SeqInstruction>, Option<String>),
}

spec fn opt_instruction(i: Option<SeqInstruction>) -> Option<InstructionModel> {
    match i {
        Some(x) => Some(x@),
        None => None,
    }
}

/// Copy `data[from..to]`.
fn copy_bytes(data: &[u8], from: usize, to: usize) -> (out: Vec<u8>)
    requires
        from <= to <= data@.len(),
    ensures
        out@ == data@.subrange(from as int, to as int),
{
    let mut out: Vec<u8> = Vec::new();
    let mut i = from;
    while i < to
        invariant
            from <= i <= to <= data@.len(),
            out@ == data@.subrange(from as int, i as int),
        decreases to - i,
    {
        out.push(data[i]);
        i += 1;
        proof {
            assert(out@ =~= data@.subrange(from as int, i as int));
        }
    }
    out
}

fn text(s: &str) -> (t: String)
    ensures
        t@ == s@,
{
    String::from_str(s)
}

/// One decoding step on the registers.
fn advance(u18: &[u8], header: &RomHeader, regs: &mut DecoderRegs) -> (r: DecodeStep)
    requires
        header.wf(),
        old(regs).wf(u18@.len() as int),
        old(regs).stream_offset + 11 <= usize::MAX,
    ensures
        final(regs).wf(u18@.len() as int),
        final(regs).stream_offset <= old(regs).stream_offset + 11,
        match decode_step(u18@, *header, old(regs)@) {
            StepOutcome::Continue(inst, next) => r matches DecodeStep::Continue(i) && i@ == inst
                && final(regs)@ == next,
            StepOutcome::Stop(last, reason) => r matches DecodeStep::Stop(l, t) && opt_instruction(l)
                == last && opt_text(t) == reason,
        },
{
    let len = u18.len();
    let current = regs.op;
    let data_pos = regs.data_pos;
    let stream_offset = regs.stream_offset;
    let opcode = match SeqOpcode::from_u8(current) {
        Some(op) => op,
        None => {
            let mut msg = text("unknown opcode 0x");
            push_hex(&mut msg, current as u64, 2);
            return DecodeStep::Stop(None, Some(msg));
        },
    };
    proof {
        lemma_layout_bounds(opcode);
    }
    let (primary, alternate, next_behavior) = opcode.operand_info();
    match next_behavior {
        NextOp::Terminal => {
            if primary > len - data_pos {
                return DecodeStep::Stop(None, Some(text("truncated at terminal")));
            }
            let operands = copy_bytes(u18, data_pos, data_pos + primary);
            DecodeStep::Stop(
                Some(SeqInstruction { pos: stream_offset, raw_opcode: current, opcode, operands }),
                None,
            )
        },
        NextOp::Branch => {
            if opcode == SeqOpcode::SubroutineCall {
                if 2 > len - data_pos {
                    return DecodeStep::Stop(None, Some(text("truncated at call")));
                }
                let target_addr = read_be_u16(u18, data_pos);
                let operands = copy_bytes(u18, data_pos, data_pos + 2);
                let inst = SeqInstruction { pos: stream_offset, raw_opcode: current, opcode, operands };
                // Push return address (byte after the 2-byte target operand).
                let return_pos = data_pos + 2;
                if regs.call_stack.len() >= MAX_CALL_DEPTH {
                    return DecodeStep::Stop(Some(inst), Some(text("call stack overflow")));
                }
                let target_file = match header.checked_file_offset(target_addr) {
                    Some(f) => f,
                    None => len,
                };
                if target_file >= len {
                    let mut msg = text("call target 0x");
                    push_hex(&mut msg, target_addr as u64, 4);
                    msg.append(" out of bounds");
                    return DecodeStep::Stop(Some(inst), Some(msg));
                }
                let ghost old_stack = regs.call_stack@;
                regs.call_stack.push(return_pos);
                proof {
                    assert(regs.call_stack@.map_values(|p: usize| p as int) =~= old_stack.map_values(
                        |p: usize| p as int,
                    ).push(return_pos as int));
                }
                regs.stream_offset = stream_offset + 3;
                regs.op = u18[target_file];
                regs.data_pos = target_file + 1;
                DecodeStep::Continue(inst)
            } else if opcode == SeqOpcode::SubroutineReturn {
                let inst = SeqInstruction {
                    pos: stream_offset,
                    raw_opcode: current,
                    opcode,
                    operands: Vec::new(),
                };
                assert(inst.operands@ =~= Seq::<u8>::empty());
                let ghost old_stack = regs.call_stack@;
                match regs.call_stack.pop() {
                    Some(ret_pos) => {
                        proof {
                            assert(regs.call_stack@.map_values(|p: usize| p as int)
                                =~= old_stack.map_values(|p: usize| p as int).drop_last());
                            assert(old_stack[old_stack.len() - 1] == ret_pos);
                        }
                        if ret_pos >= len {
                            return DecodeStep::Stop(
                                Some(inst),
                                Some(text("return address out of bounds")),
                            );
                        }
                        // The byte at ret_pos is the next opcode.
                        regs.op = u18[ret_pos];
                        regs.data_pos = ret_pos + 1;
                        regs.stream_offset = stream_offset + 1;
                        DecodeStep::Continue(inst)
                    },
                    None => {
                        // Empty call stack — treat as terminal.
                        DecodeStep::Stop(Some(inst), None)
                    },
                }
            } else {
                // IndirectOpcodeLoad or other branch — stop decoding.
                let end = if primary <= len - data_pos {
                    data_pos + primary
                } else {
                    len
                };
                let operands = copy_bytes(u18, data_pos, end);
                DecodeStep::Stop(
                    Some(SeqInstruction { pos: stream_offset, raw_opcode: current, opcode, operands }),
                    None,
                )
            }
        },
        NextOp::Embedded => {
            // Determine byte count — try primary, then alternate if available.
            let byte_count = resolve_variable_size(u18, data_pos, primary, alternate);
            if byte_count > len - data_pos || byte_count == 0 {
                return DecodeStep::Stop(None, Some(text("truncated")));
            }
            // Data operands are all bytes except the last (which is the next opcode).
            let operands = copy_bytes(u18, data_pos, data_pos + byte_count - 1);
            let next_op_raw = u18[data_pos + byte_count - 1];
            regs.op = next_op_raw;
            regs.data_pos = data_pos + byte_count;
            regs.stream_offset = stream_offset + byte_count;
            DecodeStep::Continue(
                SeqInstruction { pos: stream_offset, raw_opcode: current, opcode, operands },
            )
        },
    }
}

/// Decode a sequence starting at the given 6809 address. The result keeps
/// the channel and start address, holds at most [`MAX_INSTRUCTIONS`]
/// instructions of the shape [`trace_shape`] describes from stream offset 0,
/// and is complete exactly when it carries no truncation reason.
pub fn decode_sequence(u18: &[u8], start_addr: u16, channel: String, header: &RomHeader) -> (seq:
    DecodedSequence)
    requires
        header.wf(),
    ensures
        seq@ == decoded_sequence(u18@, *header, start_addr, channel@),
        seq@.channel == channel@,
        seq@.start_addr == start_addr,
        seq@.complete <==> seq@.truncation is None,
        seq@.instructions.len() <= MAX_INSTRUCTIONS,
        trace_shape(seq@.instructions, 0, seq@.complete),
        forall|k: int|
            0 <= k < seq@.instructions.len() && straight_line_upto(seq@.instructions, k)
                ==> read_at_offset(
                u18@,
                header.spec_file_offset(start_addr as int),
                #[trigger] seq@.instructions[k],
            ),
        calls_jump(u18@, *header, seq@.instructions),
{
    proof {
        lemma_decoded_sequence_shape(u18@, *header, start_addr, channel@);
        lemma_decoded_sequence_reads_image(u18@, *header, start_addr, channel@);
        lemma_decoded_sequence_calls_jump(u18@, *header, start_addr, channel@);
    }
    let ghost data = u18@;
    let mut instructions: Vec<SeqInstruction> = Vec::new();
    let len = u18.len();
    let start_file = match header.checked_file_offset(start_addr) {
        Some(f) => f,
        None => len,
    };
    if start_file >= len {
        assert(instruction_views(instructions@) =~= Seq::<InstructionModel>::empty());
        return DecodedSequence {
            channel,
            start_addr,
            instructions,
            complete: false,
            truncation: Some(text("start address out of bounds")),
        };
    }
    // The first byte of the sequence is the initial opcode.
    let mut regs = DecoderRegs {
        op: u18[start_file],
        data_pos: start_file + 1,
        stream_offset: 0,
        call_stack: Vec::new(),
    };
    let ghost st0 = regs@;
    assert(st0.call_stack =~= Seq::<int>::empty());
    let mut count: usize = 0;
    while count < MAX_INSTRUCTIONS
        invariant
            data == u18@,
            len == data.len(),
            header.wf(),
            count <= 500,
            start_file as int == header.spec_file_offset(start_addr as int),
            start_file < len,
            st0 == (DecodeState {
                op: data[start_file as int],
                data_pos: start_file + 1,
                stream_offset: 0,
                call_stack: Seq::empty(),
            }),
            regs.wf(len as int),
            regs.stream_offset <= 11 * count,
            run_decoder(data, *header, st0, 500) == ({
                let rest = run_decoder(data, *header, regs@, (500 - count) as nat);
                (instruction_views(instructions@) + rest.0, rest.1)
            }),
        decreases 500 - count,
    {
        let ghost before = instructions@;
        let ghost st = regs@;
        match advance(u18, header, &mut regs) {
            DecodeStep::Continue(inst) => {
                instructions.push(inst);
                proof {
                    assert(instruction_views(instructions@) =~= instruction_views(before).push(
                        inst@,
                    ));
                    let rest = run_decoder(data, *header, regs@, (500 - count - 1) as nat);
                    assert(instruction_views(before) + (seq![inst@] + rest.0) =~= instruction_views(
                        instructions@,
                    ) + rest.0);
                }
            },
            DecodeStep::Stop(last, reason) => {
                match last {
                    Some(inst) => {
                        instructions.push(inst);
                        proof {
                            assert(instruction_views(instructions@) =~= instruction_views(
                                before,
                            ).push(inst@));
                            assert(instruction_views(before) + seq![inst@] =~= instruction_views(
                                instructions@,
                            ));
                        }
                    },
                    None => {
                        proof {
                            assert(instruction_views(before) + Seq::empty() =~= instruction_views(
                                instructions@,
                            ));
                        }
                    },
                }
                let complete = reason.is_none();
                proof {
                    assert(run_decoder(data, *header, st, (500 - count) as nat).1 == opt_text(reason));
                    lemma_decoded_sequence_shape(data, *header, start_addr, channel@);
                    lemma_decoded_sequence_reads_image(data, *header, start_addr, channel@);
                    lemma_decoded_sequence_calls_jump(data, *header, start_addr, channel@);
                }
                return DecodedSequence { channel, start_addr, instructions, complete, truncation: reason };
            },
        }
        count += 1;
    }
    proof {
        assert(instruction_views(instructions@) + Seq::empty() =~= instruction_views(instructions@));
    }
    DecodedSequence {
        channel,
        start_addr,
        instructions,
        complete: false,
        truncation: Some(text("max instructions reached")),
    }
}


// ---------------------------------------------------------------------------
// Voice descriptor
// ---------------------------------------------------------------------------

/// A voice descriptor as a value.
pub struct DescriptorModel {
    pub addr: u16,
    pub fm_mask: u8,
    pub fm_channels: Seq<(u8, u16)>,
    pub cvsd_type: u8,
    pub cvsd_seq_addr: Option<u16>,
}

/// Parsed voice-type descriptor from the ROM.
///
/// Format in ROM:
/// ```text
/// [FM_mask: 1]
/// [seq_ptr: 2 × popcount(FM_mask)]   one per set bit, low→high channel
/// [CVSD_type: 1]                      0 = no CVSD
/// [cvsd_seq_ptr: 2]                   only present if CVSD_type ≠ 0
/// ```
#[derive(Debug, Clone)]
pub struct VoiceDescriptor {
    /// 6809 address of this descriptor.
    pub addr: u16,
    /// FM channel bitmask (bit N = channel N active).
    pub fm_mask: u8,
    /// Sequence addresses per FM channel: `(channel_number, 6809_address)`.
    pub fm_channels: Vec<(u8, u16)>,
    /// CVSD type byte (0 = no CVSD).
    pub cvsd_type: u8,
    /// CVSD sequence address (present only when `cvsd_type != 0`).
    pub cvsd_seq_addr: Option<u16>,
}

impl View for VoiceDescriptor {
    type V = DescriptorModel;

    open spec fn view(&self) -> DescriptorModel {
        DescriptorModel {
            addr: self.addr,
            fm_mask: self.fm_mask,
            fm_channels: self.fm_channels@,
            cvsd_type: self.cvsd_type,
            cvsd_seq_addr: self.cvsd_seq_addr,
        }
    }
}

/// The FM channel pointers of the descriptor at file position `base` among
/// channels `0..ch`: one pointer per set mask bit, in channel order, right
/// after the mask byte.
pub open spec fn descriptor_channels(data: Seq<u8>, base: int, mask: u8, ch: nat) -> Result<
    Seq<(u8, u16)>,
    WpcError,
>
    decreases ch,
{
    if ch == 0 {
        Ok(Seq::empty())
    } else {
        match descriptor_channels(data, base, mask, (ch - 1) as nat) {
            Err(e) => Err(e),
            Ok(prev) => if mask & (1u8 << ((ch - 1) as u8)) != 0 {
                let off = base + 1 + 2 * prev.len();
                if off + 2 > data.len() {
                    Err(WpcError::DescriptorTruncatedFmPointer { channel: (ch - 1) as u8 })
                } else {
                    Ok(prev.push(((ch - 1) as u8, be_u16(data, off))))
                }
            } else {
                Ok(prev)
            },
        }
    }
}

/// The voice descriptor at 6809 address `addr` of the U18 image `data`.
pub open spec fn parsed_descriptor(data: Seq<u8>, hdr: RomHeader, addr: u16) -> Result<
    DescriptorModel,
    WpcError,
> {
    let base = hdr.spec_file_offset(addr as int);
    if base < 0 || base >= data.len() {
        Err(WpcError::DescriptorOutOfBounds { addr })
    } else {
        let mask = data[base];
        match descriptor_channels(data, base, mask, 8) {
            Err(e) => Err(e),
            Ok(chans) => {
                let off = base + 1 + 2 * chans.len();
                if off >= data.len() {
                    Err(WpcError::DescriptorTruncatedCvsdType)
                } else {
                    let cvsd_type = data[off];
                    if cvsd_type != 0 && off + 3 > data.len() {
                        Err(WpcError::DescriptorTruncatedCvsdPointer)
                    } else {
                        Ok(
                            DescriptorModel {
                                addr,
                                fm_mask: mask,
                                fm_channels: chans,
                                cvsd_type,
                                cvsd_seq_addr: if cvsd_type != 0 {
                                    Some(be_u16(data, off + 1))
                                } else {
                                    None
                                },
                            },
                        )
                    }
                }
            },
        }
    }
}

proof fn lemma_descriptor_channels_err_sticks(data: Seq<u8>, base: int, mask: u8, k: nat, m: nat)
    requires
        k <= m,
        descriptor_channels(data, base, mask, k) is Err,
    ensures
        descriptor_channels(data, base, mask, m) == descriptor_channels(data, base, mask, k),
    decreases m - k,
{
    if k < m {
        lemma_descriptor_channels_err_sticks(data, base, mask, k, (m - 1) as nat);
    }
}

/// Parse a voice-type descriptor at the given 6809 address: the FM mask
/// byte, a big-endian pointer for each set mask bit in increasing bit
/// order, the CVSD type byte and, where that type is non-zero, the CVSD
/// sequence pointer. It fails where one of them lies past the image end.
pub fn parse_voice_descriptor(u18: &[u8], addr: u16, header: &RomHeader) -> (r: Result<
    VoiceDescriptor,
    WpcError,
>)
    requires
        header.wf(),
    ensures
        match r {
            Ok(d) => parsed_descriptor(u18@, *header, addr) == Ok::<DescriptorModel, WpcError>(d@),
            Err(e) => parsed_descriptor(u18@, *header, addr) == Err::<DescriptorModel, WpcError>(e),
        },
        r matches Ok(d) ==> descriptor_shape(d@, addr),
        r matches Ok(d) ==> descriptor_bytes(u18@, header.spec_file_offset(addr as int), d@),
{
    proof {
        lemma_parsed_descriptor_shape(u18@, *header, addr);
        lemma_parsed_descriptor_bytes(u18@, *header, addr);
    }
    let ghost data = u18@;
    let len = u18.len();
    let base = match header.checked_file_offset(addr) {
        Some(b) => b,
        None => len,
    };
    if base >= len {
        return Err(WpcError::DescriptorOutOfBounds { addr });
    }

    let fm_mask = u18[base];
    let mut offset = base + 1;

    let mut fm_channels: Vec<(u8, u16)> = Vec::new();
    let mut ch: u8 = 0;
    while ch < 8
        invariant
            data == u18@,
            len == data.len(),
            base < len,
            base as int == header.spec_file_offset(addr as int),
            fm_mask == data[base as int],
            ch <= 8,
            offset == base + 1 + 2 * fm_channels@.len(),
            offset <= len,
            descriptor_channels(data, base as int, fm_mask, ch as nat) == Ok::<
                Seq<(u8, u16)>,
                WpcError,
            >(fm_channels@),
        decreases 8 - ch,
    {
        if fm_mask & (1u8 << ch) != 0 {
            if 2 > len - offset {
                proof {
                    assert(descriptor_channels(data, base as int, fm_mask, (ch + 1) as nat) == Err::<
                        Seq<(u8, u16)>,
                        WpcError,
                    >(WpcError::DescriptorTruncatedFmPointer { channel: ch }));
                    lemma_descriptor_channels_err_sticks(data, base as int, fm_mask, (ch + 1) as nat, 8);
                }
                return Err(WpcError::DescriptorTruncatedFmPointer { channel: ch });
            }
            let seq_addr = read_be_u16(u18, offset);
            fm_channels.push((ch, seq_addr));
            offset += 2;
        }
        ch += 1;
    }

    if offset >= len {
        return Err(WpcError::DescriptorTruncatedCvsdType);
    }
    let cvsd_type = u18[offset];
    offset += 1;

    let cvsd_seq_addr = if cvsd_type != 0 {
        if 2 > len - offset {
            return Err(WpcError::DescriptorTruncatedCvsdPointer);
        }
        Some(read_be_u16(u18, offset))
    } else {
        None
    };

    Ok(VoiceDescriptor { addr, fm_mask, fm_channels, cvsd_type, cvsd_seq_addr })
}

// ---------------------------------------------------------------------------
// Command dispatch entry
// ---------------------------------------------------------------------------

/// Decoded entry from the command dispatch table: `(handler_id, param)`.
#[derive(Debug, Clone, Copy)]
pub struct CommandDispatchEntry {
    /// Handler type identifier (selects between different processing paths).
    pub handler_id: u8,
    /// Parameter passed to the handler (meaning depends on handler_id).
    pub param: u8,
}

/// The command dispatch table: `max_cmd_index + 1` two-byte entries, as
/// many of them as the image holds.  Empty where the table pointer falls
/// before the start of the image.
pub open spec fn dispatch_table(data: Seq<u8>, hdr: RomHeader) -> Seq<CommandDispatchEntry> {
    let table_file = hdr.spec_file_offset(hdr.cmd_dispatch_table as int);
    let count = hdr.max_cmd_index as int + 1;
    let n = if table_file < 0 || table_file > data.len() {
        0
    } else if table_file + 2 * count <= data.len() {
        count
    } else {
        (data.len() - table_file) / 2
    };
    Seq::new(
        n as nat,
        |i: int|
            CommandDispatchEntry {
                handler_id: data[table_file + 2 * i],
                param: data[table_file + 2 * i + 1],
            },
    )
}

proof fn lemma_half(x: int, i: int)
    by (nonlinear_arith)
    requires
        0 <= x - 2 * i < 2,
    ensures
        x / 2 == i,
{
}

proof fn lemma_half_below(x: int, c: int)
    by (nonlinear_arith)
    requires
        0 <= x < 2 * c,
    ensures
        x / 2 < c,
{
}

/// The dispatch table has at most `max_cmd_index + 1` entries.
pub proof fn lemma_dispatch_table_len(data: Seq<u8>, hdr: RomHeader)
    ensures
        dispatch_table(data, hdr).len() <= hdr.max_cmd_index as int + 1,
{
    let table_file = hdr.spec_file_offset(hdr.cmd_dispatch_table as int);
    let count = hdr.max_cmd_index as int + 1;
    if !(table_file < 0 || table_file > data.len()) && table_file + 2 * count > data.len() {
        lemma_half_below(data.len() - table_file, count);
    }
}

/// Parse the command dispatch table from a U18 ROM: `max_cmd_index + 1`
/// two-byte entries, as many as the image holds.
pub fn parse_cmd_dispatch_table(u18: &[u8], header: &RomHeader) -> (r: Result<
    Vec<CommandDispatchEntry>,
    WpcError,
>)
    requires
        header.wf(),
    ensures
        r matches Ok(v) && v@ == dispatch_table(u18@, *header),
        r matches Ok(v) ==> v@.len() <= header.max_cmd_index as int + 1,
{
    let ghost data = u18@;
    proof {
        lemma_dispatch_table_len(u18@, *header);
    }
    let len = u18.len();
    let table_file = match header.checked_file_offset(header.cmd_dispatch_table) {
        Some(t) => t,
        None => {
            let entries: Vec<CommandDispatchEntry> = Vec::new();
            assert(entries@ =~= dispatch_table(data, *header));
            return Ok(entries);
        },
    };
    if table_file > len {
        let entries: Vec<CommandDispatchEntry> = Vec::new();
        assert(entries@ =~= dispatch_table(data, *header));
        return Ok(entries);
    }
    let count = (header.max_cmd_index as usize) + 1;

    let mut entries: Vec<CommandDispatchEntry> = Vec::new();
    let mut i: usize = 0;
    while i < count && len - (table_file + i * 2) >= 2
        invariant
            data == u18@,
            len == data.len(),
            table_file <= len,
            table_file as int == header.spec_file_offset(header.cmd_dispatch_table as int),
            count == header.max_cmd_index as int + 1,
            i <= count,
            table_file + 2 * i <= len,
            entries@.len() == i,
            forall|k: int|
                0 <= k < i ==> #[trigger] entries@[k] == (CommandDispatchEntry {
                    handler_id: data[table_file + 2 * k],
                    param: data[table_file + 2 * k + 1],
                }),
        decreases count - i,
    {
        let offset = table_file + i * 2;
        entries.push(CommandDispatchEntry { handler_id: u18[offset], param: u18[offset + 1] });
        i += 1;
    }
    proof {
        if i < count {
            lemma_half(len - table_file, i as int);
        }
        assert(entries@ =~= dispatch_table(data, *header));
    }
    Ok(entries)
}

// ---------------------------------------------------------------------------
// Sound program
// ---------------------------------------------------------------------------

/// A sound program as a value.
pub struct ProgramModel {
    pub command: u8,
    pub handler_id: u8,
    pub voice_type_index: u8,
    pub descriptor: DescriptorModel,
    pub sequences: Seq<SequenceModel>,
}

/// A fully extracted sound program for one command.
#[derive(Debug, Clone)]
pub struct SoundProgram {
    /// Sound command number (0x00–0xFF).
    pub command: u8,
    /// Handler type from the dispatch table.
    pub handler_id: u8,
    /// Voice type index (dispatch table param).
    pub voice_type_index: u8,
    /// Parsed voice descriptor.
    pub descriptor: VoiceDescriptor,
    /// Decoded sequences for each channel.
    pub sequences: Vec<DecodedSequence>,
}

/// The views of a list of sequences.
pub open spec fn sequence_views(v: Seq<DecodedSequence>) -> Seq<SequenceModel> {
    v.map_values(|s: DecodedSequence| s@)
}

impl View for SoundProgram {
    type V = ProgramModel;

    open spec fn view(&self) -> ProgramModel {
        ProgramModel {
            command: self.command,
            handler_id: self.handler_id,
            voice_type_index: self.voice_type_index,
            descriptor: self.descriptor@,
            sequences: sequence_views(self.sequences@),
        }
    }
}

/// The views of a list of programs.
pub open spec fn program_views(v: Seq<SoundProgram>) -> Seq<ProgramModel> {
    v.map_values(|p: SoundProgram| p@)
}

/// Label of a channel: `FM<n>`, or `CH<n>` for channels 8 and 9 of a
/// sound-program record.
pub open spec fn channel_label(ch: u8, record: bool) -> Seq<char> {
    (if record && ch >= 8 {
        "CH"@
    } else {
        "FM"@
    }) + dec_text(ch as nat, 1)
}

/// The decoded sequences of a list of `(channel, address)` pairs.
pub open spec fn channel_sequences(data: Seq<u8>, hdr: RomHeader, chans: Seq<(u8, u16)>, record: bool) -> Seq<
    SequenceModel,
> {
    chans.map_values(|c: (u8, u16)| decoded_sequence(data, hdr, c.1, channel_label(c.0, record)))
}

/// Handler 0x04: the voice-type table entry `param` points to a voice
/// descriptor; its FM channels are decoded, then its CVSD sequence.
pub open spec fn voice_type_program(data: Seq<u8>, hdr: RomHeader, cmd: int, entry: CommandDispatchEntry) -> Option<
    ProgramModel,
> {
    let table_file = hdr.spec_file_offset(hdr.voice_type_table as int);
    let ptr = table_file + 2 * entry.param;
    if table_file < 0 || ptr + 2 > data.len() {
        None
    } else {
        match parsed_descriptor(data, hdr, be_u16(data, ptr)) {
            Err(_) => None,
            Ok(d) => Some(
                ProgramModel {
                    command: cmd as u8,
                    handler_id: entry.handler_id,
                    voice_type_index: entry.param,
                    descriptor: d,
                    sequences: channel_sequences(data, hdr, d.fm_channels, false) + match d.cvsd_seq_addr {
                        Some(a) => seq![decoded_sequence(data, hdr, a, "CVSD"@)],
                        None => Seq::empty(),
                    },
                },
            ),
        }
    }
}

/// The channels of a sound-program record at file position `prog_file`
/// among channels `0..n`: each non-null (0x4000 or above) two-byte pointer.
pub open spec fn record_channels(data: Seq<u8>, prog_file: int, n: nat) -> Seq<(u8, u16)>
    decreases n,
{
    if n == 0 {
        Seq::empty()
    } else {
        let prev = record_channels(data, prog_file, (n - 1) as nat);
        let addr = be_u16(data, prog_file + 2 * (n - 1));
        if addr >= 0x4000 {
            prev.push(((n - 1) as u8, addr))
        } else {
            prev
        }
    }
}

/// The FM mask of a sound-program record among channels `0..n`: bit `ch`
/// for each FM channel (below 8) with a non-null pointer.
pub open spec fn record_mask(data: Seq<u8>, prog_file: int, n: nat) -> u8
    decreases n,
{
    if n == 0 {
        0
    } else {
        let prev = record_mask(data, prog_file, (n - 1) as nat);
        if n - 1 < 8 && be_u16(data, prog_file + 2 * (n - 1)) >= 0x4000 {
            prev | (1u8 << ((n - 1) as u8))
        } else {
            prev
        }
    }
}

/// Handler 0x01: the sound-program table entry `param` points to a record
/// of ten two-byte sequence pointers, one per channel.
pub open spec fn sound_table_program(data: Seq<u8>, hdr: RomHeader, cmd: int, entry: CommandDispatchEntry) -> Option<
    ProgramModel,
> {
    let table_file = hdr.spec_file_offset(hdr.sound_program_table as int);
    let ptr = table_file + 2 * entry.param;
    if table_file < 0 || ptr + 2 > data.len() {
        None
    } else {
        let prog_addr = be_u16(data, ptr);
        let prog_file = hdr.spec_file_offset(prog_addr as int);
        if prog_addr < 0x4000 || prog_file + 20 > data.len() {
            None
        } else {
            let chans = record_channels(data, prog_file, 10);
            Some(
                ProgramModel {
                    command: cmd as u8,
                    handler_id: entry.handler_id,
                    voice_type_index: entry.param,
                    descriptor: DescriptorModel {
                        addr: prog_addr,
                        fm_mask: record_mask(data, prog_file, 10),
                        fm_channels: chans,
                        cvsd_type: 0,
                        cvsd_seq_addr: None,
                    },
                    sequences: channel_sequences(data, hdr, chans, true),
                },
            )
        }
    }
}

/// The program of command `cmd`, for the two supported handler types.
pub open spec fn program_for(data: Seq<u8>, hdr: RomHeader, cmd: int, entry: CommandDispatchEntry) -> Option<
    ProgramModel,
> {
    if entry.handler_id == 0x04 {
        voice_type_program(data, hdr, cmd, entry)
    } else if entry.handler_id == 0x01 {
        sound_table_program(data, hdr, cmd, entry)
    } else {
        None
    }
}

/// The programs of the first `n` dispatch entries, in command order.
pub open spec fn programs_upto(data: Seq<u8>, hdr: RomHeader, dispatch: Seq<CommandDispatchEntry>, n: nat) -> Seq<
    ProgramModel,
>
    decreases n,
{
    if n == 0 {
        Seq::empty()
    } else {
        programs_upto(data, hdr, dispatch, (n - 1) as nat) + match program_for(
            data,
            hdr,
            n - 1,
            dispatch[n - 1],
        ) {
            Some(p) => seq![p],
            None => Seq::empty(),
        }
    }
}

/// All sound programs of a U18 image.
pub open spec fn extracted_programs(data: Seq<u8>) -> Result<Seq<ProgramModel>, WpcError> {
    if data.len() < 0x20000 {
        Err(WpcError::RomTooSmall)
    } else {
        let hdr = header_of(data);
        let dispatch = dispatch_table(data, hdr);
        Ok(programs_upto(data, hdr, dispatch, dispatch.len()))
    }
}

/// Build the label of a channel.
fn make_channel_label(ch: u8, record: bool) -> (label: String)
    ensures
        label@ == channel_label(ch, record),
{
    let mut label = if record && ch >= 8 {
        text("CH")
    } else {
        text("FM")
    };
    push_dec(&mut label, ch as u64, 1);
    label
}

/// Decode the sequence of each `(channel, address)` pair.
fn decode_channels(u18: &[u8], header: &RomHeader, chans: &Vec<(u8, u16)>, record: bool) -> (seqs:
    Vec<DecodedSequence>)
    requires
        header.wf(),
    ensures
        sequence_views(seqs@) == channel_sequences(u18@, *header, chans@, record),
{
    let mut seqs: Vec<DecodedSequence> = Vec::new();
    let mut i: usize = 0;
    while i < chans.len()
        invariant
                header.wf(),
                i <= chans@.len(),
            sequence_views(seqs@) == channel_sequences(u18@, *header, chans@.take(i as int), record),
        decreases chans@.len() - i,
    {
        let (ch, seq_addr) = chans[i];
        let label = make_channel_label(ch, record);
        let ghost before = seqs@;
        seqs.push(decode_sequence(u18, seq_addr, label, header));
        proof {
            assert(chans@.take(i + 1) =~= chans@.take(i as int).push(chans@[i as int]));
            assert(sequence_views(seqs@) =~= sequence_views(before).push(seqs@.last()@));
            assert(channel_sequences(u18@, *header, chans@.take(i + 1), record) =~= channel_sequences(
                u18@,
                *header,
                chans@.take(i as int),
                record,
            ).push(decoded_sequence(u18@, *header, seq_addr, channel_label(ch, record))));
        }
        i += 1;
    }
    assert(chans@.take(i as int) =~= chans@);
    seqs
}

/// Handler 0x04: voice-type table dispatch.
fn build_voice_type_program(
    u18: &[u8],
    header: &RomHeader,
    cmd_idx: usize,
    entry: CommandDispatchEntry,
) -> (prog: Option<SoundProgram>)
    requires
        *header == header_of(u18@),
        header.wf(),
        u18@.len() >= 0x20000,
        cmd_idx <= 255,
        entry.handler_id == 0x04,
    ensures
        match prog {
            Some(p) => voice_type_program(u18@, *header, cmd_idx as int, entry) == Some(p@),
            None => voice_type_program(u18@, *header, cmd_idx as int, entry) is None,
        },
{
    let len = u18.len();
    let vt_table_file = match header.checked_file_offset(header.voice_type_table) {
        Some(t) => t,
        None => return None,
    };
    proof {
        crate::wpc89::lemma_file_offsets_within_image(u18@, header.voice_type_table);
    }
    let vt_idx = entry.param as usize;
    if vt_idx * 2 > len - vt_table_file || 2 > len - vt_table_file - vt_idx * 2 {
        return None;
    }
    let ptr_offset = vt_table_file + vt_idx * 2;
    let desc_addr = read_be_u16(u18, ptr_offset);
    let descriptor = match parse_voice_descriptor(u18, desc_addr, header) {
        Ok(d) => d,
        Err(_) => return None,
    };

    let mut sequences = decode_channels(u18, header, &descriptor.fm_channels, false);
    let ghost fm_part = sequences@;
    if let Some(cvsd_addr) = descriptor.cvsd_seq_addr {
        sequences.push(decode_sequence(u18, cvsd_addr, text("CVSD"), header));
        proof {
            assert(sequence_views(sequences@) =~= sequence_views(fm_part) + seq![sequences@.last()@]);
        }
    } else {
        assert(sequence_views(sequences@) =~= sequence_views(fm_part) + Seq::empty());
    }
    Some(
        SoundProgram {
            command: cmd_idx as u8,
            handler_id: entry.handler_id,
            voice_type_index: entry.param,
            descriptor,
            sequences,
        },
    )
}

/// Handler 0x01: sound-program table dispatch.
fn build_sound_table_program(
    u18: &[u8],
    header: &RomHeader,
    cmd_idx: usize,
    entry: CommandDispatchEntry,
) -> (prog: Option<SoundProgram>)
    requires
        *header == header_of(u18@),
        header.wf(),
        u18@.len() >= 0x20000,
        cmd_idx <= 255,
        entry.handler_id == 0x01,
    ensures
        match prog {
            Some(p) => sound_table_program(u18@, *header, cmd_idx as int, entry) == Some(p@),
            None => sound_table_program(u18@, *header, cmd_idx as int, entry) is None,
        },
{
    let ghost data = u18@;
    let len = u18.len();
    let spt_table_file = match header.checked_file_offset(header.sound_program_table) {
        Some(t) => t,
        None => return None,
    };
    proof {
        crate::wpc89::lemma_file_offsets_within_image(data, header.sound_program_table);
    }
    // The parameter indexes a table of 2-byte pointers to program records;
    // each record has 10 two-byte sequence pointers (channels 0–9).
    let param = entry.param as usize;
    if param * 2 > len - spt_table_file || 2 > len - spt_table_file - param * 2 {
        return None;
    }
    let ptr_offset = spt_table_file + param * 2;
    let prog_addr = read_be_u16(u18, ptr_offset);
    if prog_addr < 0x4000 {
        return None;
    }
    let prog_file = header.to_file_offset(prog_addr);
    proof {
        crate::wpc89::lemma_file_offsets_within_image(data, prog_addr);
    }
    if 20 > len - prog_file {
        return None;
    }

    // Build a synthetic VoiceDescriptor from the program record.
    let mut fm_channels: Vec<(u8, u16)> = Vec::new();
    let mut fm_mask: u8 = 0;
    let mut ch: u8 = 0;
    while ch < 10
        invariant
            data == u18@,
            len == data.len(),
            prog_file + 20 <= len,
            ch <= 10,
            fm_channels@ == record_channels(data, prog_file as int, ch as nat),
            fm_mask == record_mask(data, prog_file as int, ch as nat),
        decreases 10 - ch,
    {
        let seq_addr = read_be_u16(u18, prog_file + (ch as usize) * 2);
        if seq_addr >= 0x4000 {
            if ch < 8 {
                fm_mask |= 1u8 << ch;
            }
            fm_channels.push((ch, seq_addr));
        }
        ch += 1;
    }

    let sequences = decode_channels(u18, header, &fm_channels, true);
    let descriptor = VoiceDescriptor {
        addr: prog_addr,
        fm_mask,
        fm_channels,
        cvsd_type: 0,
        cvsd_seq_addr: None,
    };
    Some(
        SoundProgram {
            command: cmd_idx as u8,
            handler_id: entry.handler_id,
            voice_type_index: entry.param,
            descriptor,
            sequences,
        },
    )
}

/// Extract all sound programs from a U18 ROM.
///
/// Reads the dispatch table, voice-type table, voice descriptors, and
/// decodes the sequence bytecode for each channel of each command.
///
/// Supports two handler types:
/// - **0x04**: uses the voice-type table → voice descriptors with FM_mask +
///   per-channel sequence pointers.
/// - **0x01**: uses the sound-program table → 10-entry channel pointer
///   records.
pub fn extract_programs(u18_data: &[u8]) -> (r: Result<Vec<SoundProgram>, WpcError>)
    ensures
        match r {
            Ok(v) => extracted_programs(u18_data@) == Ok::<Seq<ProgramModel>, WpcError>(program_views(v@)),
            Err(e) => extracted_programs(u18_data@) == Err::<Seq<ProgramModel>, WpcError>(e),
        },
{
    let ghost data = u18_data@;
    let header = RomHeader::from_u18(u18_data)?;
    let dispatch = parse_cmd_dispatch_table(u18_data, &header)?;
    proof {
        lemma_dispatch_table_len(data, header);
    }

    let mut programs: Vec<SoundProgram> = Vec::new();
    let mut cmd_idx: usize = 0;
    while cmd_idx < dispatch.len()
        invariant
            data == u18_data@,
            header == header_of(data),
            header.wf(),
            data.len() >= 0x20000,
            dispatch@ == dispatch_table(data, header),
            dispatch@.len() <= 256,
            cmd_idx <= dispatch@.len(),
            program_views(programs@) == programs_upto(data, header, dispatch@, cmd_idx as nat),
        decreases dispatch@.len() - cmd_idx,
    {
        let entry = dispatch[cmd_idx];
        let prog = if entry.handler_id == 0x04 {
            build_voice_type_program(u18_data, &header, cmd_idx, entry)
        } else if entry.handler_id == 0x01 {
            build_sound_table_program(u18_data, &header, cmd_idx, entry)
        } else {
            None
        };
        let ghost before = programs@;
        match prog {
            Some(p) => {
                programs.push(p);
                proof {
                    assert(program_views(programs@) =~= program_views(before) + seq![programs@.last()@]);
                }
            },
            None => {
                assert(program_views(before) =~= program_views(before) + Seq::<ProgramModel>::empty());
            },
        }
        cmd_idx += 1;
    }
    Ok(programs)
}


// ---------------------------------------------------------------------------
// Display / formatting
// ---------------------------------------------------------------------------

/// The concatenation of `f` applied to each element of `s`, in order.
pub open spec fn concat_map<A>(s: Seq<A>, f: spec_fn(A) -> Seq<char>) -> Seq<char>
    decreases s.len(),
{
    if s.len() == 0 {
        Seq::empty()
    } else {
        concat_map(s.drop_last(), f) + f(s.last())
    }
}

proof fn lemma_concat_map_step<A>(s: Seq<A>, f: spec_fn(A) -> Seq<char>, i: int)
    requires
        0 <= i < s.len(),
    ensures
        concat_map(s.take(i + 1), f) == concat_map(s.take(i), f) + f(s[i]),
{
    assert(s.take(i + 1).drop_last() =~= s.take(i));
}

/// Operand bytes as two-digit hexadecimal numbers separated by spaces.
pub open spec fn hex_bytes_text(bytes: Seq<u8>) -> Seq<char>
    decreases bytes.len(),
{
    if bytes.len() == 0 {
        Seq::empty()
    } else if bytes.len() == 1 {
        hex_text(bytes[0] as nat, 2)
    } else {
        hex_bytes_text(bytes.drop_last()) + " "@ + hex_text(bytes.last() as nat, 2)
    }
}

/// One listing line: stream offset, raw opcode byte, opcode name padded to
/// 24 characters, then the operand bytes if there are any.
pub open spec fn instruction_text(inst: InstructionModel) -> Seq<char> {
    hex_text(inst.pos as nat, 4) + ": ["@ + hex_text(inst.raw_opcode as nat, 2) + "] "@ + pad_right(
        inst.opcode.spec_name(),
        24,
    ) + if inst.operands.len() == 0 {
        Seq::empty()
    } else {
        " "@ + hex_bytes_text(inst.operands)
    }
}

fn push_hex_bytes(out: &mut String, bytes: &Vec<u8>)
    ensures
        final(out)@ == old(out)@ + hex_bytes_text(bytes@),
{
    let ghost start = out@;
    let mut i: usize = 0;
    while i < bytes.len()
        invariant
            i <= bytes@.len(),
            out@ == start + hex_bytes_text(bytes@.take(i as int)),
        decreases bytes@.len() - i,
    {
        if i > 0 {
            out.append(" ");
        }
        push_hex(out, bytes[i] as u64, 2);
        proof {
            let t = bytes@.take(i + 1);
            assert(t.drop_last() =~= bytes@.take(i as int));
            assert(t.last() == bytes@[i as int]);
            if i == 0 {
                assert(bytes@.take(i as int) =~= Seq::<u8>::empty());
                assert(out@ =~= start + hex_bytes_text(t));
            } else {
                assert(out@ =~= start + hex_bytes_text(t));
            }
        }
        i += 1;
    }
    assert(bytes@.take(i as int) =~= bytes@);
}

fn push_instruction_text(out: &mut String, inst: &SeqInstruction)
    ensures
        final(out)@ == old(out)@ + instruction_text(inst@),
{
    let ghost start = out@;
    push_hex(out, inst.pos as u64, 4);
    out.append(": [");
    push_hex(out, inst.raw_opcode as u64, 2);
    out.append("] ");
    push_padded(out, inst.opcode.name(), 24);
    if inst.operands.len() > 0 {
        out.append(" ");
        push_hex_bytes(out, &inst.operands);
    }
    assert(out@ =~= start + instruction_text(inst@));
}

impl SeqInstruction {
    /// The listing line of this instruction.
    pub fn render(&self) -> (line: String)
        ensures
            line@ == instruction_text(self@),
    {
        let mut line = String::new();
        push_instruction_text(&mut line, self);
        line
    }
}

/// The channels named by an FM mask among channels `0..n`, as decimal
/// numbers separated by ", ".
pub open spec fn mask_channel_list(mask: u8, n: nat) -> Seq<char>
    decreases n,
{
    if n == 0 {
        Seq::empty()
    } else {
        let prev = mask_channel_list(mask, (n - 1) as nat);
        if mask & (1u8 << ((n - 1) as u8)) != 0 {
            if prev.len() == 0 {
                dec_text((n - 1) as nat, 1)
            } else {
                prev + ", "@ + dec_text((n - 1) as nat, 1)
            }
        } else {
            prev
        }
    }
}

/// The FM channel line of a descriptor.
pub open spec fn fm_channel_text(c: (u8, u16)) -> Seq<char> {
    "    FM ch"@ + dec_text(c.0 as nat, 1) + " seq @ 0x"@ + hex_text(c.1 as nat, 4) + "\n"@
}

/// The CVSD line of a descriptor.
pub open spec fn cvsd_text(d: DescriptorModel) -> Seq<char> {
    if d.cvsd_type == 0 {
        "    CVSD: none\n"@
    } else {
        "    CVSD type: 0x"@ + hex_text(d.cvsd_type as nat, 2) + match d.cvsd_seq_addr {
            Some(a) => ", seq @ 0x"@ + hex_text(a as nat, 4),
            None => Seq::empty(),
        } + "\n"@
    }
}

/// The listing line of an instruction within a sequence block.
pub open spec fn instruction_line(inst: InstructionModel) -> Seq<char> {
    "    "@ + instruction_text(inst) + "\n"@
}

/// The heading line of a decoded sequence block.
pub open spec fn sequence_head_text(s: SequenceModel) -> Seq<char> {
    "\n"@ + "  ["@ + s.channel + "] @ 0x"@ + hex_text(s.start_addr as nat, 4) + " ("@ + (if s.complete {
        "complete"@
    } else {
        "INCOMPLETE"@
    }) + ", "@ + dec_text(s.instructions.len(), 1) + " instructions)\n"@
}

/// The truncation note of a decoded sequence block.
pub open spec fn truncation_text(s: SequenceModel) -> Seq<char> {
    match s.truncation {
        Some(r) => "    ; truncated: "@ + r + "\n"@,
        None => Seq::empty(),
    }
}

/// The block of one decoded sequence.
pub open spec fn sequence_text(s: SequenceModel) -> Seq<char> {
    sequence_head_text(s) + concat_map(s.instructions, |i: InstructionModel| instruction_line(i))
        + truncation_text(s)
}

/// The heading lines of a sound program block.
pub open spec fn program_head_text(p: ProgramModel) -> Seq<char> {
    let d = p.descriptor;
    "--- Command 0x"@ + hex_text(p.command as nat, 2) + " (handler=0x"@ + hex_text(
        p.handler_id as nat,
        2,
    ) + ", voice_type=0x"@ + hex_text(p.voice_type_index as nat, 2) + ") ---\n"@
        + "  Descriptor @ 0x"@ + hex_text(d.addr as nat, 4) + ":\n"@ + "    FM mask: 0x"@
        + hex_text(d.fm_mask as nat, 2) + " (ch "@ + (if mask_channel_list(d.fm_mask, 8).len() == 0 {
        "none"@
    } else {
        mask_channel_list(d.fm_mask, 8)
    }) + ")\n"@
}

/// The block of one sound program.
pub open spec fn program_text(p: ProgramModel) -> Seq<char> {
    program_head_text(p) + concat_map(p.descriptor.fm_channels, |c: (u8, u16)| fm_channel_text(c))
        + cvsd_text(p.descriptor) + concat_map(p.sequences, |s: SequenceModel| sequence_text(s))
        + "\n"@
}

/// The heading lines of the report.
pub open spec fn report_heading(max_cmd_index: u8, count: nat) -> Seq<char> {
    "=== WPC-89 Sound Program Report ===\n"@ + "Max command index: 0x"@ + hex_text(
        max_cmd_index as nat,
        2,
    ) + ", Programs decoded: "@ + dec_text(count, 1) + "\n\n"@
}

/// The index of the first program for command `cmd` from index `from` on.
pub open spec fn find_program_from(programs: Seq<ProgramModel>, cmd: int, from: int) -> Option<int>
    decreases programs.len() - from,
{
    if from < 0 || from >= programs.len() {
        None
    } else if programs[from].command == cmd {
        Some(from)
    } else {
        find_program_from(programs, cmd, from + 1)
    }
}

/// What the search finds: the first program for `cmd` at or after `from`,
/// or, where it finds none, that no program from `from` on is for `cmd`.
pub proof fn lemma_find_program_from(programs: Seq<ProgramModel>, cmd: int, from: int)
    requires
        0 <= from,
    ensures
        match find_program_from(programs, cmd, from) {
            Some(k) => from <= k < programs.len() && programs[k].command == cmd && forall|j: int|
                from <= j < k ==> #[trigger] programs[j].command != cmd,
            None => forall|j: int| from <= j < programs.len() ==> #[trigger] programs[j].command != cmd,
        },
    decreases programs.len() - from,
{
    if from < programs.len() && programs[from].command != cmd {
        lemma_find_program_from(programs, cmd, from + 1);
    }
}

/// The section of a command whose dispatch entry yields no program: its
/// handler type and parameter.
pub open spec fn undecoded_section(cmd: int, entry: CommandDispatchEntry) -> Seq<char> {
    "--- Command 0x"@ + hex_text(cmd as nat, 2) + " (handler=0x"@ + hex_text(
        entry.handler_id as nat,
        2,
    ) + ", param=0x"@ + hex_text(entry.param as nat, 2) + ") ---\n"@
        + "  no sound program decoded\n\n"@
}

/// The section of a command whose dispatch entry lies past the end of the
/// image.
pub open spec fn unreadable_section(cmd: int) -> Seq<char> {
    "--- Command 0x"@ + hex_text(cmd as nat, 2) + " ---\n"@
        + "  dispatch entry lies outside the ROM image\n\n"@
}

/// The section of command `cmd`: the block of its program where there is
/// one, otherwise its dispatch handler and parameter, otherwise a note that
/// its dispatch entry cannot be read.
pub open spec fn command_section(programs: Seq<ProgramModel>, dispatch: Seq<CommandDispatchEntry>, cmd: int) -> Seq<
    char,
> {
    match find_program_from(programs, cmd, 0) {
        Some(k) => program_text(programs[k]),
        None => if 0 <= cmd < dispatch.len() {
            undecoded_section(cmd, dispatch[cmd])
        } else {
            unreadable_section(cmd)
        },
    }
}

/// The sections of commands `0..n`, in command order.
pub open spec fn command_sections(programs: Seq<ProgramModel>, dispatch: Seq<CommandDispatchEntry>, n: nat) -> Seq<
    char,
>
    decreases n,
{
    if n == 0 {
        Seq::empty()
    } else {
        command_sections(programs, dispatch, (n - 1) as nat) + command_section(
            programs,
            dispatch,
            n - 1,
        )
    }
}

/// The report: its heading, then one section for every sound command from
/// 0 to `max_cmd_index`, in command order.
pub open spec fn report_text(
    programs: Seq<ProgramModel>,
    dispatch: Seq<CommandDispatchEntry>,
    max_cmd_index: u8,
) -> Seq<char> {
    report_heading(max_cmd_index, programs.len()) + command_sections(
        programs,
        dispatch,
        max_cmd_index as nat + 1,
    )
}

/// The sections of commands `m..n`, in command order.
pub open spec fn command_sections_between(
    programs: Seq<ProgramModel>,
    dispatch: Seq<CommandDispatchEntry>,
    m: nat,
    n: nat,
) -> Seq<char>
    decreases n - m,
{
    if n <= m {
        Seq::empty()
    } else {
        command_section(programs, dispatch, m as int) + command_sections_between(
            programs,
            dispatch,
            m + 1,
            n,
        )
    }
}

/// The report is its heading followed by the sections of all commands
/// `0..=max_cmd_index` in order: for every such command `c`, the sections of
/// the commands below `c`, then the section of `c`, then those above it.
pub proof fn lemma_report_lists_every_command(
    programs: Seq<ProgramModel>,
    dispatch: Seq<CommandDispatchEntry>,
    max_cmd_index: u8,
    c: nat,
)
    requires
        c <= max_cmd_index,
    ensures
        report_text(programs, dispatch, max_cmd_index) == report_heading(
            max_cmd_index,
            programs.len(),
        ) + command_sections(programs, dispatch, c) + command_section(programs, dispatch, c as int)
            + command_sections_between(programs, dispatch, c + 1, max_cmd_index as nat + 1),
{
    lemma_command_sections_split(programs, dispatch, c, max_cmd_index as nat + 1);
    assert(command_sections_between(programs, dispatch, c, max_cmd_index as nat + 1)
        == command_section(programs, dispatch, c as int) + command_sections_between(
        programs,
        dispatch,
        c + 1,
        max_cmd_index as nat + 1,
    ));
    assert(report_text(programs, dispatch, max_cmd_index) =~= report_heading(
        max_cmd_index,
        programs.len(),
    ) + command_sections(programs, dispatch, c) + command_section(programs, dispatch, c as int)
        + command_sections_between(programs, dispatch, c + 1, max_cmd_index as nat + 1));
}

proof fn lemma_command_sections_split(
    programs: Seq<ProgramModel>,
    dispatch: Seq<CommandDispatchEntry>,
    m: nat,
    n: nat,
)
    requires
        m <= n,
    ensures
        command_sections(programs, dispatch, n) == command_sections(programs, dispatch, m)
            + command_sections_between(programs, dispatch, m, n),
    decreases n - m,
{
    if m == n {
        assert(command_sections(programs, dispatch, n) =~= command_sections(programs, dispatch, m)
            + command_sections_between(programs, dispatch, m, n));
    } else {
        lemma_command_sections_split(programs, dispatch, m + 1, n);
        assert(command_sections(programs, dispatch, m + 1) == command_sections(
            programs,
            dispatch,
            m,
        ) + command_section(programs, dispatch, m as int));
        assert(command_sections(programs, dispatch, n) =~= command_sections(programs, dispatch, m)
            + command_sections_between(programs, dispatch, m, n));
    }
}

fn push_mask_channels(out: &mut String, mask: u8)
    ensures
        final(out)@ == old(out)@ + (if mask_channel_list(mask, 8).len() == 0 {
            "none"@
        } else {
            mask_channel_list(mask, 8)
        }),
{
    let ghost start = out@;
    let mut list = String::new();
    let mut b: u8 = 0;
    while b < 8
        invariant
            b <= 8,
            list@ == mask_channel_list(mask, b as nat),
        decreases 8 - b,
    {
        if mask & (1u8 << b) != 0 {
            if list.unicode_len() > 0 {
                list.append(", ");
            }
            push_dec(&mut list, b as u64, 1);
        }
        b += 1;
    }
    if list.unicode_len() == 0 {
        out.append("none");
    } else {
        out.append(list.as_str());
    }
}

fn push_sequence_head(out: &mut String, seq: &DecodedSequence)
    ensures
        final(out)@ == old(out)@ + sequence_head_text(seq@),
{
    let ghost start = out@;
    out.append("\n");
    out.append("  [");
    out.append(seq.channel.as_str());
    out.append("] @ 0x");
    push_hex(out, seq.start_addr as u64, 4);
    out.append(" (");
    if seq.complete {
        out.append("complete");
    } else {
        out.append("INCOMPLETE");
    }
    out.append(", ");
    push_dec(out, seq.instructions.len() as u64, 1);
    out.append(" instructions)\n");
    assert(out@ =~= start + sequence_head_text(seq@));
}

fn push_instruction_lines(out: &mut String, insts: &Vec<SeqInstruction>)
    ensures
        final(out)@ == old(out)@ + concat_map(
            instruction_views(insts@),
            |i: InstructionModel| instruction_line(i),
        ),
{
    let ghost f = |i: InstructionModel| instruction_line(i);
    let ghost head = out@;
    let ghost views = instruction_views(insts@);
    let mut i: usize = 0;
    while i < insts.len()
        invariant
            i <= insts@.len(),
            views == instruction_views(insts@),
            f == (|i: InstructionModel| instruction_line(i)),
            out@ == head + concat_map(views.take(i as int), f),
        decreases insts@.len() - i,
    {
        let ghost before = out@;
        out.append("    ");
        push_instruction_text(out, &insts[i]);
        out.append("\n");
        proof {
            assert(views[i as int] == insts@[i as int]@);
            assert(out@ =~= before + instruction_line(views[i as int]));
            lemma_concat_map_step(views, f, i as int);
            assert(f(views[i as int]) == instruction_line(views[i as int]));
            assert(out@ =~= head + concat_map(views.take(i + 1), f));
        }
        i += 1;
    }
    assert(views.take(i as int) =~= views);
}

fn push_sequence_text(out: &mut String, seq: &DecodedSequence)
    ensures
        final(out)@ == old(out)@ + sequence_text(seq@),
{
    let ghost start = out@;
    push_sequence_head(out, seq);
    push_instruction_lines(out, &seq.instructions);
    let ghost mid = out@;
    match &seq.truncation {
        Some(reason) => {
            out.append("    ; truncated: ");
            out.append(reason.as_str());
            out.append("\n");
        },
        None => {},
    }
    assert(out@ =~= mid + truncation_text(seq@));
    assert(out@ =~= start + sequence_text(seq@));
}

fn push_program_head(out: &mut String, prog: &SoundProgram)
    ensures
        final(out)@ == old(out)@ + program_head_text(prog@),
{
    let ghost start = out@;
    out.append("--- Command 0x");
    push_hex(out, prog.command as u64, 2);
    out.append(" (handler=0x");
    push_hex(out, prog.handler_id as u64, 2);
    out.append(", voice_type=0x");
    push_hex(out, prog.voice_type_index as u64, 2);
    out.append(") ---\n");
    out.append("  Descriptor @ 0x");
    push_hex(out, prog.descriptor.addr as u64, 4);
    out.append(":\n");
    out.append("    FM mask: 0x");
    push_hex(out, prog.descriptor.fm_mask as u64, 2);
    out.append(" (ch ");
    push_mask_channels(out, prog.descriptor.fm_mask);
    out.append(")\n");
    assert(out@ =~= start + program_head_text(prog@));
}

fn push_fm_channel_lines(out: &mut String, chans: &Vec<(u8, u16)>)
    ensures
        final(out)@ == old(out)@ + concat_map(chans@, |c: (u8, u16)| fm_channel_text(c)),
{
    let ghost f = |c: (u8, u16)| fm_channel_text(c);
    let ghost start = out@;
    let mut i: usize = 0;
    while i < chans.len()
        invariant
            i <= chans@.len(),
            f == (|c: (u8, u16)| fm_channel_text(c)),
            out@ == start + concat_map(chans@.take(i as int), f),
        decreases chans@.len() - i,
    {
        let ghost before = out@;
        let (ch, addr) = chans[i];
        out.append("    FM ch");
        push_dec(out, ch as u64, 1);
        out.append(" seq @ 0x");
        push_hex(out, addr as u64, 4);
        out.append("\n");
        proof {
            assert(out@ =~= before + fm_channel_text(chans@[i as int]));
            lemma_concat_map_step(chans@, f, i as int);
            assert(f(chans@[i as int]) == fm_channel_text(chans@[i as int]));
            assert(out@ =~= start + concat_map(chans@.take(i + 1), f));
        }
        i += 1;
    }
    assert(chans@.take(i as int) =~= chans@);
}

fn push_cvsd_line(out: &mut String, desc: &VoiceDescriptor)
    ensures
        final(out)@ == old(out)@ + cvsd_text(desc@),
{
    let ghost start = out@;
    if desc.cvsd_type == 0 {
        out.append("    CVSD: none\n");
    } else {
        out.append("    CVSD type: 0x");
        push_hex(out, desc.cvsd_type as u64, 2);
        if let Some(addr) = desc.cvsd_seq_addr {
            out.append(", seq @ 0x");
            push_hex(out, addr as u64, 4);
        }
        out.append("\n");
    }
    assert(out@ =~= start + cvsd_text(desc@));
}

fn push_sequence_blocks(out: &mut String, seqs: &Vec<DecodedSequence>)
    ensures
        final(out)@ == old(out)@ + concat_map(
            sequence_views(seqs@),
            |s: SequenceModel| sequence_text(s),
        ),
{
    let ghost g = |s: SequenceModel| sequence_text(s);
    let ghost views = sequence_views(seqs@);
    let ghost start = out@;
    let mut j: usize = 0;
    while j < seqs.len()
        invariant
            j <= seqs@.len(),
            views == sequence_views(seqs@),
            g == (|s: SequenceModel| sequence_text(s)),
            out@ == start + concat_map(views.take(j as int), g),
        decreases seqs@.len() - j,
    {
        let ghost before = out@;
        push_sequence_text(out, &seqs[j]);
        proof {
            assert(views[j as int] == seqs@[j as int]@);
            lemma_concat_map_step(views, g, j as int);
            assert(g(views[j as int]) == sequence_text(views[j as int]));
            assert(out@ =~= start + concat_map(views.take(j + 1), g));
        }
        j += 1;
    }
    assert(views.take(j as int) =~= views);
}

fn push_program_text(out: &mut String, prog: &SoundProgram)
    ensures
        final(out)@ == old(out)@ + program_text(prog@),
{
    let ghost start = out@;
    push_program_head(out, prog);
    push_fm_channel_lines(out, &prog.descriptor.fm_channels);
    push_cvsd_line(out, &prog.descriptor);
    push_sequence_blocks(out, &prog.sequences);
    out.append("\n");
    assert(out@ =~= start + program_text(prog@));
}

/// The index of the first program for command `cmd`.
fn find_program(programs: &[SoundProgram], cmd: u8) -> (k: Option<usize>)
    ensures
        find_program_from(program_views(programs@), cmd as int, 0) == match k {
            Some(i) => Some(i as int),
            None => None::<int>,
        },
        k matches Some(i) ==> i < programs@.len(),
{
    proof {
        lemma_find_program_from(program_views(programs@), cmd as int, 0);
    }
    let ghost views = program_views(programs@);
    let mut i: usize = 0;
    while i < programs.len()
        invariant
            i <= programs@.len(),
            views == program_views(programs@),
            find_program_from(views, cmd as int, 0) == find_program_from(views, cmd as int, i as int),
        decreases programs@.len() - i,
    {
        assert(views[i as int] == programs@[i as int]@);
        if programs[i].command == cmd {
            return Some(i);
        }
        i += 1;
    }
    None
}

fn push_command_section(
    out: &mut String,
    programs: &[SoundProgram],
    dispatch: &[CommandDispatchEntry],
    cmd: u8,
)
    ensures
        final(out)@ == old(out)@ + command_section(program_views(programs@), dispatch@, cmd as int),
{
    let ghost start = out@;
    let ghost views = program_views(programs@);
    match find_program(programs, cmd) {
        Some(k) => {
            assert(views[k as int] == programs@[k as int]@);
            push_program_text(out, &programs[k]);
        },
        None => {
            if (cmd as usize) < dispatch.len() {
                let entry = dispatch[cmd as usize];
                out.append("--- Command 0x");
                push_hex(out, cmd as u64, 2);
                out.append(" (handler=0x");
                push_hex(out, entry.handler_id as u64, 2);
                out.append(", param=0x");
                push_hex(out, entry.param as u64, 2);
                out.append(") ---\n");
                out.append("  no sound program decoded\n\n");
            } else {
                out.append("--- Command 0x");
                push_hex(out, cmd as u64, 2);
                out.append(" ---\n");
                out.append("  dispatch entry lies outside the ROM image\n\n");
            }
        },
    }
    assert(out@ =~= start + command_section(views, dispatch@, cmd as int));
}

/// Format the report: its heading, then a section for every command from
/// 0 to `header.max_cmd_index`, the program block where `programs` holds
/// one for the command and its dispatch entry otherwise.
pub fn format_programs(
    programs: &[SoundProgram],
    dispatch: &[CommandDispatchEntry],
    header: &RomHeader,
) -> (report: String)
    ensures
        report@ == report_text(program_views(programs@), dispatch@, header.max_cmd_index),
{
    let mut out = String::new();
    out.append("=== WPC-89 Sound Program Report ===\n");
    out.append("Max command index: 0x");
    push_hex(&mut out, header.max_cmd_index as u64, 2);
    out.append(", Programs decoded: ");
    push_dec(&mut out, programs.len() as u64, 1);
    out.append("\n\n");
    let ghost head = out@;
    let ghost views = program_views(programs@);
    assert(head =~= report_heading(header.max_cmd_index, views.len()));
    let count: u16 = header.max_cmd_index as u16 + 1;
    let mut c: u16 = 0;
    while c < count
        invariant
            c <= count,
            count == header.max_cmd_index as u16 + 1,
            views == program_views(programs@),
            out@ == head + command_sections(views, dispatch@, c as nat),
        decreases count - c,
    {
        push_command_section(&mut out, programs, dispatch, c as u8);
        proof {
            assert(out@ =~= head + command_sections(views, dispatch@, (c + 1) as nat));
        }
        c += 1;
    }
    out
}

/// The summary of a U18 image named `rom_name`: its name line, then the
/// report of every sound command of the image.
pub open spec fn summary_text(rom_name: Seq<char>, data: Seq<u8>) -> Result<Seq<char>, WpcError> {
    match extracted_programs(data) {
        Err(e) => Err(e),
        Ok(programs) => Ok(
            "ROM: "@ + rom_name + "\n"@ + report_text(
                programs,
                dispatch_table(data, header_of(data)),
                header_of(data).max_cmd_index,
            ),
        ),
    }
}

/// Produce the report of every sound command of the U18 image `u18_data`,
/// whose file name is `rom_name`.
pub fn summarise_programs(rom_name: &str, u18_data: &[u8]) -> (summary: Result<String, WpcError>)
    ensures
        match summary {
            Ok(s) => summary_text(rom_name@, u18_data@) == Ok::<Seq<char>, WpcError>(s@),
            Err(e) => summary_text(rom_name@, u18_data@) == Err::<Seq<char>, WpcError>(e),
        },
{
    let header = RomHeader::from_u18(u18_data)?;
    let programs = extract_programs(u18_data)?;
    let dispatch = parse_cmd_dispatch_table(u18_data, &header)?;
    let mut out = String::new();
    out.append("ROM: ");
    out.append(rom_name);
    out.append("\n");
    let report = format_programs(programs.as_slice(), dispatch.as_slice(), &header);
    out.append(report.as_str());
    Ok(out)
}

// ---------------------------------------------------------------------------
// Properties of decoding
// ---------------------------------------------------------------------------

/// The decoder goes on after an instruction with this opcode.
pub open spec fn continues_after(op: SeqOpcode) -> bool {
    op.layout().2 != NextOp::Terminal && op != SeqOpcode::IndirectOpcodeLoad
}

/// An instruction with this opcode can complete a sequence.
pub open spec fn ends_sequence(op: SeqOpcode) -> bool {
    op.layout().2 == NextOp::Terminal || op == SeqOpcode::SubroutineReturn || op
        == SeqOpcode::IndirectOpcodeLoad
}

/// An instruction's opcode is the one its raw byte selects, and an opcode
/// that embeds its successor carries its operand count less that byte.
pub open spec fn instruction_consistent(inst: InstructionModel) -> bool {
    &&& opcode_of(inst.raw_opcode) == Some(inst.opcode)
    &&& inst.opcode.layout().2 == NextOp::Embedded ==> (inst.operands.len() + 1
        == inst.opcode.layout().0 || (inst.opcode.layout().1 matches Some(a) && inst.operands.len()
        + 1 == a))
}

/// The shape of the instructions a decoder emits from stream offset
/// `start`: consistent instructions at strictly increasing positions, the
/// first at `start`; only the last may end the sequence, and a complete
/// sequence ends with an instruction that can end it.
pub open spec fn trace_shape(insts: Seq<InstructionModel>, start: int, complete: bool) -> bool {
    &&& forall|k: int| 0 <= k < insts.len() ==> instruction_consistent(#[trigger] insts[k])
    &&& forall|k: int| 0 <= k < insts.len() ==> (#[trigger] insts[k]).pos >= start
    &&& insts.len() > 0 ==> insts[0].pos == start
    &&& forall|k: int, l: int| 0 <= k < l < insts.len() ==> (#[trigger] insts[k]).pos < (
    #[trigger] insts[l]).pos
    &&& forall|k: int| 0 <= k < insts.len() - 1 ==> continues_after((#[trigger] insts[k]).opcode)
    &&& complete ==> insts.len() > 0 && ends_sequence(insts.last().opcode)
}

spec fn state_nonneg(st: DecodeState) -> bool {
    &&& st.data_pos >= 0
    &&& forall|i: int| 0 <= i < st.call_stack.len() ==> #[trigger] st.call_stack[i] >= 0
}

proof fn lemma_step_shape(data: Seq<u8>, hdr: RomHeader, st: DecodeState)
    requires
        state_nonneg(st),
    ensures
        match decode_step(data, hdr, st) {
            StepOutcome::Continue(inst, next) => {
                &&& instruction_consistent(inst)
                &&& inst.pos == st.stream_offset
                &&& continues_after(inst.opcode)
                &&& state_nonneg(next)
                &&& next.stream_offset > st.stream_offset
            },
            StepOutcome::Stop(last, reason) => {
                &&& (last matches Some(inst) ==> instruction_consistent(inst) && inst.pos
                    == st.stream_offset)
                &&& reason is None ==> (last matches Some(inst) && ends_sequence(inst.opcode))
            },
        },
{
    if let Some(opcode) = opcode_of(st.op) {
        lemma_layout_bounds(opcode);
        lemma_resolved_size_choice(data, st.data_pos, opcode.layout().0 as int, opcode.layout().1);
        match decode_step(data, hdr, st) {
            StepOutcome::Continue(inst, next) => {
                if opcode == SeqOpcode::SubroutineCall {
                    assert(state_nonneg(next));
                } else if opcode == SeqOpcode::SubroutineReturn {
                    assert forall|i: int| 0 <= i < next.call_stack.len() implies #[trigger]
                        next.call_stack[i] >= 0 by {
                        assert(next.call_stack[i] == st.call_stack[i]);
                    }
                } else {
                }
            },
            StepOutcome::Stop(last, reason) => {},
        }
    }
}

proof fn lemma_run_decoder_shape(data: Seq<u8>, hdr: RomHeader, st: DecodeState, fuel: nat)
    requires
        state_nonneg(st),
    ensures
        run_decoder(data, hdr, st, fuel).0.len() <= fuel,
        trace_shape(
            run_decoder(data, hdr, st, fuel).0,
            st.stream_offset,
            run_decoder(data, hdr, st, fuel).1 is None,
        ),
    decreases fuel,
{
    if fuel > 0 {
        lemma_step_shape(data, hdr, st);
        match decode_step(data, hdr, st) {
            StepOutcome::Continue(inst, next) => {
                lemma_run_decoder_shape(data, hdr, next, (fuel - 1) as nat);
                let rest = run_decoder(data, hdr, next, (fuel - 1) as nat).0;
                let all = run_decoder(data, hdr, st, fuel).0;
                assert(all == seq![inst] + rest);
                assert forall|k: int| 0 <= k < all.len() implies instruction_consistent(
                    #[trigger] all[k],
                ) && all[k].pos >= st.stream_offset by {
                    if k > 0 {
                        assert(all[k] == rest[k - 1]);
                    }
                }
                assert forall|k: int, l: int| 0 <= k < l < all.len() implies (
                #[trigger] all[k]).pos < (#[trigger] all[l]).pos by {
                    assert(all[l] == rest[l - 1]);
                    if k > 0 {
                        assert(all[k] == rest[k - 1]);
                    }
                }
                assert forall|k: int| 0 <= k < all.len() - 1 implies continues_after(
                    (#[trigger] all[k]).opcode,
                ) by {
                    if k > 0 {
                        assert(all[k] == rest[k - 1]);
                    }
                }
                if rest.len() > 0 {
                    assert(all.last() == rest.last());
                }
            },
            StepOutcome::Stop(last, reason) => {},
        }
    }
}

/// The decoder's registers point into the byte stream that starts at file
/// position `base`: the current opcode is the stream byte at its offset and
/// the next data byte follows it.
spec fn reads_stream(data: Seq<u8>, base: int, st: DecodeState) -> bool {
    &&& 0 <= base + st.stream_offset < data.len()
    &&& st.op == data[base + st.stream_offset]
    &&& st.data_pos == base + st.stream_offset + 1
}

/// No instruction before the `k`-th one transfers control.
pub open spec fn straight_line_upto(insts: Seq<InstructionModel>, k: int) -> bool {
    forall|j: int| 0 <= j < k ==> (#[trigger] insts[j]).opcode.layout().2 != NextOp::Branch
}

/// An instruction that sits at stream offset `pos` of the byte stream at
/// file position `base`: its raw opcode is the byte there and its operands
/// are the bytes right after it.
pub open spec fn read_at_offset(data: Seq<u8>, base: int, inst: InstructionModel) -> bool {
    &&& 0 <= base + inst.pos
    &&& base + inst.pos + 1 + inst.operands.len() <= data.len()
    &&& inst.raw_opcode == data[base + inst.pos]
    &&& inst.operands == data.subrange(base + inst.pos + 1, base + inst.pos + 1 + inst.operands.len())
}

proof fn lemma_step_reads_stream(data: Seq<u8>, hdr: RomHeader, st: DecodeState, base: int)
    requires
        reads_stream(data, base, st),
    ensures
        match decode_step(data, hdr, st) {
            StepOutcome::Continue(inst, next) => read_at_offset(data, base, inst) && (
            inst.opcode.layout().2 != NextOp::Branch ==> reads_stream(data, base, next)),
            StepOutcome::Stop(last, _) => last matches Some(inst) ==> read_at_offset(data, base, inst),
        },
{
    let dp = st.data_pos;
    let len = data.len() as int;
    if let Some(opcode) = opcode_of(st.op) {
        lemma_layout_bounds(opcode);
        let primary = opcode.layout().0 as int;
        match opcode.layout().2 {
            NextOp::Terminal => {
                if dp + primary <= len {
                    assert(data.subrange(dp, dp + primary).len() == primary);
                }
            },
            NextOp::Branch => {
                if opcode == SeqOpcode::SubroutineCall {
                    if dp + 2 <= len {
                        assert(data.subrange(dp, dp + 2).len() == 2);
                    }
                } else if opcode == SeqOpcode::SubroutineReturn {
                    assert(Seq::<u8>::empty() =~= data.subrange(dp, dp));
                } else {
                    let end = if dp + primary <= len {
                        dp + primary
                    } else {
                        len
                    };
                    assert(data.subrange(dp, end).len() == end - dp);
                }
            },
            NextOp::Embedded => {
                let count = resolved_size(data, dp, primary, opcode.layout().1);
                lemma_resolved_size_choice(data, dp, primary, opcode.layout().1);
                if !(dp + count > len || count == 0) {
                    assert(data.subrange(dp, dp + count - 1).len() == count - 1);
                }
            },
        }
    }
}

#[verifier::rlimit(40)]
proof fn lemma_run_reads_stream(data: Seq<u8>, hdr: RomHeader, st: DecodeState, fuel: nat, base: int)
    requires
        reads_stream(data, base, st),
    ensures
        forall|k: int|
            0 <= k < run_decoder(data, hdr, st, fuel).0.len() && straight_line_upto(
                run_decoder(data, hdr, st, fuel).0,
                k,
            ) ==> read_at_offset(data, base, #[trigger] run_decoder(data, hdr, st, fuel).0[k]),
    decreases fuel,
{
    if fuel > 0 {
        let all = run_decoder(data, hdr, st, fuel).0;
        match decode_step(data, hdr, st) {
            StepOutcome::Continue(inst, next) => {
                let rest = run_decoder(data, hdr, next, (fuel - 1) as nat).0;
                assert(all == seq![inst] + rest);
                lemma_step_reads_stream(data, hdr, st, base);
                if inst.opcode.layout().2 != NextOp::Branch {
                    assert(reads_stream(data, base, next));
                    lemma_run_reads_stream(data, hdr, next, (fuel - 1) as nat, base);
                }
                assert forall|k: int|
                    0 <= k < all.len() && straight_line_upto(all, k) implies read_at_offset(
                    data,
                    base,
                    #[trigger] all[k],
                ) by {
                    if k > 0 {
                        assert(all[0] == inst);
                        assert(all[k] == rest[k - 1]);
                        assert forall|j: int| 0 <= j < k - 1 implies (#[trigger] rest[j]).opcode.layout().2
                            != NextOp::Branch by {
                            assert(rest[j] == all[j + 1]);
                        }
                    }
                }
            },
            StepOutcome::Stop(last, reason) => {
                lemma_step_reads_stream(data, hdr, st, base);
                if let Some(inst) = last {
                    assert(all == seq![inst]);
                }
            },
        }
    }
}

/// Up to its first control transfer, a decoded sequence is read straight
/// from the image: the instruction at stream offset `pos` has the byte at
/// file position `start + pos` as its raw opcode and the bytes right after
/// it as its operands, `start` being the file position of the sequence's
/// start address.
pub proof fn lemma_decoded_sequence_reads_image(
    data: Seq<u8>,
    hdr: RomHeader,
    start_addr: u16,
    channel: Seq<char>,
)
    ensures
        ({
            let s = decoded_sequence(data, hdr, start_addr, channel);
            let start = hdr.spec_file_offset(start_addr as int);
            forall|k: int|
                0 <= k < s.instructions.len() && straight_line_upto(s.instructions, k)
                    ==> read_at_offset(data, start, #[trigger] s.instructions[k])
        }),
{
    let start_file = hdr.spec_file_offset(start_addr as int);
    if !(start_file < 0 || start_file >= data.len()) {
        let st = DecodeState {
            op: data[start_file],
            data_pos: start_file + 1,
            stream_offset: 0,
            call_stack: Seq::empty(),
        };
        lemma_run_reads_stream(data, hdr, st, 500, start_file);
    }
}

proof fn lemma_run_first(data: Seq<u8>, hdr: RomHeader, st: DecodeState, fuel: nat)
    ensures
        run_decoder(data, hdr, st, fuel).0.len() > 0 ==> run_decoder(data, hdr, st, fuel).0[0].raw_opcode
            == st.op && run_decoder(data, hdr, st, fuel).0[0].pos == st.stream_offset,
{
    if fuel > 0 {
        match decode_step(data, hdr, st) {
            StepOutcome::Continue(inst, next) => {
                let rest = run_decoder(data, hdr, next, (fuel - 1) as nat).0;
                assert(run_decoder(data, hdr, st, fuel).0 == seq![inst] + rest);
            },
            StepOutcome::Stop(last, reason) => {},
        }
    }
}

/// After a subroutine call the decoder goes on at the call's target: the
/// next instruction is three stream bytes further on and its raw opcode is
/// the byte at the file position of the big-endian address in the call's
/// two operand bytes.
#[verifier::opaque]
pub open spec fn calls_jump(data: Seq<u8>, hdr: RomHeader, insts: Seq<InstructionModel>) -> bool {
    forall|i: int|
        0 <= i < insts.len() - 1 && (#[trigger] insts[i]).opcode == SeqOpcode::SubroutineCall ==> {
            &&& insts[i].operands.len() == 2
            &&& insts[i + 1].pos == insts[i].pos + 3
            &&& insts[i + 1].raw_opcode == data[hdr.spec_file_offset(be_u16(insts[i].operands, 0) as int)]
        }
}

proof fn lemma_step_call(data: Seq<u8>, hdr: RomHeader, st: DecodeState)
    requires
        state_nonneg(st),
    ensures
        decode_step(data, hdr, st) matches StepOutcome::Continue(inst, next) ==> (inst.opcode
            == SeqOpcode::SubroutineCall ==> {
            &&& inst.operands.len() == 2
            &&& inst.pos == st.stream_offset
            &&& be_u16(inst.operands, 0) == be_u16(data, st.data_pos)
            &&& next.op == data[hdr.spec_file_offset(be_u16(data, st.data_pos) as int)]
            &&& next.stream_offset == st.stream_offset + 3
        }),
{
    if let Some(opcode) = opcode_of(st.op) {
        if opcode == SeqOpcode::SubroutineCall {
            let dp = st.data_pos;
            if dp + 2 <= data.len() {
                let ops = data.subrange(dp, dp + 2);
                assert(ops[0] == data[dp] && ops[1] == data[dp + 1]);
            }
        }
    }
}

#[verifier::rlimit(40)]
proof fn lemma_run_calls_jump(data: Seq<u8>, hdr: RomHeader, st: DecodeState, fuel: nat)
    requires
        state_nonneg(st),
    ensures
        calls_jump(data, hdr, run_decoder(data, hdr, st, fuel).0),
    decreases fuel,
{
    reveal(calls_jump);
    if fuel > 0 {
        let all = run_decoder(data, hdr, st, fuel).0;
        match decode_step(data, hdr, st) {
            StepOutcome::Continue(inst, next) => {
                let rest = run_decoder(data, hdr, next, (fuel - 1) as nat).0;
                assert(all == seq![inst] + rest);
                lemma_step_shape(data, hdr, st);
                lemma_run_calls_jump(data, hdr, next, (fuel - 1) as nat);
                lemma_run_first(data, hdr, next, (fuel - 1) as nat);
                assert forall|i: int|
                    0 <= i < all.len() - 1 && (#[trigger] all[i]).opcode == SeqOpcode::SubroutineCall
                        implies {
                    &&& all[i].operands.len() == 2
                    &&& all[i + 1].pos == all[i].pos + 3
                    &&& all[i + 1].raw_opcode == data[hdr.spec_file_offset(
                        be_u16(all[i].operands, 0) as int,
                    )]
                } by {
                    assert(all[i + 1] == rest[i]);
                    if i == 0 {
                        assert(all[0] == inst);
                        lemma_step_call(data, hdr, st);
                    } else {
                        assert(all[i] == rest[i - 1]);
                    }
                }
            },
            StepOutcome::Stop(last, reason) => {},
        }
    }
}

/// In a decoded sequence every subroutine call is followed by the
/// instruction at its target address (see [`calls_jump`]).
pub proof fn lemma_decoded_sequence_calls_jump(
    data: Seq<u8>,
    hdr: RomHeader,
    start_addr: u16,
    channel: Seq<char>,
)
    ensures
        calls_jump(data, hdr, decoded_sequence(data, hdr, start_addr, channel).instructions),
{
    reveal(calls_jump);
    let start_file = hdr.spec_file_offset(start_addr as int);
    if !(start_file < 0 || start_file >= data.len()) {
        lemma_run_calls_jump(
            data,
            hdr,
            DecodeState {
                op: data[start_file],
                data_pos: start_file + 1,
                stream_offset: 0,
                call_stack: Seq::empty(),
            },
            500,
        );
    }
}

/// A decoded sequence keeps its channel and start address, is complete
/// exactly when it carries no truncation reason, holds at most
/// [`MAX_INSTRUCTIONS`] instructions, and its instructions have the shape
/// of [`trace_shape`] from stream offset 0: each opcode is the one its raw
/// byte selects, positions start at 0 and strictly increase, an embedding
/// opcode carries its primary or alternate operand count less one byte,
/// no instruction but the last ends the sequence, and a complete sequence
/// ends with a terminal opcode, a subroutine return or an indirect load.
pub proof fn lemma_decoded_sequence_shape(data: Seq<u8>, hdr: RomHeader, start_addr: u16, channel: Seq<char>)
    ensures
        ({
            let s = decoded_sequence(data, hdr, start_addr, channel);
            &&& s.complete <==> s.truncation is None
            &&& s.instructions.len() <= MAX_INSTRUCTIONS
            &&& s.channel == channel
            &&& s.start_addr == start_addr
            &&& trace_shape(s.instructions, 0, s.complete)
        }),
{
    let start_file = hdr.spec_file_offset(start_addr as int);
    if !(start_file < 0 || start_file >= data.len()) {
        lemma_run_decoder_shape(
            data,
            hdr,
            DecodeState {
                op: data[start_file],
                data_pos: start_file + 1,
                stream_offset: 0,
                call_stack: Seq::empty(),
            },
            500,
        );
    }
}

/// The shape of a descriptor parsed at `addr`: it keeps the address, has a
/// CVSD sequence address exactly when its CVSD type is non-zero, and lists
/// at most eight FM channels in increasing channel order, each with its bit
/// set in the mask.
pub open spec fn descriptor_shape(d: DescriptorModel, addr: u16) -> bool {
    &&& d.addr == addr
    &&& d.cvsd_seq_addr is Some <==> d.cvsd_type != 0
    &&& d.fm_channels.len() <= 8
    &&& forall|k: int|
        0 <= k < d.fm_channels.len() ==> (#[trigger] d.fm_channels[k]).0 < 8 && d.fm_mask & (1u8
            << d.fm_channels[k].0) != 0
    &&& forall|k: int, l: int|
        0 <= k < l < d.fm_channels.len() ==> (#[trigger] d.fm_channels[k]).0 < (
        #[trigger] d.fm_channels[l]).0
}

/// A parsed voice descriptor lists its FM channels in increasing channel
/// order, each with its bit set in the mask, and has a CVSD sequence
/// address exactly when its CVSD type is non-zero.
pub proof fn lemma_parsed_descriptor_shape(data: Seq<u8>, hdr: RomHeader, addr: u16)
    ensures
        parsed_descriptor(data, hdr, addr) matches Ok(d) ==> descriptor_shape(d, addr),
{
    let base = hdr.spec_file_offset(addr as int);
    if !(base < 0 || base >= data.len()) {
        lemma_descriptor_channels_shape(data, base, data[base], 8);
    }
}

proof fn lemma_descriptor_channels_shape(data: Seq<u8>, base: int, mask: u8, ch: nat)
    requires
        ch <= 8,
    ensures
        descriptor_channels(data, base, mask, ch) matches Ok(s) ==> {
            &&& s.len() <= ch
            &&& forall|k: int| 0 <= k < s.len() ==> (#[trigger] s[k]).0 < ch && mask & (1u8 << s[k].0) != 0
            &&& forall|k: int, l: int| 0 <= k < l < s.len() ==> (#[trigger] s[k]).0 < (#[trigger] s[l]).0
        },
    decreases ch,
{
    if ch > 0 {
        lemma_descriptor_channels_shape(data, base, mask, (ch - 1) as nat);
    }
}

proof fn lemma_record_channels_shape(data: Seq<u8>, prog_file: int, n: nat)
    requires
        n <= 10,
    ensures
        record_channels(data, prog_file, n).len() <= n,
        forall|k: int|
            0 <= k < record_channels(data, prog_file, n).len() ==> (#[trigger] record_channels(
                data,
                prog_file,
                n,
            )[k]).0 < n,
    decreases n,
{
    if n > 0 {
        lemma_record_channels_shape(data, prog_file, (n - 1) as nat);
    }
}

/// `chans` lists FM or record channel `c`.
pub open spec fn lists_channel(chans: Seq<(u8, u16)>, c: u8) -> bool {
    exists|k: int| 0 <= k < chans.len() && (#[trigger] chans[k]).0 == c
}

proof fn lemma_lists_channel_push(chans: Seq<(u8, u16)>, x: (u8, u16), c: u8)
    ensures
        lists_channel(chans.push(x), c) <==> (lists_channel(chans, c) || x.0 == c),
{
    let all = chans.push(x);
    if lists_channel(all, c) {
        let k = choose|k: int| 0 <= k < all.len() && (#[trigger] all[k]).0 == c;
        if k < chans.len() {
            assert(chans[k] == all[k]);
        }
    }
    if lists_channel(chans, c) {
        let k = choose|k: int| 0 <= k < chans.len() && (#[trigger] chans[k]).0 == c;
        assert(all[k] == chans[k]);
    }
    if x.0 == c {
        assert(all[chans.len() as int] == x);
    }
}

proof fn lemma_mask_bit(prev: u8, a: u8, c: u8)
    by (bit_vector)
    requires
        a < 8,
        c < 8,
    ensures
        ((prev | (1u8 << a)) & (1u8 << c) != 0) == ((prev & (1u8 << c) != 0) || a == c),
        (0u8 & (1u8 << c)) == 0,
{
}

proof fn lemma_descriptor_channels_complete(data: Seq<u8>, base: int, mask: u8, n: nat)
    requires
        n <= 8,
    ensures
        descriptor_channels(data, base, mask, n) matches Ok(s) ==> {
            &&& forall|c: u8| c < n ==> (#[trigger] lists_channel(s, c) <==> mask & (1u8 << c) != 0)
            &&& forall|k: int| 0 <= k < s.len() ==> (#[trigger] s[k]).1 == be_u16(data, base + 1 + 2 * k)
        },
    decreases n,
{
    if n > 0 {
        let m = (n - 1) as nat;
        lemma_descriptor_channels_complete(data, base, mask, m);
        lemma_descriptor_channels_shape(data, base, mask, m);
        if let Ok(prev) = descriptor_channels(data, base, mask, m) {
            let a = m as u8;
            if mask & (1u8 << a) != 0 {
                let off = base + 1 + 2 * prev.len();
                if off + 2 <= data.len() {
                    let x = (a, be_u16(data, off));
                    let s = prev.push(x);
                    assert forall|c: u8| c < n implies (#[trigger] lists_channel(s, c) <==> mask & (1u8
                        << c) != 0) by {
                        lemma_lists_channel_push(prev, x, c);
                        if c == a {
                            if !lists_channel(prev, c) {
                            } else {
                                let k = choose|k: int| 0 <= k < prev.len() && (#[trigger] prev[k]).0 == c;
                                assert(prev[k].0 < m);
                            }
                        }
                    }
                    assert forall|k: int| 0 <= k < s.len() implies (#[trigger] s[k]).1 == be_u16(
                        data,
                        base + 1 + 2 * k,
                    ) by {
                        if k < prev.len() {
                            assert(s[k] == prev[k]);
                        }
                    }
                }
            } else {
                assert forall|c: u8| c < n implies (#[trigger] lists_channel(prev, c) <==> mask & (1u8
                    << c) != 0) by {
                    if c == a && lists_channel(prev, c) {
                        let k = choose|k: int| 0 <= k < prev.len() && (#[trigger] prev[k]).0 == c;
                        assert(prev[k].0 < m);
                    }
                }
            }
        }
    }
}

/// Where the fields of a descriptor parsed at file position `base` sit in
/// the image: the mask is the byte at `base`; the FM channels are exactly
/// the set bits of the mask, the `k`-th with the big-endian pointer at
/// `base + 1 + 2k`; the CVSD type is the byte after the last pointer and,
/// where it is non-zero, the CVSD sequence address the pointer after it.
pub open spec fn descriptor_bytes(data: Seq<u8>, base: int, d: DescriptorModel) -> bool {
    &&& 0 <= base < data.len()
    &&& d.fm_mask == data[base]
    &&& forall|c: u8| c < 8 ==> (#[trigger] lists_channel(d.fm_channels, c) <==> d.fm_mask & (1u8 << c) != 0)
    &&& forall|k: int|
        0 <= k < d.fm_channels.len() ==> (#[trigger] d.fm_channels[k]).1 == be_u16(data, base + 1 + 2 * k)
    &&& base + 1 + 2 * d.fm_channels.len() < data.len()
    &&& d.cvsd_type == data[base + 1 + 2 * d.fm_channels.len()]
    &&& d.cvsd_seq_addr == if d.cvsd_type != 0 {
        Some(be_u16(data, base + 2 + 2 * d.fm_channels.len()))
    } else {
        None
    }
}

/// A parsed voice descriptor reads its fields where [`descriptor_bytes`]
/// says: every set bit of the FM mask yields a channel, so the CVSD type
/// byte follows one pointer per set bit.
pub proof fn lemma_parsed_descriptor_bytes(data: Seq<u8>, hdr: RomHeader, addr: u16)
    ensures
        parsed_descriptor(data, hdr, addr) matches Ok(d) ==> descriptor_bytes(
            data,
            hdr.spec_file_offset(addr as int),
            d,
        ),
{
    let base = hdr.spec_file_offset(addr as int);
    if !(base < 0 || base >= data.len()) {
        lemma_descriptor_channels_complete(data, base, data[base], 8);
    }
}

proof fn lemma_record_channels_mask(data: Seq<u8>, prog_file: int, n: nat)
    requires
        n <= 10,
    ensures
        forall|c: u8|
            (#[trigger] lists_channel(record_channels(data, prog_file, n), c)) <==> (c < n && be_u16(
                data,
                prog_file + 2 * c,
            ) >= 0x4000),
        forall|c: u8|
            c < 8 ==> ((#[trigger] (record_mask(data, prog_file, n) & (1u8 << c))) != 0 <==> (c < n
                && be_u16(data, prog_file + 2 * c) >= 0x4000)),
        forall|k: int|
            0 <= k < record_channels(data, prog_file, n).len() ==> (#[trigger] record_channels(
                data,
                prog_file,
                n,
            )[k]).1 == be_u16(data, prog_file + 2 * record_channels(data, prog_file, n)[k].0),
    decreases n,
{
    if n > 0 {
        let m = (n - 1) as nat;
        lemma_record_channels_mask(data, prog_file, m);
        let prev = record_channels(data, prog_file, m);
        let all = record_channels(data, prog_file, n);
        let addr = be_u16(data, prog_file + 2 * m);
        let a = m as u8;
        assert forall|c: u8| (#[trigger] lists_channel(all, c)) <==> (c < n && be_u16(
            data,
            prog_file + 2 * c,
        ) >= 0x4000) by {
            if addr >= 0x4000 {
                lemma_lists_channel_push(prev, (a, addr), c);
            }
        }
        assert forall|c: u8|
            c < 8 implies ((#[trigger] (record_mask(data, prog_file, n) & (1u8 << c))) != 0 <==> (c
                < n && be_u16(data, prog_file + 2 * c) >= 0x4000)) by {
            let prev_mask = record_mask(data, prog_file, m);
            let prev_bit = prev_mask & (1u8 << c);
            assert(prev_bit != 0 <==> (c < m && be_u16(data, prog_file + 2 * c) >= 0x4000));
            if m < 8 && addr >= 0x4000 {
                assert(record_mask(data, prog_file, n) == prev_mask | (1u8 << a));
                lemma_mask_bit(prev_mask, a, c);
                assert(a as int == m);
            } else {
                assert(record_mask(data, prog_file, n) == prev_mask);
                if c as int == m {
                    assert(be_u16(data, prog_file + 2 * c) == addr);
                }
            }
        }
        assert forall|k: int| 0 <= k < all.len() implies (#[trigger] all[k]).1 == be_u16(
            data,
            prog_file + 2 * all[k].0,
        ) by {
            if k < prev.len() {
                assert(all[k] == prev[k]);
            }
        }
    } else {
        assert forall|c: u8| c < 8 implies (#[trigger] (record_mask(data, prog_file, 0) & (1u8 << c)))
            == 0 by {
            lemma_mask_bit(0, 0, c);
        }
    }
}

/// A handler-0x01 program lists, of the ten pointers of its sound-program
/// record, exactly the channels whose pointer lies in the banked window or
/// above (0x4000 on), each with that pointer; its FM mask has exactly the
/// bits of the listed channels below 8.
pub proof fn lemma_sound_table_program_channels(
    data: Seq<u8>,
    hdr: RomHeader,
    cmd: int,
    entry: CommandDispatchEntry,
)
    ensures
        sound_table_program(data, hdr, cmd, entry) matches Some(p) ==> {
            let d = p.descriptor;
            let prog_file = hdr.spec_file_offset(d.addr as int);
            &&& forall|c: u8|
                (#[trigger] lists_channel(d.fm_channels, c)) <==> (c < 10 && be_u16(
                    data,
                    prog_file + 2 * c,
                ) >= 0x4000)
            &&& forall|k: int|
                0 <= k < d.fm_channels.len() ==> (#[trigger] d.fm_channels[k]).1 == be_u16(
                    data,
                    prog_file + 2 * d.fm_channels[k].0,
                )
            &&& forall|c: u8|
                c < 8 ==> (d.fm_mask & (1u8 << c) != 0 <==> #[trigger] lists_channel(d.fm_channels, c))
        },
{
    let table_file = hdr.spec_file_offset(hdr.sound_program_table as int);
    let ptr = table_file + 2 * entry.param;
    if !(table_file < 0 || ptr + 2 > data.len()) {
        let prog_addr = be_u16(data, ptr);
        let prog_file = hdr.spec_file_offset(prog_addr as int);
        lemma_record_channels_mask(data, prog_file, 10);
    }
}

/// The shape every extracted program has.
pub open spec fn program_shape(p: ProgramModel, max_cmd_index: u8) -> bool {
    &&& p.handler_id == 0x01 || p.handler_id == 0x04
    &&& p.command <= max_cmd_index
    &&& p.sequences.len() == p.descriptor.fm_channels.len() + if p.descriptor.cvsd_seq_addr is Some {
        1int
    } else {
        0int
    }
    &&& p.handler_id == 0x01 ==> p.descriptor.cvsd_type == 0 && p.descriptor.fm_channels.len() <= 10
    &&& p.handler_id == 0x04 ==> p.descriptor.fm_channels.len() <= 8
    &&& forall|k: int|
        0 <= k < p.descriptor.fm_channels.len() ==> (#[trigger] p.sequences[k]).start_addr
            == p.descriptor.fm_channels[k].1
}

proof fn lemma_programs_upto_shape(data: Seq<u8>, hdr: RomHeader, dispatch: Seq<CommandDispatchEntry>, n: nat)
    requires
        n <= dispatch.len(),
        dispatch.len() <= hdr.max_cmd_index as int + 1,
    ensures
        forall|k: int|
            0 <= k < programs_upto(data, hdr, dispatch, n).len() ==> program_shape(
                #[trigger] programs_upto(data, hdr, dispatch, n)[k],
                hdr.max_cmd_index,
            ) && programs_upto(data, hdr, dispatch, n)[k].command < n,
        forall|k: int, l: int|
            0 <= k < l < programs_upto(data, hdr, dispatch, n).len() ==> (#[trigger] programs_upto(
                data,
                hdr,
                dispatch,
                n,
            )[k]).command < (#[trigger] programs_upto(data, hdr, dispatch, n)[l]).command,
    decreases n,
{
    if n > 0 {
        let m = (n - 1) as nat;
        lemma_programs_upto_shape(data, hdr, dispatch, m);
        let prev = programs_upto(data, hdr, dispatch, m);
        let all = programs_upto(data, hdr, dispatch, n);
        match program_for(data, hdr, m as int, dispatch[m as int]) {
            Some(p) => {
                assert(all == prev + seq![p]);
                assert(p.command == m);
                if dispatch[m as int].handler_id == 0x04 {
                    let table_file = hdr.spec_file_offset(hdr.voice_type_table as int);
                    let ptr = table_file + 2 * dispatch[m as int].param;
                    lemma_parsed_descriptor_shape(data, hdr, be_u16(data, ptr));
                } else {
                    let table_file = hdr.spec_file_offset(hdr.sound_program_table as int);
                    let ptr = table_file + 2 * dispatch[m as int].param;
                    let prog_file = hdr.spec_file_offset(be_u16(data, ptr) as int);
                    lemma_record_channels_shape(data, prog_file, 10);
                }
                assert(program_shape(p, hdr.max_cmd_index));
                assert forall|k: int| 0 <= k < all.len() implies program_shape(
                    #[trigger] all[k],
                    hdr.max_cmd_index,
                ) && all[k].command < n by {
                    if k < prev.len() {
                        assert(all[k] == prev[k]);
                    }
                }
                assert forall|k: int, l: int| 0 <= k < l < all.len() implies (
                #[trigger] all[k]).command < (#[trigger] all[l]).command by {
                    assert(all[k] == prev[k]);
                    if l < prev.len() {
                        assert(all[l] == prev[l]);
                    }
                }
            },
            None => {
                assert(all =~= prev);
            },
        }
    }
}

proof fn lemma_programs_upto_origin(data: Seq<u8>, hdr: RomHeader, dispatch: Seq<CommandDispatchEntry>, n: nat)
    requires
        n <= dispatch.len(),
        dispatch.len() <= 256,
    ensures
        programs_upto(data, hdr, dispatch, n).len() <= n,
        forall|k: int|
            0 <= k < programs_upto(data, hdr, dispatch, n).len() ==> (#[trigger] programs_upto(
                data,
                hdr,
                dispatch,
                n,
            )[k]).command < n && program_for(
                data,
                hdr,
                programs_upto(data, hdr, dispatch, n)[k].command as int,
                dispatch[programs_upto(data, hdr, dispatch, n)[k].command as int],
            ) == Some(programs_upto(data, hdr, dispatch, n)[k]),
    decreases n,
{
    if n > 0 {
        let m = (n - 1) as nat;
        lemma_programs_upto_origin(data, hdr, dispatch, m);
        let prev = programs_upto(data, hdr, dispatch, m);
        let all = programs_upto(data, hdr, dispatch, n);
        match program_for(data, hdr, m as int, dispatch[m as int]) {
            Some(p) => {
                assert(all == prev + seq![p]);
                assert(p.command == m);
                assert forall|k: int| 0 <= k < all.len() implies (#[trigger] all[k]).command < n
                    && program_for(data, hdr, all[k].command as int, dispatch[all[k].command as int])
                    == Some(all[k]) by {
                    if k < prev.len() {
                        assert(all[k] == prev[k]);
                    }
                }
            },
            None => {
                assert(all =~= prev);
            },
        }
    }
}

/// Extraction yields at most `max_cmd_index + 1` programs; each is the
/// program of its command's dispatch entry, with that entry's handler and
/// parameter: for handler 0x04 the descriptor and decodes at its
/// voice-type table pointer, for handler 0x01 the descriptor built from its
/// ten-channel sound-program record and the decodes of those channels.
pub proof fn lemma_extracted_programs_origin(data: Seq<u8>)
    ensures
        extracted_programs(data) matches Ok(ps) ==> {
            let hdr = header_of(data);
            let dispatch = dispatch_table(data, hdr);
            &&& ps.len() <= hdr.max_cmd_index as int + 1
            &&& forall|k: int|
                0 <= k < ps.len() ==> {
                    let p = #[trigger] ps[k];
                    let entry = dispatch[p.command as int];
                    &&& p.command < dispatch.len()
                    &&& p.handler_id == entry.handler_id
                    &&& p.voice_type_index == entry.param
                    &&& program_for(data, hdr, p.command as int, entry) == Some(p)
                    &&& p.handler_id == 0x04 ==> voice_type_program(data, hdr, p.command as int, entry)
                        == Some(p)
                    &&& p.handler_id == 0x01 ==> sound_table_program(data, hdr, p.command as int, entry)
                        == Some(p)
                }
        },
{
    if data.len() >= 0x20000 {
        let hdr = header_of(data);
        let dispatch = dispatch_table(data, hdr);
        lemma_dispatch_table_len(data, hdr);
        lemma_programs_upto_origin(data, hdr, dispatch, dispatch.len());
        let ps = programs_upto(data, hdr, dispatch, dispatch.len());
        assert forall|k: int| 0 <= k < ps.len() implies {
            let p = #[trigger] ps[k];
            let entry = dispatch[p.command as int];
            &&& p.handler_id == entry.handler_id
            &&& p.voice_type_index == entry.param
        } by {
            let p = ps[k];
            let entry = dispatch[p.command as int];
            assert(program_for(data, hdr, p.command as int, entry) == Some(p));
        }
    }
}

proof fn lemma_programs_upto_complete(
    data: Seq<u8>,
    hdr: RomHeader,
    dispatch: Seq<CommandDispatchEntry>,
    n: nat,
    c: int,
)
    requires
        0 <= c < n <= dispatch.len(),
    ensures
        program_for(data, hdr, c, dispatch[c]) matches Some(p) ==> programs_upto(
            data,
            hdr,
            dispatch,
            n,
        ).contains(p),
    decreases n,
{
    let m = (n - 1) as nat;
    let prev = programs_upto(data, hdr, dispatch, m);
    let all = programs_upto(data, hdr, dispatch, n);
    if c == m {
        if let Some(p) = program_for(data, hdr, c, dispatch[c]) {
            assert(all == prev + seq![p]);
            assert(all[prev.len() as int] == p);
        }
    } else {
        lemma_programs_upto_complete(data, hdr, dispatch, m, c);
        if let Some(p) = program_for(data, hdr, c, dispatch[c]) {
            let k = choose|k: int| 0 <= k < prev.len() && prev[k] == p;
            match program_for(data, hdr, m as int, dispatch[m as int]) {
                Some(q) => {
                    assert(all == prev + seq![q]);
                },
                None => {
                    assert(all =~= prev);
                },
            }
            assert(all[k] == p);
        }
    }
}

/// Every sound command from 0 to the maximum command index has a section of
/// its own in the report of an image: where its dispatch entry yields a
/// program, that program is among the extracted ones and the section is its
/// block; where the entry yields none, the section names the command's
/// handler type and parameter; where the entry lies past the end of the
/// image, the section says so.
pub proof fn lemma_report_covers_every_command(data: Seq<u8>, c: int)
    requires
        0 <= c <= header_of(data).max_cmd_index,
    ensures
        extracted_programs(data) matches Ok(ps) ==> {
            let hdr = header_of(data);
            let dispatch = dispatch_table(data, hdr);
            &&& c < dispatch.len() ==> match program_for(data, hdr, c, dispatch[c]) {
                Some(p) => ps.contains(p) && command_section(ps, dispatch, c) == program_text(p),
                None => command_section(ps, dispatch, c) == undecoded_section(c, dispatch[c]),
            }
            &&& dispatch.len() <= c ==> command_section(ps, dispatch, c) == unreadable_section(c)
        },
{
    if data.len() >= 0x20000 {
        let hdr = header_of(data);
        let dispatch = dispatch_table(data, hdr);
        lemma_dispatch_table_len(data, hdr);
        lemma_extracted_programs_origin(data);
        let ps = programs_upto(data, hdr, dispatch, dispatch.len());
        assert(extracted_programs(data) == Ok::<Seq<ProgramModel>, WpcError>(ps));
        lemma_find_program_from(ps, c, 0);
        match find_program_from(ps, c, 0) {
            Some(k) => {
                let p = ps[k];
                assert(program_for(data, hdr, p.command as int, dispatch[p.command as int]) == Some(
                    p,
                ));
                assert(ps.contains(p)) by {
                    assert(ps[k] == p);
                }
            },
            None => {
                if c < dispatch.len() {
                    lemma_programs_upto_complete(data, hdr, dispatch, dispatch.len(), c);
                    if let Some(p) = program_for(data, hdr, c, dispatch[c]) {
                        let k = choose|k: int| 0 <= k < ps.len() && ps[k] == p;
                        assert(program_for(data, hdr, ps[k].command as int, dispatch[ps[k].command as int])
                            == Some(ps[k]));
                        assert(ps[k].command == c);
                    }
                }
            },
        }
    }
}

/// Every extracted program comes from a handler 0x01 or 0x04 command no
/// greater than the maximum command index, carries one decoded sequence per
/// channel pointer (FM channels in order, then the CVSD sequence), and the
/// programs come in strictly increasing command order.
pub proof fn lemma_extracted_programs_shape(data: Seq<u8>)
    ensures
        extracted_programs(data) matches Ok(ps) ==> {
            &&& forall|k: int|
                0 <= k < ps.len() ==> program_shape(#[trigger] ps[k], header_of(data).max_cmd_index)
            &&& forall|k: int, l: int|
                0 <= k < l < ps.len() ==> (#[trigger] ps[k]).command < (#[trigger] ps[l]).command
        },
{
    if data.len() >= 0x20000 {
        let hdr = header_of(data);
        let dispatch = dispatch_table(data, hdr);
        lemma_dispatch_table_len(data, hdr);
        lemma_programs_upto_shape(data, hdr, dispatch, dispatch.len());
    }
}

} // verus!
