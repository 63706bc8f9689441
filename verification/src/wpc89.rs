// SPDX-License-Identifier: BSD-3-Clause
//! WPC-89 sound ROM layout: header pointers, address translation, the CVSD
//! sample table and decoding of CVSD sample data.

use vstd::prelude::*;

use crate::cvsd_chip::{bit_step, ChipState, CvsdChip};
use crate::error::WpcError;

verus! {

// ---------------------------------------------------------------------------
// ROM header table-pointer offsets
// ---------------------------------------------------------------------------
//
// The firmware stores a block of 16-bit big-endian pointers at the base of
// the default banked ROM page (6809 address 0x4000+).  These offsets are
// relative to the file position of the system bank.

/// Pointer to FM patch / instrument table (26 bytes per patch).
pub const ROM_HDR_FM_PATCH_TABLE: usize = 0x01;
/// Pointer to DAC (raw PCM) sample table.
pub const ROM_HDR_DAC_SAMPLE_TABLE: usize = 0x03;
/// Pointer to FM program-change table.
pub const ROM_HDR_FM_PROGRAM_TABLE: usize = 0x05;
/// Pointer to voice-type table (command → FM channel bitmask + CVSD flag).
pub const ROM_HDR_VOICE_TYPE_TABLE: usize = 0x07;
/// Maximum valid sound-command index (1 byte, NOT a pointer).
pub const ROM_HDR_MAX_CMD_INDEX: usize = 0x0E;
/// Pointer to command dispatch table (command → handler_id + param, 2 bytes each).
pub const ROM_HDR_CMD_DISPATCH_TABLE: usize = 0x0F;
/// Pointer to sound-program table (command → sequence-data pointers).
pub const ROM_HDR_SOUND_PROGRAM_TABLE: usize = 0x11;
/// Pointer to CVSD compressed-sample table.
pub const ROM_HDR_CVSD_SAMPLE_TABLE: usize = 0x15;

// ---------------------------------------------------------------------------
// Bank selector constants
// ---------------------------------------------------------------------------
//
// The bank register uses active-low chip-enable signals in bits [7:5] to
// select one of three ROM sockets, plus a 5-bit page number in bits [4:0]:
//
//   bits [7:5] = 011  →  U18      bits [7:5] = 101  →  U15
//   bits [7:5] = 110  →  U14

/// Chip-enable mask: the top three bits of the bank selector.
const CHIP_ENABLE_MASK: u8 = 0xE0;
/// Bank-number mask: the lower five bits of the bank selector.
const BANK_NUMBER_MASK: u8 = 0x1F;

/// Default / system bank selector for U18 (U18 chip-enable + page 0x1C).
pub const SYSTEM_BANK: u8 = 0x7C;

/// Size of the U18 system bank region at the end of the image.
pub const SYSTEM_BANK_LEN: usize = 0x20000;

/// The three ROM chips on the WPC-89 sound board.
#[derive(Debug, Clone, Copy, PartialEq, Eq, Structural)]
pub enum RomChip {
    U14,
    U15,
    U18,
}

/// A single decoded CVSD audio entry from the ROM table.
///
/// Each entry in the CVSD sample table is a 5-byte record: the bank selector,
/// then the big-endian start and (exclusive) end addresses of the data.
pub struct CvsdEntry {
    /// Which ROM chip the audio data lives in.
    pub chip: RomChip,
    /// ROM bank number (bits [4:0] of the bank selector byte).
    pub bank: u8,
    /// Byte offset of the CVSD data in the ROM file.
    pub offset: usize,
    /// Number of bytes of CVSD data.
    pub size: usize,
    /// Sequential index of this entry in the table.
    pub index: usize,
}

#[verifier::external_type_specification]
#[verifier::external_body]
pub struct ExPathBuf(std::path::PathBuf);

/// Paths to the three sound ROM files.
pub struct RomSet {
    pub u14: std::path::PathBuf,
    pub u15: std::path::PathBuf,
    pub u18: std::path::PathBuf,
}

impl RomSet {
    /// Collect the paths of the three ROM images.
    pub fn new(u14: std::path::PathBuf, u15: std::path::PathBuf, u18: std::path::PathBuf) -> (set:
        Self)
        ensures
            set.u14 == u14,
            set.u15 == u15,
            set.u18 == u18,
    {
        RomSet { u14, u15, u18 }
    }
}

// ---------------------------------------------------------------------------
// Bytes and bank selectors
// ---------------------------------------------------------------------------

/// The big-endian 16-bit value stored at `pos` and `pos + 1`.
pub open spec fn be_u16(data: Seq<u8>, pos: int) -> u16 {
    (data[pos] as int * 256 + data[pos + 1] as int) as u16
}

/// Read a big-endian u16 from `data` at byte position `pos`.
pub fn read_be_u16(data: &[u8], pos: usize) -> (v: u16)
    requires
        pos + 1 < data@.len(),
    ensures
        v == be_u16(data@, pos as int),
{
    (data[pos] as u16) * 256 + (data[pos + 1] as u16)
}

/// The chip and page a bank selector byte enables: bits [7:5] are
/// active-low chip enables, bits [4:0] the page.
pub open spec fn bank_selector_target(bank_selector: u8) -> Option<(RomChip, u8)> {
    let enables = bank_selector & 0xE0;
    let bank = bank_selector & 0x1F;
    if enables == 0xC0 {
        Some((RomChip::U14, bank))
    } else if enables == 0xA0 {
        Some((RomChip::U15, bank))
    } else if enables == 0x60 {
        Some((RomChip::U18, bank))
    } else {
        None
    }
}

/// A bank selector names a chip exactly when its top three bits are 110
/// (U14), 101 (U15) or 011 (U18), and the page is its low five bits.
pub proof fn lemma_bank_selector_target(bank_selector: u8)
    ensures
        bank_selector_target(bank_selector) is Some <==> (bank_selector & 0xE0 == 0xC0 || bank_selector
            & 0xE0 == 0xA0 || bank_selector & 0xE0 == 0x60),
        bank_selector_target(bank_selector) matches Some((chip, bank)) ==> {
            &&& bank == bank_selector & 0x1F
            &&& bank < 32
            &&& (chip == RomChip::U14 <==> bank_selector & 0xE0 == 0xC0)
            &&& (chip == RomChip::U15 <==> bank_selector & 0xE0 == 0xA0)
            &&& (chip == RomChip::U18 <==> bank_selector & 0xE0 == 0x60)
        },
{
    assert(bank_selector & 0x1F < 32) by (bit_vector);
}

/// Decode the bank selector byte into a chip identifier and bank number.
fn decode_bank_selector(bank_selector: u8) -> (r: Option<(RomChip, u8)>)
    ensures
        r == bank_selector_target(bank_selector),
{
    let chip = match bank_selector & CHIP_ENABLE_MASK {
        0xC0 => RomChip::U14,
        0xA0 => RomChip::U15,
        0x60 => RomChip::U18,
        _ => return None,
    };
    let bank = bank_selector & BANK_NUMBER_MASK;
    Some((chip, bank))
}

/// Human-readable name of a ROM chip.
pub open spec fn chip_label(chip: RomChip) -> Seq<char> {
    match chip {
        RomChip::U14 => "u14"@,
        RomChip::U15 => "u15"@,
        RomChip::U18 => "u18"@,
    }
}

/// Produce a human-readable chip name for a [`RomChip`].
pub fn chip_name(chip: RomChip) -> (name: &'static str)
    ensures
        name@ == chip_label(chip),
{
    match chip {
        RomChip::U14 => "u14",
        RomChip::U15 => "u15",
        RomChip::U18 => "u18",
    }
}

// ---------------------------------------------------------------------------
// RomHeader — parsed firmware table pointers
// ---------------------------------------------------------------------------

/// Parsed header pointers from the WPC-89 sound ROM.
///
/// All pointer fields are raw 6809 addresses.  They can be converted to
/// file offsets with [`RomHeader::to_file_offset`].
#[derive(Debug, Clone, Copy)]
pub struct RomHeader {
    /// File offset of the system bank (U18 page 0x1C).
    pub system_bank_file: usize,
    /// 6809 address of the FM patch table.
    pub fm_patch_table: u16,
    /// 6809 address of the DAC sample table.
    pub dac_sample_table: u16,
    /// 6809 address of the FM program-change table.
    pub fm_program_table: u16,
    /// 6809 address of the voice-type table.
    pub voice_type_table: u16,
    /// Maximum valid sound-command index.
    pub max_cmd_index: u8,
    /// 6809 address of the command dispatch table.
    pub cmd_dispatch_table: u16,
    /// 6809 address of the sound-program table.
    pub sound_program_table: u16,
    /// 6809 address of the CVSD sample table.
    pub cvsd_sample_table: u16,
}

/// The header of a U18 image of at least 0x20000 bytes: the system bank is
/// its last 0x20000 bytes and the pointers sit at the `ROM_HDR_*` offsets.
pub open spec fn header_of(data: Seq<u8>) -> RomHeader {
    let sbf = data.len() - 0x20000;
    RomHeader {
        system_bank_file: sbf as usize,
        fm_patch_table: be_u16(data, sbf + 0x01),
        dac_sample_table: be_u16(data, sbf + 0x03),
        fm_program_table: be_u16(data, sbf + 0x05),
        voice_type_table: be_u16(data, sbf + 0x07),
        max_cmd_index: data[sbf + 0x0E],
        cmd_dispatch_table: be_u16(data, sbf + 0x0F),
        sound_program_table: be_u16(data, sbf + 0x11),
        cvsd_sample_table: be_u16(data, sbf + 0x15),
    }
}

impl RomHeader {
    /// The image length implied by the system bank position fits in usize.
    pub open spec fn wf(self) -> bool {
        self.system_bank_file + 0x20000 <= usize::MAX
    }

    /// Total ROM size implied by the system bank position.
    pub open spec fn spec_rom_len(self) -> int {
        self.system_bank_file + 0x20000
    }

    /// File position of a 6809 address: 0xC000–0xFFFF is the fixed last
    /// 16 KB of the image, lower addresses are the banked window mapped to
    /// the system bank.  Negative where an address below the window would
    /// fall before the start of the image.
    pub open spec fn spec_file_offset(self, addr: int) -> int {
        if addr >= 0xC000 {
            self.spec_rom_len() - 0x4000 + (addr - 0xC000)
        } else {
            addr - 0x4000 + self.system_bank_file
        }
    }

    /// Parse a [`RomHeader`] from raw U18 ROM data.
    pub fn from_u18(u18_data: &[u8]) -> (r: Result<Self, WpcError>)
        ensures
            match r {
                Ok(h) => u18_data@.len() >= 0x20000 && h == header_of(u18_data@) && h.wf(),
                Err(e) => u18_data@.len() < 0x20000 && e == WpcError::RomTooSmall,
            },
    {
        let sbf = match system_bank_offset(u18_data.len()) {
            Some(s) => s,
            None => return Err(WpcError::RomTooSmall),
        };
        Ok(Self {
            system_bank_file: sbf,
            fm_patch_table: read_be_u16(u18_data, sbf + ROM_HDR_FM_PATCH_TABLE),
            dac_sample_table: read_be_u16(u18_data, sbf + ROM_HDR_DAC_SAMPLE_TABLE),
            fm_program_table: read_be_u16(u18_data, sbf + ROM_HDR_FM_PROGRAM_TABLE),
            voice_type_table: read_be_u16(u18_data, sbf + ROM_HDR_VOICE_TYPE_TABLE),
            max_cmd_index: u18_data[sbf + ROM_HDR_MAX_CMD_INDEX],
            cmd_dispatch_table: read_be_u16(u18_data, sbf + ROM_HDR_CMD_DISPATCH_TABLE),
            sound_program_table: read_be_u16(u18_data, sbf + ROM_HDR_SOUND_PROGRAM_TABLE),
            cvsd_sample_table: read_be_u16(u18_data, sbf + ROM_HDR_CVSD_SAMPLE_TABLE),
        })
    }

    /// Convert a 6809 ROM address (0x4000 or above) to a U18 file offset.
    pub fn to_file_offset(&self, addr: u16) -> (off: usize)
        requires
            self.wf(),
            addr >= 0x4000,
        ensures
            off == self.spec_file_offset(addr as int),
    {
        if addr >= 0xC000 {
            // Fixed bank: last 16 KB of ROM, always accessible.
            let rom_len = self.system_bank_file + 0x20000;
            rom_len - 0x4000 + (addr as usize - 0xC000)
        } else {
            // Banked window: 0x4000–0xBFFF mapped to system bank.
            (addr as usize) - 0x4000 + self.system_bank_file
        }
    }

    /// The file position of any 16-bit address, or `None` where it would
    /// fall before the start of the image.
    pub fn checked_file_offset(&self, addr: u16) -> (off: Option<usize>)
        requires
            self.wf(),
        ensures
            match off {
                Some(o) => o == self.spec_file_offset(addr as int),
                None => self.spec_file_offset(addr as int) < 0,
            },
    {
        if addr >= 0x4000 {
            Some(self.to_file_offset(addr))
        } else if self.system_bank_file >= 0x4000 - addr as usize {
            Some(self.system_bank_file - (0x4000 - addr as usize))
        } else {
            None
        }
    }

    /// Total ROM size in bytes.
    pub fn rom_len(&self) -> (len: usize)
        requires
            self.wf(),
        ensures
            len == self.spec_rom_len(),
    {
        self.system_bank_file + 0x20000
    }
}

/// Every 16-bit address of a header parsed from an image maps below the end
/// of that image, the fixed bank 0xC000–0xFFFF onto its last 16 KB and the
/// banked window 0x4000–0xBFFF onto the first 32 KB of the system bank.
pub proof fn lemma_file_offsets_within_image(data: Seq<u8>, addr: u16)
    requires
        data.len() >= 0x20000,
        data.len() <= usize::MAX,
    ensures
        header_of(data).wf(),
        header_of(data).spec_rom_len() == data.len(),
        header_of(data).spec_file_offset(addr as int) < data.len(),
        addr >= 0xC000 ==> data.len() - 0x4000 <= header_of(data).spec_file_offset(addr as int),
        0x4000 <= addr < 0xC000 ==> header_of(data).system_bank_file
            <= header_of(data).spec_file_offset(addr as int) < header_of(data).system_bank_file
            + 0x8000,
{
}

/// Read a 16-bit big-endian pointer from a ROM header table.
///
/// `header_offset` is one of the `ROM_HDR_*` constants.
pub fn read_rom_header_ptr(u18_data: &[u8], system_bank_file: usize, header_offset: usize) -> (ptr:
    u16)
    requires
        system_bank_file + header_offset + 1 < u18_data@.len(),
    ensures
        ptr == be_u16(u18_data@, system_bank_file + header_offset),
{
    proof {
        assert(u18_data.len() == u18_data@.len());
    }
    read_be_u16(u18_data, system_bank_file + header_offset)
}

/// The pointer fields of a parsed header are the header pointers of the
/// image read at the `ROM_HDR_*` offsets of its system bank.
pub proof fn lemma_header_fields_are_header_pointers(data: Seq<u8>)
    requires
        0x20000 <= data.len() <= usize::MAX,
    ensures
        ({
            let h = header_of(data);
            let sbf = h.system_bank_file as int;
            &&& sbf == data.len() - 0x20000
            &&& h.fm_patch_table == be_u16(data, sbf + ROM_HDR_FM_PATCH_TABLE)
            &&& h.dac_sample_table == be_u16(data, sbf + ROM_HDR_DAC_SAMPLE_TABLE)
            &&& h.fm_program_table == be_u16(data, sbf + ROM_HDR_FM_PROGRAM_TABLE)
            &&& h.voice_type_table == be_u16(data, sbf + ROM_HDR_VOICE_TYPE_TABLE)
            &&& h.max_cmd_index == data[sbf + ROM_HDR_MAX_CMD_INDEX]
            &&& h.cmd_dispatch_table == be_u16(data, sbf + ROM_HDR_CMD_DISPATCH_TABLE)
            &&& h.sound_program_table == be_u16(data, sbf + ROM_HDR_SOUND_PROGRAM_TABLE)
            &&& h.cvsd_sample_table == be_u16(data, sbf + ROM_HDR_CVSD_SAMPLE_TABLE)
            &&& h.fm_patch_table == be_u16(data, sbf + 0x01)
            &&& h.dac_sample_table == be_u16(data, sbf + 0x03)
            &&& h.fm_program_table == be_u16(data, sbf + 0x05)
            &&& h.voice_type_table == be_u16(data, sbf + 0x07)
            &&& h.max_cmd_index == data[sbf + 0x0E]
            &&& h.cmd_dispatch_table == be_u16(data, sbf + 0x0F)
            &&& h.sound_program_table == be_u16(data, sbf + 0x11)
            &&& h.cvsd_sample_table == be_u16(data, sbf + 0x15)
        }),
{
}

/// Compute the file offset of the system bank (U18 page 0x1C) within a U18 ROM.
///
/// The system bank always occupies the last 0x20000 bytes of the U18 image.
pub fn system_bank_offset(u18_size: usize) -> (off: Option<usize>)
    ensures
        match off {
            Some(o) => u18_size >= 0x20000 && o == u18_size - 0x20000,
            None => u18_size < 0x20000,
        },
{
    if u18_size >= SYSTEM_BANK_LEN {
        Some(u18_size - SYSTEM_BANK_LEN)
    } else {
        None
    }
}

// ---------------------------------------------------------------------------
// CVSD sample table
// ---------------------------------------------------------------------------

/// Size of the ROM image that holds `chip`, where it is known.
pub open spec fn rom_size_for(
    chip: RomChip,
    u14_size: Option<usize>,
    u15_size: Option<usize>,
    u18_len: int,
) -> Option<int> {
    match chip {
        RomChip::U14 => match u14_size {
            Some(s) => Some(s as int),
            None => None,
        },
        RomChip::U15 => match u15_size {
            Some(s) => Some(s as int),
            None => None,
        },
        RomChip::U18 => Some(u18_len),
    }
}

/// File offset of CVSD data in a chip of `rom_size` bytes: 32 KB pages are
/// numbered from the end of a 1 MB space, and addresses from 0x4000 on
/// index into the page.
pub open spec fn cvsd_data_offset(bank: u8, rom_size: int, data_start: int) -> int {
    bank * 0x8000 + rom_size - 0x100000 + data_start - 0x4000
}

/// Page 31 is the last 32 KB of a chip, and each lower page lies 32 KB
/// further from its end: CVSD data at address `data_start` of page `bank`
/// starts `(31 - bank)` pages before the last page, `data_start - 0x4000`
/// bytes into its page.
pub proof fn lemma_cvsd_data_offset_pages(bank: u8, rom_size: int, data_start: int)
    ensures
        cvsd_data_offset(bank, rom_size, data_start) == rom_size - 0x8000 - 0x8000 * (31 - bank)
            + (data_start - 0x4000),
        bank < 255 ==> cvsd_data_offset((bank + 1) as u8, rom_size, data_start)
            == cvsd_data_offset(bank, rom_size, data_start) + 0x8000,
{
}

/// Prefix every entry list of a successful result with `prefix`.
pub open spec fn prepend_entries(prefix: Seq<CvsdEntry>, r: Result<Seq<CvsdEntry>, WpcError>) -> Result<
    Seq<CvsdEntry>,
    WpcError,
> {
    match r {
        Ok(s) => Ok(prefix + s),
        Err(e) => Err(e),
    }
}

/// What one slot of the CVSD table holds.
pub enum CvsdSlot {
    /// The walk ends here.
    End,
    /// The record has a negative offset or no data.
    Skip,
    /// A usable record.
    Entry(CvsdEntry),
    /// The record lives in a ROM whose size is unknown.
    Failed(WpcError),
}

/// Slot `counter` of the CVSD table at file position `table`.  The walk
/// ends at the end of the image, at a pointer below the banked window, at a
/// record past the end of the image and at an unknown chip enable.
pub open spec fn cvsd_slot(
    data: Seq<u8>,
    u14_size: Option<usize>,
    u15_size: Option<usize>,
    table: int,
    counter: int,
) -> CvsdSlot {
    let hdr = header_of(data);
    let pos = table + 2 * counter;
    if pos + 2 > data.len() || pos < 0 || counter < 0 {
        CvsdSlot::End
    } else {
        let entry_ptr = be_u16(data, pos);
        if entry_ptr < 0x4000 {
            CvsdSlot::End
        } else {
            let entry_file = hdr.spec_file_offset(entry_ptr as int);
            if entry_file + 5 > data.len() {
                CvsdSlot::End
            } else {
                let data_start = be_u16(data, entry_file + 1) as int;
                let data_end = be_u16(data, entry_file + 3) as int;
                match bank_selector_target(data[entry_file]) {
                    None => CvsdSlot::End,
                    Some((chip, bank)) => match rom_size_for(
                        chip,
                        u14_size,
                        u15_size,
                        data.len() as int,
                    ) {
                        None => CvsdSlot::Failed(WpcError::RomUnavailable(chip)),
                        Some(rom_size) => {
                            let offset = cvsd_data_offset(bank, rom_size, data_start);
                            if offset < 0 || data_end <= data_start {
                                CvsdSlot::Skip
                            } else {
                                CvsdSlot::Entry(
                                    CvsdEntry {
                                        chip,
                                        bank,
                                        offset: offset as usize,
                                        size: (data_end - data_start) as usize,
                                        index: counter as usize,
                                    },
                                )
                            }
                        },
                    },
                }
            }
        }
    }
}

/// The entries of the CVSD table at file position `table`, from slot
/// `counter` on: skipped slots contribute nothing, the first failing slot
/// makes the whole walk fail.
pub open spec fn cvsd_entries_from(
    data: Seq<u8>,
    u14_size: Option<usize>,
    u15_size: Option<usize>,
    table: int,
    counter: int,
) -> Result<Seq<CvsdEntry>, WpcError>
    decreases data.len() - table - 2 * counter,
{
    if table + 2 * counter + 2 > data.len() || table + 2 * counter < 0 || counter < 0 {
        Ok(Seq::empty())
    } else {
        match cvsd_slot(data, u14_size, u15_size, table, counter) {
            CvsdSlot::End => Ok(Seq::empty()),
            CvsdSlot::Failed(e) => Err(e),
            CvsdSlot::Skip => cvsd_entries_from(data, u14_size, u15_size, table, counter + 1),
            CvsdSlot::Entry(entry) => prepend_entries(
                seq![entry],
                cvsd_entries_from(data, u14_size, u15_size, table, counter + 1),
            ),
        }
    }
}

proof fn lemma_entries_from_ordered(
    data: Seq<u8>,
    u14_size: Option<usize>,
    u15_size: Option<usize>,
    table: int,
    counter: int,
)
    requires
        data.len() <= usize::MAX,
        counter >= 0,
        table >= 0,
    ensures
        cvsd_entries_from(data, u14_size, u15_size, table, counter) matches Ok(s) ==> {
            &&& forall|k: int| 0 <= k < s.len() ==> (#[trigger] s[k]).size > 0
            &&& forall|k: int| 0 <= k < s.len() ==> (#[trigger] s[k]).index >= counter
            &&& forall|k: int, l: int| 0 <= k < l < s.len() ==> (#[trigger] s[k]).index < (
            #[trigger] s[l]).index
            &&& forall|k: int|
                0 <= k < s.len() ==> cvsd_slot(data, u14_size, u15_size, table, (#[trigger] s[k]).index as int)
                    == CvsdSlot::Entry(s[k])
        },
    decreases data.len() - table - 2 * counter,
{
    if table + 2 * counter + 2 > data.len() || table + 2 * counter < 0 {
    } else {
        lemma_entries_from_ordered(data, u14_size, u15_size, table, counter + 1);
        match cvsd_slot(data, u14_size, u15_size, table, counter) {
            CvsdSlot::Entry(entry) => {
                let rest = cvsd_entries_from(data, u14_size, u15_size, table, counter + 1);
                if let Ok(r) = rest {
                    let s = seq![entry] + r;
                    assert(entry.index == counter);
                    assert forall|k: int, l: int| 0 <= k < l < s.len() implies (#[trigger] s[k]).index
                        < (#[trigger] s[l]).index by {
                        if k == 0 {
                            assert(s[l] == r[l - 1]);
                        } else {
                            assert(s[k] == r[k - 1]);
                            assert(s[l] == r[l - 1]);
                        }
                    }
                    assert forall|k: int| 0 <= k < s.len() implies (#[trigger] s[k]).size > 0
                        && s[k].index >= counter && cvsd_slot(data, u14_size, u15_size, table, s[k].index as int)
                        == CvsdSlot::Entry(s[k]) by {
                        if k > 0 {
                            assert(s[k] == r[k - 1]);
                        }
                    }
                }
            },
            _ => {},
        }
    }
}

/// A successful walk of the CVSD table yields at least one entry, every
/// entry holds data, the entries come in increasing table order, and each
/// entry is what the table slot of its index holds: the record its pointer
/// names, with chip and page from the bank selector, the size from the
/// start and end addresses and the offset from page, ROM size and start.
pub proof fn lemma_cvsd_table_entries(data: Seq<u8>, u14_size: Option<usize>, u15_size: Option<usize>)
    requires
        data.len() <= usize::MAX,
    ensures
        cvsd_table(data, u14_size, u15_size) matches Ok(s) ==> {
            &&& s.len() > 0
            &&& forall|k: int| 0 <= k < s.len() ==> (#[trigger] s[k]).size > 0
            &&& forall|k: int, l: int| 0 <= k < l < s.len() ==> (#[trigger] s[k]).index < (
            #[trigger] s[l]).index
            &&& forall|k: int|
                0 <= k < s.len() ==> cvsd_slot(
                    data,
                    u14_size,
                    u15_size,
                    header_of(data).spec_file_offset(header_of(data).cvsd_sample_table as int),
                    (#[trigger] s[k]).index as int,
                ) == CvsdSlot::Entry(s[k])
        },
{
    if data.len() >= 0x20000 {
        let hdr = header_of(data);
        let table = hdr.spec_file_offset(hdr.cvsd_sample_table as int);
        if table >= 0 {
            lemma_entries_from_ordered(data, u14_size, u15_size, table, 0);
        }
    }
}

proof fn lemma_entries_before_sentinel(
    data: Seq<u8>,
    u14_size: Option<usize>,
    u15_size: Option<usize>,
    table: int,
    counter: int,
    z: int,
)
    requires
        0 <= counter <= z,
        0 <= table,
        table + 2 * z + 2 <= data.len(),
        be_u16(data, table + 2 * z) < 0x4000,
    ensures
        cvsd_entries_from(data, u14_size, u15_size, table, counter) matches Ok(s) ==> forall|k: int|
            0 <= k < s.len() ==> (#[trigger] s[k]).index < z,
    decreases z - counter,
{
    if counter < z {
        lemma_entries_before_sentinel(data, u14_size, u15_size, table, counter + 1, z);
        let rest = cvsd_entries_from(data, u14_size, u15_size, table, counter + 1);
        match cvsd_slot(data, u14_size, u15_size, table, counter) {
            CvsdSlot::Entry(entry) => {
                if let Ok(r) = rest {
                    let s = seq![entry] + r;
                    assert forall|k: int| 0 <= k < s.len() implies (#[trigger] s[k]).index < z by {
                        if k > 0 {
                            assert(s[k] == r[k - 1]);
                        }
                    }
                }
            },
            _ => {},
        }
    }
}

/// The walk of the CVSD table ends at the first slot whose pointer lies
/// below the banked window (0x4000): every entry it yields has an index
/// smaller than that of any slot holding such a pointer.
pub proof fn lemma_cvsd_walk_ends_at_sentinel(
    data: Seq<u8>,
    u14_size: Option<usize>,
    u15_size: Option<usize>,
    z: int,
)
    requires
        0 <= z,
        0 <= header_of(data).spec_file_offset(header_of(data).cvsd_sample_table as int),
        header_of(data).spec_file_offset(header_of(data).cvsd_sample_table as int) + 2 * z + 2
            <= data.len(),
        be_u16(
            data,
            header_of(data).spec_file_offset(header_of(data).cvsd_sample_table as int) + 2 * z,
        ) < 0x4000,
    ensures
        cvsd_table(data, u14_size, u15_size) matches Ok(s) ==> forall|k: int|
            0 <= k < s.len() ==> (#[trigger] s[k]).index < z,
{
    let table = header_of(data).spec_file_offset(header_of(data).cvsd_sample_table as int);
    lemma_entries_before_sentinel(data, u14_size, u15_size, table, 0, z);
}

/// The CVSD sample table of a U18 image, given the sizes of the U14 and U15
/// images where they are known.
pub open spec fn cvsd_table(data: Seq<u8>, u14_size: Option<usize>, u15_size: Option<usize>) -> Result<
    Seq<CvsdEntry>,
    WpcError,
> {
    if data.len() < 0x20000 {
        Err(WpcError::RomTooSmall)
    } else {
        let hdr = header_of(data);
        let table = hdr.spec_file_offset(hdr.cvsd_sample_table as int);
        if table < 0 {
            Err(WpcError::NoCvsdEntries)
        } else {
            match cvsd_entries_from(data, u14_size, u15_size, table, 0) {
                Err(e) => Err(e),
                Ok(s) => if s.len() == 0 {
                    Err(WpcError::NoCvsdEntries)
                } else {
                    Ok(s)
                },
            }
        }
    }
}

/// The largest ROM size for which the offset arithmetic of the table walk
/// cannot overflow.
pub open spec fn rom_size_in_range(size: int) -> bool {
    size <= i64::MAX - 0x200000
}

/// Parse the CVSD entry table from the U18 ROM and return all entries.
///
/// The CVSD sample table pointer lives at offset
/// [`ROM_HDR_CVSD_SAMPLE_TABLE`] of the default bank page.  It points to a
/// list of 16-bit pointers, each referencing a 5-byte sample descriptor.
/// For offline extraction we iterate until we hit an invalid entry.
///
/// `u14_size` and `u15_size` are the sizes of the other two images, `None`
/// where they could not be determined.
pub fn parse_cvsd_table(u18_data: &[u8], u14_size: Option<usize>, u15_size: Option<usize>) -> (r:
    Result<Vec<CvsdEntry>, WpcError>)
    requires
        rom_size_in_range(u18_data@.len() as int),
        u14_size matches Some(s) ==> rom_size_in_range(s as int),
        u15_size matches Some(s) ==> rom_size_in_range(s as int),
    ensures
        match r {
            Ok(entries) => cvsd_table(u18_data@, u14_size, u15_size) == Ok::<Seq<CvsdEntry>, WpcError>(entries@),
            Err(e) => cvsd_table(u18_data@, u14_size, u15_size) == Err::<Seq<CvsdEntry>, WpcError>(e),
        },
        r matches Ok(entries) ==> {
            &&& entries@.len() > 0
            &&& forall|k: int| 0 <= k < entries@.len() ==> (#[trigger] entries@[k]).size > 0
            &&& forall|k: int, l: int|
                0 <= k < l < entries@.len() ==> (#[trigger] entries@[k]).index < (
                #[trigger] entries@[l]).index
        },
{
    let ghost data = u18_data@;
    let len = u18_data.len();
    let hdr = RomHeader::from_u18(u18_data)?;
    let table = match hdr.checked_file_offset(hdr.cvsd_sample_table) {
        Some(t) => t,
        None => return Err(WpcError::NoCvsdEntries),
    };
    proof {
        lemma_file_offsets_within_image(data, hdr.cvsd_sample_table);
    }

    let mut entries: Vec<CvsdEntry> = Vec::new();
    let mut counter: usize = 0;

    loop
        invariant
            len == data.len(),
            data == u18_data@,
            hdr == header_of(data),
            hdr.wf(),
            data.len() >= 0x20000,
            rom_size_in_range(data.len() as int),
            u14_size matches Some(s) ==> rom_size_in_range(s as int),
            u15_size matches Some(s) ==> rom_size_in_range(s as int),
            table as int == hdr.spec_file_offset(hdr.cvsd_sample_table as int),
            table + 2 * counter <= len,
            cvsd_entries_from(data, u14_size, u15_size, table as int, 0) == prepend_entries(
                entries@,
                cvsd_entries_from(data, u14_size, u15_size, table as int, counter as int),
            ),
        decreases len - table - 2 * counter,
    {
        if len - (table + counter * 2) < 2 {
            return finish_cvsd_table(entries, Ghost(data), u14_size, u15_size, Ghost(table as int));
        }
        match read_cvsd_slot(u18_data, &hdr, u14_size, u15_size, table, counter) {
            CvsdSlot::End => {
                return finish_cvsd_table(entries, Ghost(data), u14_size, u15_size, Ghost(table as int));
            },
            CvsdSlot::Failed(e) => {
                return Err(e);
            },
            CvsdSlot::Skip => {},
            CvsdSlot::Entry(entry) => {
                let ghost before = entries@;
                entries.push(entry);
                proof {
                    let rest = cvsd_entries_from(data, u14_size, u15_size, table as int, counter + 1);
                    match rest {
                        Ok(s) => {
                            assert(before + (seq![entries@.last()] + s) == entries@ + s);
                        },
                        Err(_) => {},
                    }
                }
            },
        }
        counter += 1;
    }
}

/// Read slot `counter` of the CVSD table at file position `table`.
fn read_cvsd_slot(
    u18_data: &[u8],
    hdr: &RomHeader,
    u14_size: Option<usize>,
    u15_size: Option<usize>,
    table: usize,
    counter: usize,
) -> (slot: CvsdSlot)
    requires
        *hdr == header_of(u18_data@),
        hdr.wf(),
        u18_data@.len() >= 0x20000,
        rom_size_in_range(u18_data@.len() as int),
        u14_size matches Some(s) ==> rom_size_in_range(s as int),
        u15_size matches Some(s) ==> rom_size_in_range(s as int),
        table + 2 * counter + 2 <= u18_data@.len(),
    ensures
        slot == cvsd_slot(u18_data@, u14_size, u15_size, table as int, counter as int),
{
    let ghost data = u18_data@;
    let len = u18_data.len();
    // Read the pointer to the current entry from the table.
    let entry_ptr_pos = table + counter * 2;
    let entry_ptr = read_be_u16(u18_data, entry_ptr_pos);
    if entry_ptr < 0x4000 {
        // Values below the banked window are end-of-table sentinels.
        return CvsdSlot::End;
    }
    let entry_file = hdr.to_file_offset(entry_ptr);
    proof {
        lemma_file_offsets_within_image(data, entry_ptr);
    }
    if len - entry_file < 5 {
        return CvsdSlot::End;
    }

    let bank_selector = u18_data[entry_file];
    let cvsd_data_start = read_be_u16(u18_data, entry_file + 1) as usize;
    let cvsd_data_end = read_be_u16(u18_data, entry_file + 3) as usize;

    let (chip, bank) = match decode_bank_selector(bank_selector) {
        Some(v) => v,
        None => return CvsdSlot::End,  // end of table sentinel
    };
    assert(bank_selector & 0x1F <= 31) by (bit_vector);

    let rom_size = match chip {
        RomChip::U14 => match u14_size {
            Some(s) => s,
            None => return CvsdSlot::Failed(WpcError::RomUnavailable(RomChip::U14)),
        },
        RomChip::U15 => match u15_size {
            Some(s) => s,
            None => return CvsdSlot::Failed(WpcError::RomUnavailable(RomChip::U15)),
        },
        RomChip::U18 => hdr.rom_len(),
    };

    // file_offset = bank * 0x8000 - (0x100000 - rom_size) + data_start - 0x4000
    // The intermediate result can be negative for small banks with small
    // ROMs, so the arithmetic is signed.
    let offset_i64 = (bank as i64) * 0x8000 + rom_size as i64 - 0x100000 + cvsd_data_start as i64
        - 0x4000;
    if offset_i64 < 0 {
        return CvsdSlot::Skip;
    }
    let offset = #[verifier::truncate] (offset_i64 as usize);
    let size = cvsd_data_end.saturating_sub(cvsd_data_start);
    if size == 0 {
        return CvsdSlot::Skip;
    }
    CvsdSlot::Entry(CvsdEntry { chip, bank, offset, size, index: counter })
}

/// The table walk has ended: an empty table is an error.
fn finish_cvsd_table(
    entries: Vec<CvsdEntry>,
    Ghost(data): Ghost<Seq<u8>>,
    u14_size: Option<usize>,
    u15_size: Option<usize>,
    Ghost(table): Ghost<int>,
) -> (r: Result<Vec<CvsdEntry>, WpcError>)
    requires
        0x20000 <= data.len() <= usize::MAX,
        table == header_of(data).spec_file_offset(header_of(data).cvsd_sample_table as int),
        table >= 0,
        cvsd_entries_from(data, u14_size, u15_size, table, 0) == Ok::<Seq<CvsdEntry>, WpcError>(
            entries@,
        ),
    ensures
        match r {
            Ok(v) => cvsd_table(data, u14_size, u15_size) == Ok::<Seq<CvsdEntry>, WpcError>(v@),
            Err(e) => cvsd_table(data, u14_size, u15_size) == Err::<Seq<CvsdEntry>, WpcError>(e),
        },
        r matches Ok(v) ==> {
            &&& v@.len() > 0
            &&& forall|k: int| 0 <= k < v@.len() ==> (#[trigger] v@[k]).size > 0
            &&& forall|k: int, l: int|
                0 <= k < l < v@.len() ==> (#[trigger] v@[k]).index < (#[trigger] v@[l]).index
        },
{
    proof {
        lemma_cvsd_table_entries(data, u14_size, u15_size);
    }
    if entries.len() == 0 {
        Err(WpcError::NoCvsdEntries)
    } else {
        Ok(entries)
    }
}

// ---------------------------------------------------------------------------
// CVSD decoding
// ---------------------------------------------------------------------------

/// The bit stream of CVSD data: least significant bit of each byte first.
pub open spec fn lsb_first_bits(bytes: Seq<u8>) -> Seq<bool> {
    Seq::new(bytes.len() * 8, |k: int| (bytes[k / 8] >> ((k % 8) as u8)) & 1u8 != 0)
}

/// Decoder state after feeding `bits` to a decoder fresh from power-on.
pub open spec fn chip_after(bits: Seq<bool>) -> ChipState
    decreases bits.len(),
{
    if bits.len() == 0 {
        ChipState::power_on()
    } else {
        bit_step(chip_after(bits.drop_last()), bits.last())
    }
}

/// The PCM samples of CVSD data: one per bit, each the sample the decoder
/// captures while processing that bit.
pub open spec fn decoded_samples(bytes: Seq<u8>) -> Seq<int> {
    let bits = lsb_first_bits(bytes);
    Seq::new(bits.len(), |k: int| chip_after(bits.take(k + 1)).last_sample)
}

/// Decoding is streaming: the samples of the first `m` bytes are the first
/// `8 * m` samples of the whole data.
pub proof fn lemma_decoding_is_streaming(bytes: Seq<u8>, m: int)
    requires
        0 <= m <= bytes.len(),
    ensures
        decoded_samples(bytes.take(m)) == decoded_samples(bytes).take(8 * m),
{
    let bits = lsb_first_bits(bytes);
    let bits_m = lsb_first_bits(bytes.take(m));
    assert forall|k: int| 0 <= k < 8 * m implies bits_m[k] == bits[k] by {
        lemma_div_mod8(k);
    }
    assert(bits_m =~= bits.take(8 * m));
    assert forall|k: int| 0 <= k < 8 * m implies #[trigger] bits_m.take(k + 1) == bits.take(k + 1) by {
        assert(bits_m.take(k + 1) =~= bits.take(k + 1));
    }
    assert(decoded_samples(bytes.take(m)) =~= decoded_samples(bytes).take(8 * m));
}

proof fn lemma_div_mod8(k: int)
    requires
        k >= 0,
    ensures
        k / 8 >= 0,
        0 <= k % 8 < 8,
        k == 8 * (k / 8) + k % 8,
{
}

proof fn lemma_bit_index(n: int, j: int)
    by (nonlinear_arith)
    requires
        n >= 0,
        0 <= j < 8,
    ensures
        (8 * n + j) / 8 == n,
        (8 * n + j) % 8 == j,
{
}

/// Decode a CVSD entry to a vector of signed 8-bit PCM samples.
///
/// The firmware outputs CVSD bits least significant bit first: bit 0 of the
/// current data byte, then bits 1 to 7, then the next byte.
///
/// `rom_data` is the image of the chip the entry lives in.
pub fn decode_entry(entry: &CvsdEntry, rom_data: &[u8]) -> (r: Result<Vec<i8>, WpcError>)
    requires
        entry.offset + entry.size <= usize::MAX,
        entry.offset + entry.size <= rom_data@.len() ==> entry.size * 8 <= usize::MAX,
    ensures
        match r {
            Ok(samples) => {
                &&& entry.offset + entry.size <= rom_data@.len()
                &&& samples@.len() == 8 * entry.size
                &&& forall|k: int|
                    0 <= k < samples@.len() ==> samples@[k] as int == #[trigger] decoded_samples(
                        rom_data@.subrange(entry.offset as int, entry.offset + entry.size),
                    )[k]
            },
            Err(e) => {
                &&& entry.offset + entry.size > rom_data@.len()
                &&& e == WpcError::EntryOutOfRange {
                    index: entry.index,
                    offset: entry.offset,
                    size: entry.size,
                    rom_len: rom_data@.len() as usize,
                }
            },
        },
{
    let end = entry.offset + entry.size;
    if end > rom_data.len() {
        return Err(
            WpcError::EntryOutOfRange {
                index: entry.index,
                offset: entry.offset,
                size: entry.size,
                rom_len: rom_data.len(),
            },
        );
    }
    let ghost bytes = rom_data@.subrange(entry.offset as int, end as int);
    let ghost bits = lsb_first_bits(bytes);

    let mut chip = CvsdChip::new();
    let mut samples: Vec<i8> = Vec::new();
    let mut i = entry.offset;
    while i < end
        invariant
            entry.offset <= i <= end,
            end == entry.offset + entry.size,
            end <= rom_data@.len(),
            entry.size * 8 <= usize::MAX,
            bytes == rom_data@.subrange(entry.offset as int, end as int),
            bits == lsb_first_bits(bytes),
            samples@.len() == 8 * (i - entry.offset),
            chip@ == chip_after(bits.take(samples@.len() as int)),
            forall|k: int|
                0 <= k < samples@.len() ==> samples@[k] as int == #[trigger] chip_after(
                    bits.take(k + 1),
                ).last_sample,
        decreases end - i,
    {
        let byte = rom_data[i];
        // Least significant bit first within each byte.
        let mut bit_pos: u8 = 0;
        while bit_pos < 8
            invariant
                entry.offset <= i < end,
                end == entry.offset + entry.size,
                end <= rom_data@.len(),
                bytes == rom_data@.subrange(entry.offset as int, end as int),
                bits == lsb_first_bits(bytes),
                byte == rom_data@[i as int],
                bit_pos <= 8,
                samples@.len() == 8 * (i - entry.offset) + bit_pos,
                chip@ == chip_after(bits.take(samples@.len() as int)),
                forall|k: int|
                    0 <= k < samples@.len() ==> samples@[k] as int == #[trigger] chip_after(
                        bits.take(k + 1),
                    ).last_sample,
            decreases 8 - bit_pos,
        {
            let bit = (byte >> bit_pos) & 1 != 0;
            let ghost k = samples@.len() as int;
            proof {
                lemma_bit_index(i - entry.offset, bit_pos as int);
                assert(bytes[i - entry.offset] == byte);
                assert(bits[k] == bit);
                assert(bits.take(k + 1).drop_last() =~= bits.take(k));
                assert(bits.take(k + 1).last() == bit);
            }
            chip.process_bit(bit);
            samples.push(chip.to_pcm_i8());
            bit_pos += 1;
        }
        i += 1;
    }
    proof {
        assert forall|k: int| 0 <= k < samples@.len() implies samples@[k] as int
            == #[trigger] decoded_samples(bytes)[k] by {}
    }
    Ok(samples)
}

} // verus!
