// SPDX-License-Identifier: BSD-3-Clause
//! Verified decoding of Williams/Bally WPC-89 pinball sound ROMs: the HC55536
//! CVSD decoder, the firmware table parser and the sound-program bytecode
//! decoder.

pub mod cvsd_chip;
pub mod error;
pub mod sound_program;
pub mod text;
pub mod wpc89;

pub use error::WpcError;
pub use wpc89::{CvsdEntry, RomChip, RomSet};

use vstd::prelude::*;

use crate::text::{dec_text, push_dec};
use crate::wpc89::{chip_label, chip_name};

verus! {

/// The file name of the WAV file of a CVSD entry:
/// `NNN_<chip>_<offset>_<size>.wav`, the index zero-padded to three digits.
pub open spec fn wav_file_name_text(entry: CvsdEntry) -> Seq<char> {
    dec_text(entry.index as nat, 3) + "_"@ + chip_label(entry.chip) + "_"@ + dec_text(
        entry.offset as nat,
        1,
    ) + "_"@ + dec_text(entry.size as nat, 1) + ".wav"@
}

/// The file name under which the samples of `entry` are written.
pub fn wav_file_name(entry: &CvsdEntry) -> (name: String)
    ensures
        name@ == wav_file_name_text(*entry),
{
    let mut name = String::new();
    push_dec(&mut name, entry.index as u64, 3);
    name.append("_");
    name.append(chip_name(entry.chip));
    name.append("_");
    push_dec(&mut name, entry.offset as u64, 1);
    name.append("_");
    push_dec(&mut name, entry.size as u64, 1);
    name.append(".wav");
    assert(name@ =~= wav_file_name_text(*entry));
    name
}

} // verus!
