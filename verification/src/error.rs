// SPDX-License-Identifier: BSD-3-Clause
//! Errors reported while reading WPC-89 sound ROM images.

use vstd::prelude::*;

use crate::wpc89::RomChip;

verus! {

/// Why a ROM image or one of its tables could not be decoded.
#[derive(Debug, Clone, Copy, PartialEq, Eq, Structural)]
pub enum WpcError {
    /// The U18 image is shorter than the 0x20000-byte system bank.
    RomTooSmall,
    /// The CVSD sample table yielded no usable entry.
    NoCvsdEntries,
    /// A CVSD entry lives in a ROM whose size could not be determined.
    RomUnavailable(RomChip),
    /// A CVSD entry reaches past the end of its ROM image.
    EntryOutOfRange { index: usize, offset: usize, size: usize, rom_len: usize },
    /// A voice descriptor address maps outside the U18 image.
    DescriptorOutOfBounds { addr: u16 },
    /// The image ends inside the sequence pointer of an FM channel.
    DescriptorTruncatedFmPointer { channel: u8 },
    /// The image ends before the CVSD type byte of a descriptor.
    DescriptorTruncatedCvsdType,
    /// The image ends inside the CVSD sequence pointer of a descriptor.
    DescriptorTruncatedCvsdPointer,
}

} // verus!
