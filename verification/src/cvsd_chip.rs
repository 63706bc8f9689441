// SPDX-License-Identifier: BSD-3-Clause
//! Chip-logic simulation of the Harris HC55536 CVSD decoder.
//!
//! The decoder keeps three registers: a 12-bit syllabic filter, a 10-bit
//! signed integrator and a 3-bit shift register of the most recent input
//! bits.  The executable code works on the registers with the chip's own
//! bit operations; every step is proved equal to the arithmetic model in
//! [`bit_step`], which states the same pipeline with integer operations.
//! Because the integrator is clipped to 10 bits no loudness compression is
//! needed.

use vstd::prelude::*;

verus! {

// HC55536 syllabic filter parameters.
const CHARGE_MASK: i32 = 0xFC0;
const CHARGE_SHIFT: u32 = 6;
const CHARGE_ADD: i32 = 0xFC1;
const DECAY_SHIFT: u32 = 4;
const SHIFTMASK: u8 = 0x07;
/// Syllabic filter register initial value (pre-charged at power-on).
pub const SYL_REG_INIT: i32 = 0x3F;

// ---------------------------------------------------------------------------
// Arithmetic model
// ---------------------------------------------------------------------------

/// The decoder's registers as mathematical integers.
pub struct ChipState {
    /// 12-bit syllabic filter register.
    pub syl_reg: int,
    /// 10-bit signed integrator.
    pub integrator: int,
    /// The last three input bits, most recent in bit 0.
    pub shiftreg: int,
    /// Sample captured during the last processed bit.
    pub last_sample: int,
}

impl ChipState {
    /// Every register holds a value of its hardware width.
    pub open spec fn wf(self) -> bool {
        &&& 0 <= self.syl_reg <= 0xFFF
        &&& -512 <= self.integrator <= 511
        &&& 0 <= self.shiftreg <= 7
        &&& -128 <= self.last_sample <= 127
    }

    /// Register contents at power-on.
    pub open spec fn power_on() -> ChipState {
        ChipState { syl_reg: 0x3F, integrator: 0, shiftreg: 0, last_sample: 0 }
    }
}

/// Saturate to the 10-bit signed range.
pub open spec fn clip10(v: int) -> int {
    if v < -512 {
        -512
    } else if v > 511 {
        511
    } else {
        v
    }
}

/// The value of the low ten bits of `v & 0x3FF` read as a signed number.
pub open spec fn sign_extend10(low: int) -> int {
    if low >= 512 {
        low - 1024
    } else {
        low
    }
}

/// Shift a new bit into the 3-bit history register.
pub open spec fn shift_in(shiftreg: int, bit: bool) -> int {
    (2 * shiftreg + if bit { 1int } else { 0int }) % 8
}

/// The last three bits are not all identical.
pub open spec fn non_coincident(shiftreg: int) -> bool {
    shiftreg != 0 && shiftreg != 7
}

/// Syllabic filter after one bit: it decays toward 0xFFF by 1/64 of the
/// distance, gains 0xFC1 on non-coincidence, and wraps to 12 bits.
pub open spec fn syllabic_update(syl_reg: int, shiftreg: int) -> int {
    (syl_reg + (0xFFF - syl_reg) / 64 + if non_coincident(shiftreg) { 0xFC1int } else { 0int })
        % 0x1000
}

/// Integrator decay: multiply by 15/16, rounding the lost part down.
pub open spec fn integrator_decay(v: int) -> int {
    v - v / 16
}

/// Magnitude of the integrator charge step for a syllabic filter value.
pub open spec fn charge_step(syl_reg: int) -> int {
    if syl_reg / 64 < 2 {
        2
    } else {
        syl_reg / 64
    }
}

/// One bit through the chip pipeline: shift, syllabic update, integrator
/// decay, sample capture (the top eight bits of the 16-bit scaled
/// integrator, i.e. `decayed / 4`), then the signed charge.
pub open spec fn bit_step(state: ChipState, bit: bool) -> ChipState {
    let shiftreg = shift_in(state.shiftreg, bit);
    let syl_reg = syllabic_update(state.syl_reg, shiftreg);
    let decayed = integrator_decay(state.integrator);
    let charge = charge_step(syl_reg);
    ChipState {
        syl_reg,
        integrator: clip10(
            if bit {
                decayed - charge
            } else {
                decayed + charge
            },
        ),
        shiftreg,
        last_sample: decayed / 4,
    }
}

/// The integrator decay never saturates, and the captured sample always
/// fits in eight bits without compression: it lies within -120..=120.
pub proof fn lemma_sample_range(state: ChipState, bit: bool)
    requires
        state.wf(),
    ensures
        -480 <= integrator_decay(state.integrator) <= 480,
        -120 <= bit_step(state, bit).last_sample <= 120,
        bit_step(state, bit).wf(),
{
    let i = state.integrator;
    let q = i / 16;
    assert(16 * q <= i < 16 * q + 16) by (nonlinear_arith)
        requires
            q == i / 16,
    ;
    let d = integrator_decay(i);
    let s = d / 4;
    assert(4 * s <= d < 4 * s + 4) by (nonlinear_arith)
        requires
            s == d / 4,
    ;
    let syl = syllabic_update(state.syl_reg, shift_in(state.shiftreg, bit));
    assert(0 <= syl < 0x1000) by (nonlinear_arith)
        requires
            syl == (state.syl_reg + (0xFFF - state.syl_reg) / 64 + if non_coincident(
                shift_in(state.shiftreg, bit),
            ) {
                0xFC1int
            } else {
                0int
            }) % 0x1000,
    ;
}

/// A set bit pulls the integrator down and a clear bit pushes it up, by at
/// least two steps from its decayed value unless it hits the end of the
/// 10-bit range; the shift register keeps the new bit in bit 0 and the two
/// previous ones above it.
pub proof fn lemma_bit_direction(state: ChipState, bit: bool)
    requires
        state.wf(),
    ensures
        bit ==> bit_step(state, bit).integrator == -512 || bit_step(state, bit).integrator
            <= integrator_decay(state.integrator) - 2,
        !bit ==> bit_step(state, bit).integrator == 511 || bit_step(state, bit).integrator
            >= integrator_decay(state.integrator) + 2,
        bit_step(state, bit).shiftreg % 2 == (if bit { 1int } else { 0int }),
        bit_step(state, bit).shiftreg / 2 == state.shiftreg % 4,
{
    let b: int = if bit { 1 } else { 0 };
    let sr = state.shiftreg;
    assert((2 * sr + b) % 8 % 2 == b && (2 * sr + b) % 8 / 2 == sr % 4) by (nonlinear_arith)
        requires
            0 <= sr <= 7,
            0 <= b <= 1,
    ;
}

/// Clipping lands in the 10-bit range, leaves values already in it alone,
/// and so clipping twice is clipping once.
pub proof fn lemma_clip10_idempotent(v: int)
    ensures
        -512 <= clip10(v) <= 511,
        -512 <= v <= 511 ==> clip10(v) == v,
        clip10(clip10(v)) == clip10(v),
{
}

proof fn lemma_low_ten_bits(v: i32)
    by (bit_vector)
    requires
        -512 <= v <= 511,
    ensures
        v >= 0 ==> v & 0x3FF == v,
        v < 0 ==> v & 0x3FF == v + 1024,
{
}

/// Sign-extending the low ten bits of a value in -512..=511 gives the value
/// back.
pub proof fn lemma_sign_extend10_roundtrip(v: i32)
    requires
        -512 <= v <= 511,
    ensures
        sign_extend10((v & 0x3FF) as int) == v,
{
    lemma_low_ten_bits(v);
}

// ---------------------------------------------------------------------------
// Register-level helpers
// ---------------------------------------------------------------------------

/// Clip a value to the 10-bit signed range (-512..=511): values inside the
/// range are kept, values below become -512, values above become 511, and
/// clipping a clipped value changes nothing.
pub fn clip10bits(v: i32) -> (r: i32)
    ensures
        r == clip10(v as int),
        -512 <= r <= 511,
        -512 <= v <= 511 ==> r == v,
        v < -512 ==> r == -512,
        v > 511 ==> r == 511,
        clip10(r as int) == r,
{
    proof {
        lemma_clip10_idempotent(v as int);
    }
    if v < -512 {
        -512
    } else if v > 511 {
        511
    } else {
        v
    }
}

/// Sign-extend a 10-bit value into a full i32: the low ten bits of `v` read
/// as a signed number, so that every value of the 10-bit range comes back
/// unchanged.
pub fn signext10bits(v: i32) -> (r: i32)
    ensures
        r == sign_extend10((v & 0x3FF) as int),
        -512 <= r <= 511,
        -512 <= v <= 511 ==> r == v,
{
    proof {
        lemma_signext10(v);
        if -512 <= v <= 511 {
            lemma_sign_extend10_roundtrip(v);
        }
    }
    let v = v & 0x3FF;
    if v & 0x200 != 0 {
        v | !0x3FF
    } else {
        v
    }
}

proof fn lemma_signext10(w: i32)
    by (bit_vector)
    ensures
        0 <= w & 0x3FF < 1024,
        ((w & 0x3FF) & 0x200 != 0) == ((w & 0x3FF) >= 512),
        (w & 0x3FF) & 0x200 != 0 ==> ((w & 0x3FF) | !0x3FF) == (w & 0x3FF) - 1024,
{
}

proof fn lemma_shift_in_bits(s: u8, b: u8)
    by (bit_vector)
    requires
        s <= 7,
        b <= 1,
    ensures
        ((s << 1u8) | b) & 7u8 == (2 * s + b) % 8,
        (((s << 1u8) | b) & 7u8) & 1u8 == b,
{
}

proof fn lemma_syllabic_decay_bits(s: i32)
    by (bit_vector)
    requires
        0 <= s <= 0xFFF,
    ensures
        0 <= ((!s & 0xFC0) >> 6u32) <= 0xFFF - s,
        ((!s & 0xFC0) >> 6u32) * 64 <= 0xFFF - s,
        0xFFF - s < ((!s & 0xFC0) >> 6u32) * 64 + 64,
{
}

proof fn lemma_mask12_bits(x: i32)
    by (bit_vector)
    requires
        0 <= x < 0x2000,
    ensures
        x & 0xFFF == x - (if x >= 0x1000 {
            0x1000i32
        } else {
            0i32
        }),
{
}

proof fn lemma_decay_bits(i: i32)
    by (bit_vector)
    requires
        -512 <= i <= 511,
    ensures
        -32 <= (!i >> 4u32) <= 31,
        ((((!i >> 4u32) + 1) as i32) & 0x3FF) & 0x3FF == (((!i >> 4u32) + 1) as i32) & 0x3FF,
        (((!i >> 4u32) + 1) as i32) & 0x3FF < 512 ==> (((!i >> 4u32) + 1) as i32) & 0x3FF == 0
            - (i >> 4u32),
        (((!i >> 4u32) + 1) as i32) & 0x3FF >= 512 ==> ((((!i >> 4u32) + 1) as i32) & 0x3FF)
            - 1024 == 0 - (i >> 4u32),
        -32 <= (i >> 4u32) <= 31,
        (i >> 4u32) * 16 <= i,
        i < (i >> 4u32) * 16 + 16,
{
}

proof fn lemma_sample_bits(d: i32)
    by (bit_vector)
    requires
        -512 <= d <= 511,
    ensures
        ((d << 6u32) | (((d & 0x3FF) ^ 0x200) >> 4u32)) >> 8u32 == d >> 2u32,
        -128 <= (d >> 2u32) <= 127,
        (d >> 2u32) * 4 <= d,
        d < (d >> 2u32) * 4 + 4,
{
}

proof fn lemma_charge_bits(s: i32)
    by (bit_vector)
    requires
        0 <= s <= 0xFFF,
    ensures
        0 <= (s >> 6u32) <= 63,
        (s >> 6u32) * 64 <= s,
        s < (s >> 6u32) * 64 + 64,
{
}

proof fn lemma_floor_div(x: int, q: int, d: int)
    by (nonlinear_arith)
    requires
        d > 0,
        q * d <= x,
        x < q * d + d,
    ensures
        x / d == q,
{
}

// ---------------------------------------------------------------------------
// The decoder
// ---------------------------------------------------------------------------

/// HC55536 CVSD decoder state.
pub struct CvsdChip {
    /// 12-bit syllabic filter register (0..=0xFFF).
    syl_reg: i32,
    /// 10-bit signed integrator register (-512..=511).
    integrator: i32,
    /// 3-bit shift register holding the last 3 bits.
    shiftreg: u8,
    /// PCM sample captured at the correct pipeline stage (after decay,
    /// before syl-charge), ready to be returned by `to_pcm_i8`.
    last_sample: i8,
}

impl View for CvsdChip {
    type V = ChipState;

    closed spec fn view(&self) -> ChipState {
        ChipState {
            syl_reg: self.syl_reg as int,
            integrator: self.integrator as int,
            shiftreg: self.shiftreg as int,
            last_sample: self.last_sample as int,
        }
    }
}

impl CvsdChip {
    #[verifier::type_invariant]
    spec fn registers_in_range(self) -> bool {
        &&& 0 <= self.syl_reg <= 0xFFF
        &&& -512 <= self.integrator <= 511
        &&& self.shiftreg <= 7
    }

    /// A decoder in its power-on state.
    pub fn new() -> (chip: Self)
        ensures
            chip@ == ChipState::power_on(),
    {
        CvsdChip { syl_reg: SYL_REG_INIT, integrator: 0, shiftreg: 0, last_sample: 0 }
    }

    /// Process a single CVSD bit through the chip pipeline.
    ///
    /// Pipeline order:
    /// 1. Shift bit into shiftreg
    /// 2. Decay syllabic filter toward max (common step)
    /// 3. Boost syllabic filter on non-coincidence
    /// 4. Decay integrator
    /// 5. Capture sample here (this is the output point on the real chip)
    /// 6. Charge integrator from syllabic filter (sign from current bit)
    pub fn process_bit(&mut self, bit: bool)
        ensures
            final(self)@ == bit_step(old(self)@, bit),
            final(self)@.wf(),
    {
        proof {
            use_type_invariant(&*self);
        }
        let ghost before = self@;
        // 1. Shift bit into the 3-bit shift register.
        let b: u8 = if bit {
            1
        } else {
            0
        };
        let s = self.shiftreg;
        proof {
            lemma_shift_in_bits(s, b);
        }
        let shiftreg = ((s << 1u8) | b) & SHIFTMASK;

        // 2. Syllabic filter decay: move toward 0xFFF (maximum charge).
        let syl0 = self.syl_reg;
        proof {
            lemma_syllabic_decay_bits(syl0);
        }
        let mut syl = syl0 + ((!syl0 & CHARGE_MASK) >> CHARGE_SHIFT);
        proof {
            lemma_floor_div(0xFFF - syl0, ((!syl0 & 0xFC0) >> 6u32) as int, 64);
        }
        // 3. Extra charge on non-coincidence (last 3 bits not all identical).
        if shiftreg != 0 && shiftreg != SHIFTMASK {
            syl = syl + CHARGE_ADD;
        }
        // Keep syllabic filter in 12-bit range.
        proof {
            lemma_mask12_bits(syl);
        }
        let syl = syl & 0xFFF;
        assert(syl == syllabic_update(before.syl_reg, shift_in(before.shiftreg, bit)));

        // 4. Integrator decay: multiply by 15/16.
        let i = self.integrator;
        proof {
            lemma_decay_bits(i);
            lemma_floor_div(i as int, (i >> 4u32) as int, 16);
        }
        let decay_sum = signext10bits(((!i >> DECAY_SHIFT) + 1) & 0x3FF);
        let decayed = clip10bits(i + decay_sum);
        assert(decayed == integrator_decay(before.integrator));

        // 5. Capture the sample: scale 10-bit signed to 16-bit signed and keep
        //    the top eight bits.
        proof {
            lemma_sample_bits(decayed);
            lemma_floor_div(decayed as int, (decayed >> 2u32) as int, 4);
        }
        let sample16 = (decayed << 6u32) | (((decayed & 0x3FF) ^ 0x200) >> 4u32);
        let sample = (sample16 >> 8u32) as i8;

        // 6. Charge integrator from syllabic filter; sign from the current bit.
        proof {
            lemma_charge_bits(syl);
            lemma_floor_div(syl as int, (syl >> 6u32) as int, 64);
        }
        let mut charge = syl >> 6u32;
        if charge < 2 {
            charge = 2;
        }
        if shiftreg & 1 != 0 {
            charge = -charge;
        }
        let integrator = clip10bits(decayed + charge);

        self.shiftreg = shiftreg;
        self.syl_reg = syl;
        self.integrator = integrator;
        self.last_sample = sample;
    }

    /// Return the signed 8-bit PCM sample for the last processed bit.
    pub fn to_pcm_i8(&self) -> (sample: i8)
        ensures
            sample as int == self@.last_sample,
    {
        self.last_sample
    }
}

impl Default for CvsdChip {
    fn default() -> (chip: Self)
        ensures
            chip@ == ChipState::power_on(),
    {
        Self::new()
    }
}

} // verus!
