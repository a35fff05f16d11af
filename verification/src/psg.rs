//! The noise channel's shift register. On each shift the low bit leaves
//! and a new bit enters at the top: in white-noise mode the XOR of bits 0
//! and 3, in periodic mode bit 0 itself, so the register rotates.

use vstd::prelude::*;

verus! {

pub open spec fn lfsr_spec(lfsr: u16, white: bool) -> u16 {
    let bit: u16 = if white { (lfsr & 1) ^ ((lfsr >> 3u16) & 1) } else { lfsr & 1 };
    (lfsr >> 1u16) | (bit << 15u16)
}

/// The register after one shift.
pub fn lfsr_next(lfsr: u16, white: bool) -> (r: u16)
    ensures
        r == lfsr_spec(lfsr, white),
{
    let bit: u16 = if white { (lfsr & 1) ^ ((lfsr >> 3u16) & 1) } else { lfsr & 1 };
    (lfsr >> 1u16) | (bit << 15u16)
}

pub open spec fn shifted(lfsr: u16, white: bool, n: nat) -> u16
    decreases n,
{
    if n == 0 { lfsr } else { lfsr_spec(shifted(lfsr, white, (n - 1) as nat), white) }
}

/// Periodic noise repeats every 16 shifts: the register is rotated once
/// per shift.
pub proof fn law_periodic_noise_repeats_every_16_shifts(lfsr: u16)
    ensures
        shifted(lfsr, false, 16) == lfsr,
{
    reveal_with_fuel(shifted, 17);
    let s1 = lfsr_spec(lfsr, false);
    let s2 = lfsr_spec(s1, false);
    let s3 = lfsr_spec(s2, false);
    let s4 = lfsr_spec(s3, false);
    let s5 = lfsr_spec(s4, false);
    let s6 = lfsr_spec(s5, false);
    let s7 = lfsr_spec(s6, false);
    let s8 = lfsr_spec(s7, false);
    let s9 = lfsr_spec(s8, false);
    let s10 = lfsr_spec(s9, false);
    let s11 = lfsr_spec(s10, false);
    let s12 = lfsr_spec(s11, false);
    let s13 = lfsr_spec(s12, false);
    let s14 = lfsr_spec(s13, false);
    let s15 = lfsr_spec(s14, false);
    let s16 = lfsr_spec(s15, false);
    assert(s16 == lfsr) by (bit_vector)
        requires
            s1 == (lfsr >> 1u16) | ((lfsr & 1) << 15u16),
            s2 == (s1 >> 1u16) | ((s1 & 1) << 15u16),
            s3 == (s2 >> 1u16) | ((s2 & 1) << 15u16),
            s4 == (s3 >> 1u16) | ((s3 & 1) << 15u16),
            s5 == (s4 >> 1u16) | ((s4 & 1) << 15u16),
            s6 == (s5 >> 1u16) | ((s5 & 1) << 15u16),
            s7 == (s6 >> 1u16) | ((s6 & 1) << 15u16),
            s8 == (s7 >> 1u16) | ((s7 & 1) << 15u16),
            s9 == (s8 >> 1u16) | ((s8 & 1) << 15u16),
            s10 == (s9 >> 1u16) | ((s9 & 1) << 15u16),
            s11 == (s10 >> 1u16) | ((s10 & 1) << 15u16),
            s12 == (s11 >> 1u16) | ((s11 & 1) << 15u16),
            s13 == (s12 >> 1u16) | ((s12 & 1) << 15u16),
            s14 == (s13 >> 1u16) | ((s13 & 1) << 15u16),
            s15 == (s14 >> 1u16) | ((s14 & 1) << 15u16),
            s16 == (s15 >> 1u16) | ((s15 & 1) << 15u16),
    ;
}

} // verus!
