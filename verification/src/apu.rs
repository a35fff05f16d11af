//! The audio processor's register file and its integer state: what the CPU
//! reads and writes in the audio block, key on and key off, the envelope
//! and noise state, and the status word of sounding channels. The sample
//! synthesis that reads this state is the caller's.
//!
//! Channels 0..7 are FM, 8..10 square, 11 noise and 12..13 PCM, each with
//! 0x40 bytes of registers; the global registers start at 0x400.

use vstd::prelude::*;
use crate::fm::{eg_rest, op_tick, ssg_flags, ssg_mode, Eg, Phase, FM_OP_OFFSET, op_offset, op_step};

verus! {

pub const CH_STRIDE: u32 = 0x40;
pub const GLOBAL: u32 = 0x400;
pub const KEYON: u32 = 0x400;
pub const LFO: u32 = 0x401;
pub const STATUS: u32 = 0x402;
pub const REGS: usize = 0x500;

/// The register block between the last channel and the globals, which
/// reads as 0 and ignores writes.
pub open spec fn reserved(offset: u32) -> bool {
    14 * CH_STRIDE <= offset < GLOBAL
}

/// A PCM key event for the caller, whose playback position restarts when
/// `playing` is set.
#[derive(Debug, PartialEq, Eq, Structural, Clone, Copy)]
pub struct PcmKey {
    pub index: usize,
    pub playing: bool,
}

pub struct ApuRegs {
    regs: [u8; REGS],
    lfsr: u16,
    envs: Vec<Eg>,
    pcm_playing: [bool; 2],
}

/// The register bytes at power-on: both pans on for every FM, square,
/// noise and PCM channel, the square and noise channels silent, and PCM at
/// full volume.
pub open spec fn power_on_reg(i: int) -> u8 {
    let ch = i / 0x40;
    let r = i % 0x40;
    if ch < 8 && r == 0x1F {
        0xC0
    } else if 8 <= ch < 12 && r == 0x02 {
        15
    } else if 8 <= ch < 12 && r == 0x03 {
        0xC0
    } else if 12 <= ch < 14 && r == 0x0E {
        255
    } else if 12 <= ch < 14 && r == 0x0F {
        0xC0
    } else {
        0
    }
}

/// The register file at power-on: the power-on register bytes, every
/// envelope at rest, no PCM playing, the noise shift register at 0x8000.
pub open spec fn apu_power_on() -> (Seq<u8>, Seq<Eg>, (bool, bool), u16) {
    (Seq::new(REGS as nat, |i: int| power_on_reg(i)), Seq::new(32, |i: int| eg_rest()), (false, false), 0x8000)
}

/// Whether channel `ch` is sounding: an FM channel while any operator's
/// envelope is audible, a square or noise channel while its attenuation
/// is below 15, a PCM channel while it plays.
pub open spec fn sounding(regs: Seq<u8>, envs: Seq<Eg>, pcm: (bool, bool), ch: int) -> bool {
    if ch < 8 {
        exists|op: int| 0 <= op < 4 && (#[trigger] envs[ch * 4 + op].phase == Phase::Attack || envs[ch * 4 + op].att < 1023)
    } else if ch < 12 {
        regs[ch * 0x40 + 2] & 0x0F < 15
    } else if ch == 12 {
        pcm.0
    } else {
        pcm.1
    }
}

/// An operator's envelope after a key-on write with operator mask `mask`:
/// a keyed operator restarts its attack from silence, inverted at once if
/// its SSG-EG is on in invert mode; the others release.
pub open spec fn keyed(e: Eg, ssg: u8, mask: u8, op: int) -> Eg {
    if mask & ((0x10u8 << (op as u8)) as u8) != 0 {
        Eg { att: 1023, phase: Phase::Attack, ssg_held: false, ssg_inv: ssg & 8 != 0 && ssg_flags(ssg).0 }
    } else {
        Eg { phase: Phase::Release, ..e }
    }
}

impl ApuRegs {
    #[verifier::type_invariant]
    spec fn well_formed(self) -> bool {
        &&& self.envs@.len() == 32
        &&& forall|i: int| 0 <= i < 32 ==> (#[trigger] self.envs@[i]).att <= 1023
    }

    /// Everything the register file holds: register bytes, envelopes, PCM
    /// channels playing, noise shift register.
    pub closed spec fn state(&self) -> (Seq<u8>, Seq<Eg>, (bool, bool), u16) {
        (self.regs@, self.envs@, (self.pcm_playing[0], self.pcm_playing[1]), self.lfsr)
    }

    pub open spec fn reg_bytes(&self) -> Seq<u8> {
        self.state().0
    }

    pub open spec fn env_states(&self) -> Seq<Eg> {
        self.state().1
    }

    pub open spec fn pcm_on(&self) -> (bool, bool) {
        self.state().2
    }

    pub open spec fn noise_lfsr(&self) -> u16 {
        self.state().3
    }

    /// The power-on state.
    pub fn new() -> (r: ApuRegs)
        ensures
            r.state() == apu_power_on(),
    {
        let mut regs = [0u8; REGS];
        let mut i: usize = 0;
        while i < REGS
            invariant
                i <= REGS,
                regs@.len() == REGS,
                forall|j: int| 0 <= j < i ==> regs@[j] == power_on_reg(j),
            decreases REGS - i,
        {
            let ch = i / 0x40;
            let r = i % 0x40;
            let b: u8 = if ch < 8 && r == 0x1F {
                0xC0
            } else if 8 <= ch && ch < 12 && r == 0x02 {
                15
            } else if 8 <= ch && ch < 12 && r == 0x03 {
                0xC0
            } else if 12 <= ch && ch < 14 && r == 0x0E {
                255
            } else if 12 <= ch && ch < 14 && r == 0x0F {
                0xC0
            } else {
                0
            };
            regs[i] = b;
            i = i + 1;
        }
        let mut envs: Vec<Eg> = Vec::new();
        let mut k: usize = 0;
        while k < 32
            invariant
                k <= 32,
                envs@.len() == k,
                forall|j: int| 0 <= j < k ==> envs@[j] == eg_rest(),
            decreases 32 - k,
        {
            envs.push(Eg::default());
            k = k + 1;
        }
        assert(envs@ == Seq::new(32, |i: int| eg_rest()));
        assert(regs@ == Seq::new(REGS as nat, |i: int| power_on_reg(i)));
        ApuRegs { regs, lfsr: 0x8000, envs, pcm_playing: [false, false] }
    }

    /// The register bytes, for the sample synthesis.
    pub fn regs(&self) -> (r: &[u8])
        ensures
            r@ == self.reg_bytes(),
            r@.len() == REGS,
    {
        proof {
            use_type_invariant(self);
        }
        self.regs.as_slice()
    }

    /// The envelope of operator `op` of FM channel `ch`.
    pub fn env(&self, ch: usize, op: usize) -> (e: Eg)
        requires
            ch < 8,
            op < 4,
        ensures
            e == self.env_states()[ch * 4 + op],
    {
        proof {
            use_type_invariant(self);
        }
        self.envs[ch * 4 + op]
    }

    pub fn lfsr(&self) -> (r: u16)
        ensures
            r == self.noise_lfsr(),
    {
        self.lfsr
    }

    /// Stores the noise shift register after the synthesis shifted it.
    pub fn set_lfsr(&mut self, v: u16)
        ensures
            final(self).noise_lfsr() == v,
            final(self).reg_bytes() == old(self).reg_bytes(),
            final(self).env_states() == old(self).env_states(),
            final(self).pcm_on() == old(self).pcm_on(),
    {
        proof {
            use_type_invariant(&*self);
        }
        self.lfsr = v;
    }

    pub fn pcm_playing(&self, index: usize) -> (r: bool)
        requires
            index < 2,
        ensures
            r == if index == 0 { self.pcm_on().0 } else { self.pcm_on().1 },
    {
        self.pcm_playing[index]
    }

    /// Stops PCM channel `index` when its sample ran out.
    pub fn stop_pcm(&mut self, index: usize)
        requires
            index < 2,
        ensures
            final(self).pcm_on() == if index == 0 { (false, old(self).pcm_on().1) } else { (old(self).pcm_on().0, false) },
            final(self).reg_bytes() == old(self).reg_bytes(),
            final(self).env_states() == old(self).env_states(),
            final(self).noise_lfsr() == old(self).noise_lfsr(),
    {
        proof {
            use_type_invariant(&*self);
        }
        self.pcm_playing[index] = false;
    }

    /// One envelope tick of every FM operator at tick `counter`; returns
    /// the next tick count.
    pub fn tick_envelopes(&mut self, counter: u32) -> (next: u32)
        ensures
            next == counter.wrapping_add(1),
            final(self).env_states().len() == 32,
            forall|i: int|
                0 <= i < 32 ==> final(self).env_states()[i] == op_step(
                    old(self).reg_bytes(),
                    next,
                    i / 4,
                    i % 4,
                    old(self).env_states()[i],
                ),
            final(self).reg_bytes() == old(self).reg_bytes(),
            final(self).noise_lfsr() == old(self).noise_lfsr(),
            final(self).pcm_on() == old(self).pcm_on(),
    {
        proof {
            use_type_invariant(&*self);
        }
        let next = counter.wrapping_add(1);
        let mut envs: Vec<Eg> = Vec::new();
        let mut i: usize = 0;
        while i < 32
            invariant
                i <= 32,
                envs@.len() == i,
                self.regs@.len() == REGS,
                self.envs@.len() == 32,
                forall|j: int| 0 <= j < 32 ==> (#[trigger] self.envs@[j]).att <= 1023,
                forall|j: int| 0 <= j < i ==> (#[trigger] envs@[j]) == op_step(self.regs@, next, j / 4, j % 4, self.envs@[j]),
                forall|j: int| 0 <= j < i ==> (#[trigger] envs@[j]).att <= 1023,
            decreases 32 - i,
        {
            envs.push(op_tick(self.regs.as_slice(), next, i / 4, i % 4, self.envs[i]));
            i = i + 1;
        }
        self.envs = envs;
        next
    }

    /// Whether FM channel `ch` is sounding.
    pub fn fm_audible(&self, ch: usize) -> (r: bool)
        requires
            ch < 8,
        ensures
            r == sounding(self.reg_bytes(), self.env_states(), self.pcm_on(), ch as int),
    {
        proof {
            use_type_invariant(self);
        }
        let mut op: usize = 0;
        while op < 4
            invariant
                ch < 8,
                op <= 4,
                self.envs@.len() == 32,
                forall|j: int| 0 <= j < op ==> !((#[trigger] self.envs@[ch * 4 + j]).phase == Phase::Attack || self.envs@[ch * 4
                    + j].att < 1023),
            decreases 4 - op,
        {
            if self.envs[ch * 4 + op].audible() {
                return true;
            }
            op = op + 1;
        }
        false
    }

    /// The status word: bit `ch` is set while channel `ch` is sounding.
    pub fn status_word(&self) -> (s: u16)
        ensures
            s < 0x4000,
            forall|ch: u16| ch < 14 ==> ((s >> ch) & 1 == 1) == sounding(self.reg_bytes(), self.env_states(), self.pcm_on(), ch as int),
    {
        proof {
            use_type_invariant(self);
        }
        let mut s: u16 = 0;
        let mut ch: u16 = 0;
        assert(0u16 < (1u16 << 0u16)) by (bit_vector);
        while ch < 14
            invariant
                ch <= 14,
                s < (1u16 << ch),
                self.regs@.len() == REGS,
                self.envs@.len() == 32,
                forall|j: u16| j < ch ==> ((s >> j) & 1 == 1) == sounding(self.regs@, self.envs@, (self.pcm_playing[0], self.pcm_playing[1]), j as int),
            decreases 14 - ch,
        {
            let on = if ch < 8 {
                self.fm_audible(ch as usize)
            } else if ch < 12 {
                self.regs[ch as usize * 0x40 + 2] & 0x0F < 15
            } else {
                self.pcm_playing[(ch - 12) as usize]
            };
            let s2: u16 = if on { s | (1u16 << ch) } else { s };
            assert(s2 < (1u16 << (ch + 1))) by (bit_vector)
                requires
                    ch < 14,
                    s < (1u16 << ch),
                    s2 == s | (1u16 << ch) || s2 == s,
            ;
            assert forall|j: u16| j < ch + 1 implies ((s2 >> j) & 1 == 1) == (if j == ch { on } else { (s >> j) & 1 == 1 }) by {
                assert(((s2 >> j) & 1 == 1) == (if j == ch { on } else { (s >> j) & 1 == 1 })) by (bit_vector)
                    requires
                        ch < 14,
                        j < ch + 1,
                        s < (1u16 << ch),
                        s2 == (if on { s | (1u16 << ch) } else { s }),
                ;
            }
            s = s2;
            ch = ch + 1;
        }
        assert(s < 0x4000) by (bit_vector)
            requires
                s < (1u16 << 14u16),
        ;
        s
    }

    /// The byte the CPU reads at register `offset`.
    pub fn read(&self, offset: u32) -> (r: u8)
        ensures
            r == reg_read(self.reg_bytes(), self.env_states(), self.pcm_on(), offset),
    {
        proof {
            use_type_invariant(self);
        }
        if offset == STATUS {
            let s = self.status_word();
            proof {
                self.lemma_status(s);
            }
            return (s >> 8u16) as u8;
        }
        if offset == STATUS + 1 {
            let s = self.status_word();
            proof {
                self.lemma_status(s);
            }
            return s as u8;
        }
        if (14 * CH_STRIDE <= offset && offset < GLOBAL) || offset == KEYON || offset >= REGS as u32 {
            return 0;
        }
        self.regs[offset as usize]
    }

    proof fn lemma_status(&self, s: u16)
        requires
            s < 0x4000,
            forall|ch: u16| ch < 14 ==> ((s >> ch) & 1 == 1) == sounding(self.reg_bytes(), self.env_states(), self.pcm_on(), ch as int),
        ensures
            s == status_sum(self.reg_bytes(), self.env_states(), self.pcm_on(), 14),
    {
        lemma_status_sum(s, self.reg_bytes(), self.env_states(), self.pcm_on(), 14);
        assert(s & (((1u32 << 14u32) - 1) as u16) == s) by (bit_vector)
            requires
                s < 0x4000,
        ;
    }

    /// Writes `value` to register `offset`. The reserved block and offsets
    /// past the end ignore it. Writing the noise channel's control register
    /// reloads its shift register. A key-on write (channel in bits 3..0,
    /// operator mask in bits 7..4) keys the operators of an FM channel, or
    /// starts a PCM channel when the mask is nonzero and stops it otherwise;
    /// the PCM key is returned for the caller's playback position.
    pub fn write(&mut self, offset: u32, value: u8) -> (k: Option<PcmKey>)
        ensures
            (final(self).state(), k) == apu_step(old(self).state(), offset, value),
    {
        proof {
            use_type_invariant(&*self);
        }
        if (14 * CH_STRIDE <= offset && offset < GLOBAL) || offset >= REGS as u32 {
            return None;
        }
        self.regs[offset as usize] = value;
        if offset == 11 * CH_STRIDE {
            self.lfsr = 0x8000;
        }
        if offset == KEYON {
            let ch = (value & 0x0F) as usize;
            assert(value & 0x0F == value % 16 && value & 0xF0 == (value / 16) * 16) by (bit_vector);
            if ch < 8 {
                self.key_fm(ch, value);
            } else if ch == 12 || ch == 13 {
                let playing = value & 0xF0 != 0;
                self.pcm_playing[ch - 12] = playing;
                return Some(PcmKey { index: ch - 12, playing });
            }
        }
        None
    }

    fn key_fm(&mut self, ch: usize, mask: u8)
        requires
            ch < 8,
        ensures
            final(self).reg_bytes() == old(self).reg_bytes(),
            final(self).noise_lfsr() == old(self).noise_lfsr(),
            final(self).pcm_on() == old(self).pcm_on(),
            final(self).env_states().len() == 32,
            forall|i: int|
                0 <= i < 32 ==> final(self).env_states()[i] == if i / 4 == ch {
                    keyed(old(self).env_states()[i], old(self).reg_bytes()[ch * 0x40 + op_offset(i % 4) + 6], mask, i % 4)
                } else {
                    old(self).env_states()[i]
                },
    {
        proof {
            use_type_invariant(&*self);
        }
        let offs = FM_OP_OFFSET;
        let mut envs: Vec<Eg> = Vec::new();
        let mut i: usize = 0;
        while i < 32
            invariant
                ch < 8,
                i <= 32,
                envs@.len() == i,
                self.envs@.len() == 32,
                self.regs@.len() == REGS,
                offs@ == seq![0x00u32, 0x07u32, 0x0Eu32, 0x15u32],
                forall|j: int| 0 <= j < 32 ==> (#[trigger] self.envs@[j]).att <= 1023,
                forall|j: int| 0 <= j < i ==> (#[trigger] envs@[j]).att <= 1023,
                forall|j: int|
                    0 <= j < i ==> (#[trigger] envs@[j]) == if j / 4 == ch {
                        keyed(self.envs@[j], self.regs@[ch * 0x40 + op_offset(j % 4) + 6], mask, j % 4)
                    } else {
                        self.envs@[j]
                    },
            decreases 32 - i,
        {
            let e = self.envs[i];
            if i / 4 == ch {
                let op = i % 4;
                let ssg = self.regs[ch * 0x40 + offs[op] as usize + 6];
                let (invert, _, _) = ssg_mode(ssg);
                let bit: u8 = 0x10u8 << (op as u8);
                let n = if mask & bit != 0 {
                    Eg { att: 1023, phase: Phase::Attack, ssg_held: false, ssg_inv: ssg & 0x08 != 0 && invert }
                } else {
                    Eg { phase: Phase::Release, ..e }
                };
                envs.push(n);
            } else {
                envs.push(e);
            }
            i = i + 1;
        }
        self.envs = envs;
    }
}

/// The register file after the CPU writes `value` to register `offset`,
/// and the PCM key the write produced. The reserved block and offsets past
/// the end ignore writes. Writing the noise channel's control register
/// reloads its shift register. A key-on write (channel in bits 3..0,
/// operator mask in bits 7..4) keys the operators of an FM channel, or
/// starts a PCM channel when the mask is nonzero and stops it otherwise.
pub open spec fn apu_step(s: (Seq<u8>, Seq<Eg>, (bool, bool), u16), offset: u32, value: u8) -> (
    (Seq<u8>, Seq<Eg>, (bool, bool), u16),
    Option<PcmKey>,
) {
    let (regs, envs, pcm, lfsr) = s;
    if reserved(offset) || offset >= REGS {
        (s, None)
    } else {
        let regs2 = regs.update(offset as int, value);
        let lfsr2: u16 = if offset == 11 * CH_STRIDE { 0x8000 } else { lfsr };
        let ch = value % 16;
        let envs2 = if offset == KEYON && ch < 8 {
            Seq::new(
                32,
                |i: int|
                    if i / 4 == ch {
                        keyed(envs[i], regs[ch * 0x40 + op_offset(i % 4) + 6], value, i % 4)
                    } else {
                        envs[i]
                    },
            )
        } else {
            envs
        };
        if offset == KEYON && (ch == 12 || ch == 13) {
            let playing = value / 16 != 0;
            let pcm2 = if ch == 12 { (playing, pcm.1) } else { (pcm.0, playing) };
            ((regs2, envs2, pcm2, lfsr2), Some(PcmKey { index: (ch - 12) as usize, playing }))
        } else {
            ((regs2, envs2, pcm, lfsr2), None)
        }
    }
}

/// A plain register: one that reads back what was written.
pub open spec fn plain_reg(offset: u32) -> bool {
    offset != STATUS && offset != STATUS + 1 && !(reserved(offset) || offset == KEYON || offset >= REGS)
}

/// The byte the CPU reads at register `offset`: the status word's bytes,
/// big-endian, at `STATUS`; 0 for the reserved block, the key-on register
/// and past the end; otherwise the register as written.
pub open spec fn reg_read(regs: Seq<u8>, envs: Seq<Eg>, pcm: (bool, bool), offset: u32) -> u8 {
    if offset == STATUS {
        (status_sum(regs, envs, pcm, 14) >> 8u16) as u8
    } else if offset == STATUS + 1 {
        status_sum(regs, envs, pcm, 14) as u8
    } else if plain_reg(offset) {
        regs[offset as int]
    } else {
        0
    }
}

/// The plain registers read back what was last written to them.
pub proof fn law_registers_read_back(regs: Seq<u8>, envs: Seq<Eg>, pcm: (bool, bool), offset: u32, value: u8)
    requires
        regs.len() == REGS,
        plain_reg(offset),
    ensures
        reg_read(regs.update(offset as int, value), envs, pcm, offset) == value,
{
}

/// The status bits of channels `0..n`, as a number.
pub open spec fn status_sum(regs: Seq<u8>, envs: Seq<Eg>, pcm: (bool, bool), n: nat) -> u16
    decreases n,
{
    if n == 0 {
        0
    } else {
        let below = status_sum(regs, envs, pcm, (n - 1) as nat);
        if sounding(regs, envs, pcm, n - 1) { below | (1u16 << ((n - 1) as u16)) } else { below }
    }
}

proof fn lemma_status_sum(s: u16, regs: Seq<u8>, envs: Seq<Eg>, pcm: (bool, bool), n: nat)
    requires
        n <= 14,
        s < 0x4000,
        forall|ch: u16| ch < 14 ==> ((s >> ch) & 1 == 1) == sounding(regs, envs, pcm, ch as int),
    ensures
        status_sum(regs, envs, pcm, n) == s & (((1u32 << (n as u32)) - 1) as u16),
    decreases n,
{
    let m = n as u16;
    if n == 0 {
        assert(s & (((1u32 << 0u32) - 1) as u16) == 0) by (bit_vector);
    } else {
        lemma_status_sum(s, regs, envs, pcm, (n - 1) as nat);
        let below = status_sum(regs, envs, pcm, (n - 1) as nat);
        let on = sounding(regs, envs, pcm, n - 1);
        assert(((s >> ((n - 1) as u16)) & 1 == 1) == on);
        let k = (m - 1) as u16;
        assert((if on { below | (1u16 << k) } else { below }) == s & (((1u32 << ((k + 1) as u32)) - 1) as u16))
            by (bit_vector)
            requires
                k < 14,
                below == s & (((1u32 << (k as u32)) - 1) as u16),
                ((s >> k) & 1 == 1) == on,
        ;
    }
}

} // verus!
