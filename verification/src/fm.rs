//! The integer side of the FM synthesiser: operator routing per algorithm,
//! SSG-EG mode decoding and the envelope generator's state machine.
//! Attenuation is in 10-bit units of 0.09375 dB; 1023 is silence.

use vstd::prelude::*;

verus! {

/// The three SSG-EG flags in mode bits [2:0]: (invert, alternate, hold).
pub open spec fn ssg_flags(ssg: u8) -> (bool, bool, bool) {
    let m = ssg % 8;
    (m >= 4, m % 4 >= 2, m % 2 == 1)
}

/// Decodes SSG-EG mode bits [2:0] into (invert, alternate, hold).
pub fn ssg_mode(ssg: u8) -> (r: (bool, bool, bool))
    ensures
        r == ssg_flags(ssg),
{
    let m = ssg % 8;
    if m == 0 {
        (false, false, false)
    } else if m == 1 {
        (false, false, true)
    } else if m == 2 {
        (false, true, false)
    } else if m == 3 {
        (false, true, true)
    } else if m == 4 {
        (true, false, false)
    } else if m == 5 {
        (true, false, true)
    } else if m == 6 {
        (true, true, false)
    } else {
        (true, true, true)
    }
}

/// The modulation sources of operator `op` (0-indexed) under algorithm
/// `alg`, and whether that operator is a carrier (heard directly).
/// Operator 0 is never a source's target here: its only modulation input is
/// the channel feedback. Unknown algorithms route nothing.
pub open spec fn routing(alg: u8, op: int) -> (Seq<usize>, bool) {
    if op == 0 {
        (seq![], alg == 7)
    } else if alg == 0 {
        if op == 1 { (seq![0usize], false) } else if op == 2 { (seq![1usize], false) } else if op == 3 { (seq![2usize], true) } else { (seq![], false) }
    } else if alg == 1 {
        if op == 1 { (seq![], false) } else if op == 2 { (seq![0usize, 1usize], false) } else if op == 3 { (seq![2usize], true) } else { (seq![], false) }
    } else if alg == 2 {
        if op == 1 { (seq![], false) } else if op == 2 { (seq![1usize], false) } else if op == 3 { (seq![0usize, 2usize], true) } else { (seq![], false) }
    } else if alg == 3 {
        if op == 1 { (seq![0usize], false) } else if op == 2 { (seq![], false) } else if op == 3 { (seq![1usize, 2usize], true) } else { (seq![], false) }
    } else if alg == 4 {
        if op == 1 { (seq![0usize], true) } else if op == 2 { (seq![], false) } else if op == 3 { (seq![2usize], true) } else { (seq![], false) }
    } else if alg == 5 {
        if 1 <= op <= 3 { (seq![0usize], true) } else { (seq![], false) }
    } else if alg == 6 {
        if op == 1 { (seq![0usize], true) } else if op == 2 || op == 3 { (seq![], true) } else { (seq![], false) }
    } else if alg == 7 {
        if 1 <= op <= 3 { (seq![], true) } else { (seq![], false) }
    } else {
        (seq![], false)
    }
}

/// The modulation sources and carrier flag of operator `op` under `alg`.
pub fn algorithm(alg: u8, op: usize) -> (r: (Vec<usize>, bool))
    ensures
        r.0@ == routing(alg, op as int).0,
        r.1 == routing(alg, op as int).1,
{
    if op == 0 {
        return (vec![], alg == 7);
    }
    if alg == 0 {
        if op == 1 { (vec![0], false) } else if op == 2 { (vec![1], false) } else if op == 3 { (vec![2], true) } else { (vec![], false) }
    } else if alg == 1 {
        if op == 1 { (vec![], false) } else if op == 2 { (vec![0, 1], false) } else if op == 3 { (vec![2], true) } else { (vec![], false) }
    } else if alg == 2 {
        if op == 1 { (vec![], false) } else if op == 2 { (vec![1], false) } else if op == 3 { (vec![0, 2], true) } else { (vec![], false) }
    } else if alg == 3 {
        if op == 1 { (vec![0], false) } else if op == 2 { (vec![], false) } else if op == 3 { (vec![1, 2], true) } else { (vec![], false) }
    } else if alg == 4 {
        if op == 1 { (vec![0], true) } else if op == 2 { (vec![], false) } else if op == 3 { (vec![2], true) } else { (vec![], false) }
    } else if alg == 5 {
        if 1 <= op && op <= 3 { (vec![0], true) } else { (vec![], false) }
    } else if alg == 6 {
        if op == 1 { (vec![0], true) } else if op == 2 || op == 3 { (vec![], true) } else { (vec![], false) }
    } else if alg == 7 {
        if 1 <= op && op <= 3 { (vec![], true) } else { (vec![], false) }
    } else {
        (vec![], false)
    }
}

/// The envelope phase of an operator.
#[derive(Clone, Copy, PartialEq, Eq, Structural, Debug)]
pub enum Phase {
    Attack,
    Decay,
    Sustain,
    Release,
}

/// An operator's envelope: its attenuation, phase, and SSG-EG state.
#[derive(Clone, Copy, Debug)]
pub struct Eg {
    pub att: u16,
    pub phase: Phase,
    pub ssg_held: bool,
    pub ssg_inv: bool,
}

/// Silent and released.
pub open spec fn eg_rest() -> Eg {
    Eg { att: 1023, phase: Phase::Release, ssg_held: false, ssg_inv: false }
}

/// The envelope after one rate-gated increment `inc`. In attack the
/// attenuation falls by inc * (att / 16 + 1), stopping at 0, where the
/// envelope enters decay. In decay, sustain and release it rises by `inc`,
/// stopping at 1023; decay turns to sustain at the sustain level `sl_att`.
pub open spec fn eg_applied(e: Eg, inc: u16, sl_att: u16) -> Eg {
    match e.phase {
        Phase::Attack => {
            let dec = inc as int * (e.att as int / 16 + 1);
            let att: u16 = if dec >= e.att { 0 } else { (e.att - dec) as u16 };
            Eg { att, phase: if att == 0 { Phase::Decay } else { Phase::Attack }, ..e }
        },
        Phase::Decay => {
            let att: u16 = if e.att + inc > 1023 { 1023 } else { (e.att + inc) as u16 };
            Eg { att, phase: if att >= sl_att { Phase::Sustain } else { Phase::Decay }, ..e }
        },
        _ => Eg { att: if e.att + inc > 1023 { 1023 } else { (e.att + inc) as u16 }, ..e },
    }
}

impl Default for Eg {
    /// A silent, released envelope.
    fn default() -> (e: Eg)
        ensures
            e == eg_rest(),
    {
        Eg { att: 1023, phase: Phase::Release, ssg_held: false, ssg_inv: false }
    }
}

impl Eg {

    /// Applies one already rate- and period-gated increment.
    pub fn apply(&mut self, inc: u16, sl_att: u16)
        requires
            old(self).phase != Phase::Attack ==> old(self).att + inc <= u16::MAX,
        ensures
            *final(self) == eg_applied(*old(self), inc, sl_att),
    {
        match self.phase {
            Phase::Attack => {
                proof {
                    crate::tpu::lemma_mul_le(inc as int, self.att / 16 + 1, 0xFFFF, 0x1000);
                }
                let dec = inc as u32 * ((self.att / 16) as u32 + 1);
                self.att = if dec >= self.att as u32 {
                    0
                } else {
                    self.att - dec as u16
                };
                if self.att == 0 {
                    self.phase = Phase::Decay;
                }
            },
            Phase::Decay => {
                let a = self.att + inc;
                self.att = if a > 1023 { 1023 } else { a };
                if self.att >= sl_att {
                    self.phase = Phase::Sustain;
                }
            },
            Phase::Sustain | Phase::Release => {
                let a = self.att + inc;
                self.att = if a > 1023 { 1023 } else { a };
            },
        }
    }

    /// Whether the operator can still be heard: it is attacking, or its
    /// attenuation is below silence.
    pub fn audible(&self) -> (r: bool)
        ensures
            r == (self.phase == Phase::Attack || self.att < 1023),
    {
        self.phase == Phase::Attack || self.att < 1023
    }
}

/// An envelope that starts within the 10-bit range stays within it.
pub proof fn law_envelope_stays_in_range(e: Eg, inc: u16, sl_att: u16)
    requires
        e.att <= 1023,
    ensures
        eg_applied(e, inc, sl_att).att <= 1023,
{
}

/// Attack only moves towards full volume and decay, sustain and release
/// only towards silence.
pub proof fn law_envelope_is_monotone(e: Eg, inc: u16, sl_att: u16)
    requires
        e.att <= 1023,
    ensures
        e.phase == Phase::Attack ==> eg_applied(e, inc, sl_att).att <= e.att,
        e.phase != Phase::Attack ==> eg_applied(e, inc, sl_att).att >= e.att,
{
}


/// Register offset of each operator's block within a channel's registers.
pub const FM_OP_OFFSET: [u32; 4] = [0x00, 0x07, 0x0E, 0x15];

pub open spec fn op_offset(op: int) -> int {
    if op == 0 { 0x00 } else if op == 1 { 0x07 } else if op == 2 { 0x0E } else { 0x15 }
}

pub open spec fn reg16(regs: Seq<u8>, a: int) -> u16 {
    (regs[a] as int * 0x100 + regs[a + 1] as int) as u16
}

/// The increment one envelope tick applies for effective rate `r`, or
/// `None` when this tick is not the rate's turn. Slow rates step by 4..7
/// every 2^shift ticks; fast ones step every tick by a larger amount. An
/// active SSG-EG runs four times as fast.
pub open spec fn eg_inc(r: u16, ssg_active: bool, counter: u32) -> Option<u16> {
    if r < 48 {
        let shift0 = (11 - (r >> 2)) as u16;
        let shift: u16 = if ssg_active { if shift0 >= 2 { (shift0 - 2) as u16 } else { 0 } } else { shift0 };
        if counter & (((1u32 << shift) - 1) as u32) != 0 {
            None
        } else {
            Some((4 + (r & 3)) as u16)
        }
    } else {
        let inc = ((4 + (r & 3)) as u16) << (((r >> 2) - 11) as u16);
        Some(if ssg_active { inc << 2u16 } else { inc })
    }
}

/// One envelope tick of operator `op` of FM channel `ch`, at tick number
/// `counter`. The phase's rate (attack, decay, sustain, or twice the
/// release rate plus one), raised by key scaling from the channel's (or
/// the operator's) block and frequency, selects the increment; a rate of 0
/// freezes the phase. With SSG-EG on outside attack, crossing attenuation
/// 0x200 either holds the envelope (alternating once first if asked) or
/// wraps it back down by 0x200 (alternating if asked); a held envelope does
/// not move.
pub open spec fn op_step(regs: Seq<u8>, counter: u32, ch: int, op: int, e: Eg) -> Eg {
    let base = ch * 0x40;
    let per_op_freq = regs[base + 0x28] & 1 != 0;
    let o = base + op_offset(op);
    let freq_word = if per_op_freq { reg16(regs, base + 0x20 + 2 * op) } else { reg16(regs, base + 0x1C) };
    let block = (freq_word >> 11u16) & 7;
    let fnum = freq_word & 0x7FF;
    let keycode = (block << 2u16) | (fnum >> 9u16);
    let ks = (regs[o + 2] >> 6u8) & 3;
    let ar = regs[o + 2] & 0x1F;
    let dr = regs[o + 3] & 0x1F;
    let sr = regs[o + 4] & 0x1F;
    let sl = (regs[o + 5] >> 4u8) & 0x0F;
    let rr = regs[o + 5] & 0x0F;
    let ks_add = keycode >> ((3 - ks) as u16);
    let sl_att: u16 = if sl == 15 { 1023 } else { (sl as u16) << 5u16 };
    let rate: int = match e.phase {
        Phase::Attack => ar as int,
        Phase::Decay => dr as int,
        Phase::Sustain => sr as int,
        Phase::Release => 2 * rr + 1,
    };
    let ssg = regs[o + 6];
    let ssg_active = ssg & 8 != 0 && e.phase != Phase::Attack;
    let r: u16 = if 2 * rate + ks_add > 63 { 63 } else { (2 * rate + ks_add) as u16 };
    if rate == 0 {
        e
    } else {
        match eg_inc(r, ssg_active, counter) {
            None => e,
            Some(inc) => {
                if ssg_active && e.ssg_held {
                    e
                } else {
                    let a = eg_applied(e, inc, sl_att);
                    if ssg_active && a.att >= 0x200 {
                        let (_, alt, hold) = ssg_flags(ssg);
                        if hold {
                            Eg { ssg_inv: if alt && !a.ssg_held { !a.ssg_inv } else { a.ssg_inv }, ssg_held: true, ..a }
                        } else {
                            Eg { att: (a.att - 0x200) as u16, ssg_inv: if alt { !a.ssg_inv } else { a.ssg_inv }, ..a }
                        }
                    } else {
                        a
                    }
                }
            },
        }
    }
}

fn tick_inc(r: u16, ssg_active: bool, counter: u32) -> (res: Option<u16>)
    requires
        r <= 63,
    ensures
        res == eg_inc(r, ssg_active, counter),
        res matches Some(i) ==> i <= 448,
{
    if r < 48 {
        assert((r >> 2u16) <= 11 && (r & 3) <= 3) by (bit_vector)
            requires
                r < 48,
        ;
        let mut shift: u16 = 11 - (r >> 2u16);
        if ssg_active {
            shift = if shift >= 2 { shift - 2 } else { 0 };
        }
        assert(1u32 << shift >= 1) by (bit_vector)
            requires
                shift <= 11,
        ;
        if counter & ((1u32 << shift) - 1) != 0 {
            None
        } else {
            Some(4 + (r & 3))
        }
    } else {
        assert((r >> 2u16) >= 12 && (r >> 2u16) <= 15 && (r & 3) <= 3) by (bit_vector)
            requires
                48 <= r <= 63,
        ;
        let inc = (4 + (r & 3)) << ((r >> 2u16) - 11);
        assert(inc <= 112) by (bit_vector)
            requires
                48 <= r <= 63,
                inc == ((4 + (r & 3)) as u16) << (((r >> 2u16) - 11) as u16),
        ;
        if ssg_active {
            assert(inc << 2u16 <= 448) by (bit_vector)
                requires
                    inc <= 112,
            ;
            Some(inc << 2u16)
        } else {
            Some(inc)
        }
    }
}

#[verifier::rlimit(40)]
pub(crate) fn op_tick(regs: &[u8], counter: u32, ch: usize, op: usize, e: Eg) -> (r: Eg)
    requires
        regs@.len() >= 0x200,
        ch < 8,
        op < 4,
        e.att <= 1023,
    ensures
        r == op_step(regs@, counter, ch as int, op as int, e),
        r.att <= 1023,
{
    let base = ch * 0x40;
    let per_op_freq = regs[base + 0x28] & 1 != 0;
    let offs = FM_OP_OFFSET;
    let o = base + offs[op] as usize;
    assert(offs[op as int] == op_offset(op as int));
    let freq_word = if per_op_freq {
        let fo = base + 0x20 + 2 * op;
        regs[fo] as u16 * 0x100 + regs[fo + 1] as u16
    } else {
        regs[base + 0x1C] as u16 * 0x100 + regs[base + 0x1D] as u16
    };
    let block = (freq_word >> 11u16) & 7;
    let fnum = freq_word & 0x7FF;
    let keycode = (block << 2u16) | (fnum >> 9u16);
    assert(keycode <= 31) by (bit_vector)
        requires
            block == (freq_word >> 11u16) & 7,
            fnum == freq_word & 0x7FF,
            keycode == (block << 2u16) | (fnum >> 9u16),
    ;
    let r2 = regs[o + 2];
    let r3 = regs[o + 3];
    let r4 = regs[o + 4];
    let r5 = regs[o + 5];
    let ks = (r2 >> 6u8) & 3;
    let ar = r2 & 0x1F;
    let dr = r3 & 0x1F;
    let sr = r4 & 0x1F;
    let sl = (r5 >> 4u8) & 0x0F;
    let rr = r5 & 0x0F;
    assert(ks <= 3 && ar <= 31 && dr <= 31 && sr <= 31 && rr <= 15) by (bit_vector)
        requires
            ks == (r2 >> 6u8) & 3,
            ar == r2 & 0x1F,
            dr == r3 & 0x1F,
            sr == r4 & 0x1F,
            rr == r5 & 0x0F,
    ;
    let ks_add = keycode >> ((3 - ks) as u16);
    assert(ks_add <= 31) by (bit_vector)
        requires
            keycode <= 31,
            ks <= 3,
            ks_add == keycode >> ((3 - ks) as u16),
    ;
    let sl_att: u16 = if sl == 15 { 1023 } else { (sl as u16) << 5u16 };
    let rate: u16 = match e.phase {
        Phase::Attack => ar as u16,
        Phase::Decay => dr as u16,
        Phase::Sustain => sr as u16,
        Phase::Release => 2 * rr as u16 + 1,
    };
    if rate == 0 {
        return e;
    }
    let ssg = regs[o + 6];
    let ssg_active = ssg & 8 != 0 && e.phase != Phase::Attack;
    let r: u16 = if 2 * rate + ks_add > 63 { 63 } else { 2 * rate + ks_add };
    let inc = match tick_inc(r, ssg_active, counter) {
        None => {
            return e;
        },
        Some(i) => i,
    };
    if ssg_active && e.ssg_held {
        return e;
    }
    let mut a = e;
    a.apply(inc, sl_att);
    proof {
        law_envelope_stays_in_range(e, inc, sl_att);
    }
    if ssg_active && a.att >= 0x200 {
        let (_, alt, hold) = ssg_mode(ssg);
        if hold {
            if alt && !a.ssg_held {
                a.ssg_inv = !a.ssg_inv;
            }
            a.ssg_held = true;
        } else {
            a.att = a.att - 0x200;
            if alt {
                a.ssg_inv = !a.ssg_inv;
            }
        }
    }
    a
}

/// One envelope tick of every operator: the tick counter advances
/// (wrapping) and each of the 8 x 4 envelopes, stored channel by channel,
/// takes its step at the new count. Returns the new count.
pub fn eg_tick(regs: &[u8], counter: u32, envs: &mut [Eg]) -> (next: u32)
    requires
        regs@.len() >= 0x200,
        old(envs)@.len() == 32,
        forall|i: int| 0 <= i < 32 ==> old(envs)@[i].att <= 1023,
    ensures
        next == counter.wrapping_add(1),
        final(envs)@.len() == 32,
        forall|i: int| 0 <= i < 32 ==> final(envs)@[i] == op_step(regs@, next, i / 4, i % 4, old(envs)@[i]),
        forall|i: int| 0 <= i < 32 ==> final(envs)@[i].att <= 1023,
{
    let next = counter.wrapping_add(1);
    let ghost e0 = envs@;
    let mut i: usize = 0;
    while i < 32
        invariant
            regs@.len() >= 0x200,
            e0.len() == 32,
            envs@.len() == 32,
            i <= 32,
            forall|j: int| 0 <= j < 32 ==> e0[j].att <= 1023,
            forall|j: int| 0 <= j < i ==> envs@[j] == op_step(regs@, next, j / 4, j % 4, e0[j]),
            forall|j: int| 0 <= j < i ==> envs@[j].att <= 1023,
            forall|j: int| i <= j < 32 ==> envs@[j] == e0[j],
        decreases 32 - i,
    {
        let e = envs[i];
        let r = op_tick(regs, next, i / 4, i % 4, e);
        envs[i] = r;
        i = i + 1;
    }
    next
}

// ---------------------------------------------------------------------------
// Laws of the operator routing.

/// 1 when operator `op` of algorithm `alg` is a carrier, else 0.
pub open spec fn carrier_count_of(alg: u8, op: int) -> int {
    if routing(alg, op).1 { 1 } else { 0 }
}

/// Algorithms 0 to 3 have one carrier, algorithm 4 two (operators 1 and 3,
/// each at the end of a two-operator stack), algorithms 5 and 6 three and
/// algorithm 7 all four; the last operator is always heard.
pub proof fn law_carriers_per_algorithm(alg: u8)
    requires
        alg < 8,
    ensures
        carrier_count_of(alg, 0) + carrier_count_of(alg, 1) + carrier_count_of(alg, 2) + carrier_count_of(alg, 3)
            == (if alg < 4 { 1int } else if alg == 4 { 2 } else if alg < 7 { 3 } else { 4 }),
        routing(alg, 3).1,
        alg == 4 ==> routing(alg, 1).1 && routing(alg, 3).1 && !routing(alg, 0).1 && !routing(alg, 2).1,
{
}

/// Modulation only flows forward: every source of an operator is an
/// earlier operator. And no operator is wasted: each one is either heard
/// directly or modulates a later operator.
pub proof fn law_every_operator_counts(alg: u8, op: int)
    requires
        alg < 8,
        0 <= op < 4,
    ensures
        forall|k: int| 0 <= k < routing(alg, op).0.len() ==> (routing(alg, op).0[k] as int) < op,
        routing(alg, op).1 || exists|j: int, k: int|
            op < j < 4 && 0 <= k < routing(alg, j).0.len() && routing(alg, j).0[k] as int == op,
{
    if !routing(alg, op).1 {
        if alg == 0 || alg == 3 && op == 0 || alg == 4 && op == 0 {
            assert(routing(alg, op + 1).0[0] as int == op);
        } else if alg == 1 {
            if op == 0 {
                assert(routing(alg, 2).0[0] as int == op);
            } else if op == 1 {
                assert(routing(alg, 2).0[1] as int == op);
            } else {
                assert(routing(alg, 3).0[0] as int == op);
            }
        } else if alg == 2 {
            if op == 0 {
                assert(routing(alg, 3).0[0] as int == op);
            } else if op == 1 {
                assert(routing(alg, 2).0[0] as int == op);
            } else {
                assert(routing(alg, 3).0[1] as int == op);
            }
        } else if alg == 3 {
            if op == 1 {
                assert(routing(alg, 3).0[0] as int == op);
            } else {
                assert(routing(alg, 3).0[1] as int == op);
            }
        } else if alg == 4 {
            assert(routing(alg, 3).0[0] as int == op);
        } else {
            assert(routing(alg, 1).0[0] as int == op);
        }
    }
}

// ---------------------------------------------------------------------------
// Laws of the envelope step.

proof fn lemma_eg_inc_bound(r: u16, ssg_active: bool, counter: u32)
    requires
        r <= 63,
    ensures
        eg_inc(r, ssg_active, counter) matches Some(i) ==> i <= 448,
{
    let inc = ((4 + (r & 3)) as u16) << (((r >> 2) - 11) as u16);
    assert((r < 48 ==> (r & 3) <= 3) && (48 <= r ==> inc <= 112 && inc << 2u16 <= 448)) by (bit_vector)
        requires
            r <= 63,
            inc == ((4 + (r & 3)) as u16) << (((r >> 2u16) - 11) as u16),
    ;
}

/// The frequency word that key-scales operator `op` of channel `ch`.
pub open spec fn scaling_word(regs: Seq<u8>, ch: int, op: int) -> int {
    let base = ch * 0x40;
    if regs[base + 0x28] % 2 == 1 {
        regs[base + 0x20 + 2 * op] * 0x100 + regs[base + 0x21 + 2 * op]
    } else {
        regs[base + 0x1C] * 0x100 + regs[base + 0x1D]
    }
}

/// Key scaling: the release of an operator without SSG-EG runs at the
/// effective rate 2 * (2 * RR + 1) plus a boost from the key code (bits 9
/// to 13 of the frequency word), capped at 63. The boost grows with the KS
/// field (register bits 7..6): KS = 0 adds a eighth of the key code, 1 a
/// quarter, 2 a half and 3 all of it. At that rate the attenuation rises by
/// the rate's increment on the ticks the rate steps, stopping at silence,
/// and nothing else about the envelope changes.
pub proof fn law_key_scaling_raises_the_release_rate(regs: Seq<u8>, counter: u32, ch: int, op: int, e: Eg)
    requires
        regs.len() >= 0x200,
        0 <= ch < 8,
        0 <= op < 4,
        e.att <= 1023,
        e.phase == Phase::Release,
        regs[ch * 0x40 + op_offset(op) + 6] & 8 == 0,
    ensures
        ({
            let o = ch * 0x40 + op_offset(op);
            let kc = (scaling_word(regs, ch, op) / 512) % 32;
            let ks = regs[o + 2] / 64;
            let boost = if ks == 0 { kc / 8 } else if ks == 1 { kc / 4 } else if ks == 2 { kc / 2 } else { kc };
            let rate = 2 * (2 * (regs[o + 5] % 16) + 1) + boost;
            let r = if rate > 63 { 63 } else { rate };
            op_step(regs, counter, ch, op, e) == match eg_inc(r as u16, false, counter) {
                None => e,
                Some(i) => Eg { att: if e.att + i > 1023 { 1023 } else { (e.att + i) as u16 }, ..e },
            }
        }),
{
    let base = ch * 0x40;
    let o = base + op_offset(op);
    let per_op_freq = regs[base + 0x28] & 1 != 0;
    let fw = if per_op_freq { reg16(regs, base + 0x20 + 2 * op) } else { reg16(regs, base + 0x1C) };
    let b28 = regs[base + 0x28];
    let r2 = regs[o + 2];
    let r5 = regs[o + 5];
    let ks = (r2 >> 6u8) & 3;
    let keycode = (((fw >> 11u16) & 7) << 2u16) | ((fw & 0x7FF) >> 9u16);
    let kadd = keycode >> ((3 - ks) as u16);
    assert((b28 & 1 != 0) == (b28 % 2 == 1) && keycode == (fw / 512) % 32 && ks == r2 / 64 && ks <= 3 && (r5
        & 0x0F) == r5 % 16 && keycode <= 31 && (ks == 0 ==> kadd == keycode / 8) && (ks == 1 ==> kadd == keycode
        / 4) && (ks == 2 ==> kadd == keycode / 2) && (ks == 3 ==> kadd == keycode)) by (bit_vector)
        requires
            ks == (r2 >> 6u8) & 3,
            keycode == (((fw >> 11u16) & 7) << 2u16) | ((fw & 0x7FF) >> 9u16),
            kadd == keycode >> ((3 - ks) as u16),
    ;
    assert(fw as int == scaling_word(regs, ch, op));
}

/// SSG-EG in loop mode (hold clear): a step that wraps the attenuation back
/// past 0x200, the only way it can fall outside attack, flips the output
/// inversion exactly when the alternate bit is set (so the alternating
/// shapes play as triangles and the others as saws); a step that does not
/// wrap leaves the inversion alone. The envelope never becomes held.
pub proof fn law_ssg_loop_alternates_on_wrap(regs: Seq<u8>, counter: u32, ch: int, op: int, e: Eg)
    requires
        regs.len() >= 0x200,
        0 <= ch < 8,
        0 <= op < 4,
        e.att <= 1023,
        e.phase != Phase::Attack,
        !e.ssg_held,
        regs[ch * 0x40 + op_offset(op) + 6] & 8 != 0,
        regs[ch * 0x40 + op_offset(op) + 6] & 1 == 0,
    ensures
        !op_step(regs, counter, ch, op, e).ssg_held,
        op_step(regs, counter, ch, op, e).att < e.att ==> op_step(regs, counter, ch, op, e).ssg_inv == (e.ssg_inv
            != (regs[ch * 0x40 + op_offset(op) + 6] & 2 != 0)),
        op_step(regs, counter, ch, op, e).att >= e.att ==> op_step(regs, counter, ch, op, e).ssg_inv == e.ssg_inv,
{
    let o = ch * 0x40 + op_offset(op);
    let ssg = regs[o + 6];
    let base = ch * 0x40;
    let per_op_freq = regs[base + 0x28] & 1 != 0;
    let fw = if per_op_freq { reg16(regs, base + 0x20 + 2 * op) } else { reg16(regs, base + 0x1C) };
    let keycode = (((fw >> 11u16) & 7) << 2u16) | ((fw & 0x7FF) >> 9u16);
    let r2 = regs[o + 2];
    let ks = (r2 >> 6u8) & 3;
    assert(((ssg % 8) % 2 == 1 <==> ssg & 1 != 0) && ((ssg % 8) % 4 >= 2 <==> ssg & 2 != 0) && keycode >> ((3
        - ks) as u16) <= 31) by (bit_vector)
        requires
            keycode == (((fw >> 11u16) & 7) << 2u16) | ((fw & 0x7FF) >> 9u16),
            ks == (r2 >> 6u8) & 3,
    ;
    let kadd = keycode >> ((3 - ks) as u16);
    let rate: int = match e.phase {
        Phase::Attack => (r2 & 0x1F) as int,
        Phase::Decay => (regs[o + 3] & 0x1F) as int,
        Phase::Sustain => (regs[o + 4] & 0x1F) as int,
        Phase::Release => 2 * (regs[o + 5] & 0x0F) + 1,
    };
    let r: u16 = if 2 * rate + kadd > 63 { 63 } else { (2 * rate + kadd) as u16 };
    lemma_eg_inc_bound(r, true, counter);
}

} // verus!
