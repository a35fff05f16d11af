//! Per-line decisions of the machine loop: which interrupts a scanline
//! raises, what level the CPU sees, and how a line's CPU time is accounted.
//! The loop itself, which runs the CPU core and the audio, lives with the
//! caller; it hands each outcome to these functions and does what they say.

use vstd::prelude::*;
use crate::bus::VISIBLE_LINES;

verus! {

/// 100 MHz at about 5 cycles per instruction, 60 frames of 200 lines.
pub const INSTRUCTIONS_PER_LINE: u32 = 1_667;

/// Whether the line interrupt fires on `line`. With interval 0 it fires on
/// the compare line alone (even in vertical blank); otherwise on the compare
/// line and every `interval` lines after it, within the visible lines.
pub open spec fn fires(compare: u16, interval: u16, line: u32) -> bool {
    if interval == 0 {
        line == compare
    } else {
        line >= compare && line < VISIBLE_LINES && (line - compare) % (interval as int) == 0
    }
}

pub fn line_irq_fires(compare: u16, interval: u16, line: u32) -> (r: bool)
    ensures
        r == fires(compare, interval, line),
{
    let compare = compare as u32;
    if interval == 0 {
        line == compare
    } else {
        line >= compare && line < VISIBLE_LINES && (line - compare) % interval as u32 == 0
    }
}

/// Interrupt lines: bit 0 is vertical blank (level 6), bit 1 the line
/// interrupt (level 4).
pub open spec fn pending_after(irq_enable: u16, irq_pending: u16, compare: u16, interval: u16, line: u32) -> u16 {
    let p1 = if line == VISIBLE_LINES && irq_enable & 1 != 0 { irq_pending | 1 } else { irq_pending };
    if fires(compare, interval, line) && irq_enable & 2 != 0 { p1 | 2 } else { p1 }
}

/// The level presented to the CPU for a pending set: vertical blank wins.
pub open spec fn level_of(pending: u16) -> u8 {
    if pending & 1 != 0 {
        6
    } else if pending & 2 != 0 {
        4
    } else {
        0
    }
}

/// At the start of `line`: the pending interrupts (vertical blank is
/// raised on the first invisible line, the line interrupt when it fires,
/// each only if enabled) and the level to present to the CPU.
pub fn line_start(irq_enable: u16, irq_pending: u16, compare: u16, interval: u16, line: u32) -> (r: (
    u16,
    u8,
))
    ensures
        r.0 == pending_after(irq_enable, irq_pending, compare, interval, line),
        r.1 == level_of(r.0),
{
    let mut p = irq_pending;
    if line == VISIBLE_LINES && irq_enable & 1 != 0 {
        p = p | 1;
    }
    if line_irq_fires(compare, interval, line) && irq_enable & 2 != 0 {
        p = p | 2;
    }
    let level = if p & 1 != 0 {
        6
    } else if p & 2 != 0 {
        4
    } else {
        0
    };
    (p, level)
}

/// How a batch of CPU execution ended.
#[derive(Clone, Copy, PartialEq, Eq, Structural, Debug)]
pub enum BatchEnd {
    /// The instruction budget ran out.
    BudgetExhausted,
    /// The CPU stopped; the rest of the line is idle.
    Stopped,
    /// A trap or illegal instruction, which the caller has taken; taking it
    /// counts as one instruction.
    Exception,
}

/// What the line loop does next.
#[derive(Clone, Copy, PartialEq, Eq, Structural, Debug)]
pub enum LineStep {
    /// Run another batch; this many instructions of the line are done.
    Continue(u32),
    /// The line's CPU time is over.
    LineDone,
    /// The CPU made no progress: stop the frame rather than spin.
    Stuck,
}

pub open spec fn step_after(done: u32, ran: u32, end: BatchEnd) -> LineStep {
    match end {
        BatchEnd::Stopped => LineStep::LineDone,
        _ => {
            let taken: int = if end == BatchEnd::Exception { 1 } else { 0 };
            if ran + taken == 0 {
                LineStep::Stuck
            } else if done + ran + taken >= INSTRUCTIONS_PER_LINE {
                LineStep::LineDone
            } else {
                LineStep::Continue((done + ran + taken) as u32)
            }
        },
    }
}

/// Accounts a batch that ran `ran` instructions after `done` of the line.
pub fn after_batch(done: u32, ran: u32, end: BatchEnd) -> (r: LineStep)
    requires
        done < INSTRUCTIONS_PER_LINE,
        ran <= INSTRUCTIONS_PER_LINE - done,
    ensures
        r == step_after(done, ran, end),
{
    match end {
        BatchEnd::Stopped => LineStep::LineDone,
        _ => {
            let taken: u32 = if end == BatchEnd::Exception { 1 } else { 0 };
            if ran + taken == 0 {
                LineStep::Stuck
            } else if done + ran + taken >= INSTRUCTIONS_PER_LINE {
                LineStep::LineDone
            } else {
                LineStep::Continue(done + ran + taken)
            }
        },
    }
}

/// A repeating line interrupt fires again `interval` lines later, as long
/// as that line is still visible.
pub proof fn law_line_irq_repeats(compare: u16, interval: u16, line: u32)
    requires
        interval > 0,
        fires(compare, interval, line),
        line + interval < VISIBLE_LINES,
    ensures
        fires(compare, interval, (line + interval) as u32),
{
    let n = interval as int;
    let d = line - compare;
    assert((d + n) % n == d % n) by (nonlinear_arith)
        requires
            n > 0,
            d >= 0,
    ;
}

/// A repeating line interrupt never fires in vertical blank.
pub proof fn law_repeating_irq_skips_vblank(compare: u16, interval: u16, line: u32)
    requires
        interval > 0,
        line >= VISIBLE_LINES,
    ensures
        !fires(compare, interval, line),
{
}

/// Progress is strict: a batch that is not stuck moves the line forward.
pub proof fn law_batches_make_progress(done: u32, ran: u32, end: BatchEnd)
    requires
        done < INSTRUCTIONS_PER_LINE,
        ran <= INSTRUCTIONS_PER_LINE - done,
        step_after(done, ran, end) matches LineStep::Continue(_),
    ensures
        step_after(done, ran, end) matches LineStep::Continue(n) && done < n < INSTRUCTIONS_PER_LINE,
{
}

} // verus!
