//! The state a CPU core keeps between calls into the shared emulator core:
//! its saved register context, the interrupt level it presents, and the
//! count of instructions it has retired.

use vstd::prelude::*;

verus! {

/// `irq` is the interrupt level presented on the next run.
pub struct Cpu {
    pub ctx: Vec<u64>,
    pub irq: u8,
    pub retired: u64,
}

impl Cpu {
    /// A core with a saved context, no interrupt and nothing retired.
    pub fn with_context(ctx: Vec<u64>) -> (r: Cpu)
        ensures
            r.ctx@ == ctx@,
            r.irq == 0,
            r.retired == 0,
    {
        Cpu { ctx, irq: 0, retired: 0 }
    }

    pub fn set_irq(&mut self, level: u8)
        ensures
            final(self).irq == level,
            final(self).ctx@ == old(self).ctx@,
            final(self).retired == old(self).retired,
    {
        self.irq = level;
    }

    /// Adds the instructions retired during one call: the shared counter
    /// moved from `before` to `after`.
    pub fn account(&mut self, before: u64, after: u64)
        requires
            before <= after,
            old(self).retired + (after - before) <= u64::MAX,
        ensures
            final(self).retired == old(self).retired + (after - before),
            final(self).irq == old(self).irq,
            final(self).ctx@ == old(self).ctx@,
    {
        self.retired = self.retired + (after - before);
    }
}

} // verus!
