//! The machine's memory map and its bus: plain memory, the device
//! registers behind `MMIO_BASE`, and the routing of byte accesses to the
//! audio block, whose registers belong to the caller's APU.

use vstd::prelude::*;
use crate::cart::{parse, parse_spec, CartError};
use crate::tpu::{run, run_effect, Tpu, PIXEL_BUDGET};
use crate::apu::{apu_power_on, apu_step, reg_read, ApuRegs, PcmKey};
use crate::fm::Eg;

verus! {

pub const BIOS_SIZE: u32 = 0x0010_0000;
pub const CART_BASE: u32 = 0x0100_0000;
pub const CART_SIZE: u32 = 0x0100_0000;
pub const RAM_BASE: u32 = 0x0200_0000;
pub const RAM_SIZE: u32 = 0x0040_0000;
pub const BIOS_PARTITION: u32 = 0x0002_0000;
pub const STACK_TOP: u32 = RAM_BASE + BIOS_PARTITION;
pub const VRAM_BASE: u32 = 0x0300_0000;
pub const VRAM_SIZE: u32 = 0x0008_0000;
/// Video mode register (big-endian word): bit 0 selects the doubled
/// resolution, bit 1 shows the TPU framebuffer in place of plane 0.
pub const VDP_MODE: u32 = 0x0306_1800;
/// Offset of the displayed framebuffer inside TPU RAM (big-endian long).
pub const FB_BASE: u32 = 0x0306_1804;
pub const PALETTE_BASE: u32 = 0x0308_0000;
pub const PALETTE_SIZE: u32 = 0x0000_0400;
/// Start of the RAM that the triangle processing unit addresses.
pub const TPU_RAM_BASE: u32 = 0x0308_0400;
pub const TPU_RAM_SIZE: u32 = 0x0008_0000;
pub const MEM_END: u32 = TPU_RAM_BASE + TPU_RAM_SIZE;
pub const MMIO_BASE: u32 = 0xFF00_0000;
pub const AUDIO_BASE: u32 = 0xFF00_0400;
pub const AUDIO_END: u32 = 0xFF00_0900;
pub const AUDIO_GLOBAL: u32 = 0xFF00_0800;

pub const VDP_STATUS: u32 = 0xFF00_0000;
pub const IRQ_ENABLE: u32 = 0xFF00_0004;
pub const IRQ_ACK: u32 = 0xFF00_0008;
pub const LINE_COMPARE: u32 = 0xFF00_000C;
pub const BRIGHTNESS: u32 = 0xFF00_0010;
pub const LINE_INTERVAL: u32 = 0xFF00_0014;
pub const MOUSE_X: u32 = 0xFF00_0108;
pub const MOUSE_Y: u32 = 0xFF00_010C;
pub const PAD_1: u32 = 0xFF00_0100;
pub const PAD_2: u32 = 0xFF00_0104;
pub const DEBUG_PUTC: u32 = 0xFF00_0200;
pub const RESET_REASON: u32 = 0xFF00_0300;
pub const TPU_TAIL: u32 = 0xFF00_0020;
pub const TPU_BUSY: u16 = 0x0001;

pub const PAD_UP: u16 = 0x0001;
pub const PAD_DOWN: u16 = 0x0002;
pub const PAD_LEFT: u16 = 0x0004;
pub const PAD_RIGHT: u16 = 0x0008;
pub const PAD_A: u16 = 0x0010;
pub const PAD_B: u16 = 0x0020;
pub const PAD_X: u16 = 0x0040;
pub const PAD_Y: u16 = 0x0080;
pub const PAD_START: u16 = 0x0100;
pub const PAD_SELECT: u16 = 0x0200;
pub const PAD_L: u16 = 0x0400;
pub const PAD_R: u16 = 0x0800;

pub const VISIBLE_LINES: u32 = 180;
/// The debug console keeps at most this many bytes.
pub const DEBUG_OUT_CAP: usize = 65536;
pub const LINES_PER_FRAME: u32 = 200;

/// The bytes of the debug console that reach the host terminal: newline and
/// the printable ASCII range.
pub open spec fn is_printable(b: u8) -> bool {
    b == 0x0A || (0x20 <= b && b <= 0x7E)
}

/// Whether a byte written to the debug console register is echoed to the host.
pub fn printable(b: u8) -> (r: bool)
    ensures
        r == is_printable(b),
{
    b == 0x0A || (0x20 <= b && b <= 0x7E)
}

/// The machine's memory, device registers, audio register file and
/// triangle processing unit. A write to `TPU_TAIL` queues commands up to
/// the new tail and drains the TPU's ring at once.
pub struct Bus {
    pub brightness: u8,
    pub debug_out: Vec<u8>,
    pub irq_enable: u16,
    pub irq_pending: u16,
    pub line: u32,
    pub line_compare: u16,
    pub line_interval: u16,
    pub mem: Vec<u8>,
    pub mouse: [i16; 2],
    pub pads: [u16; 2],
    pub reset_reason: u16,
    pub tpu: Tpu,
    pub apu: ApuRegs,
}

/// The reason code a cart reload leaves in `RESET_REASON`.
pub const RESET_RELOAD: u16 = 2;

/// What a write produced besides the bus's own state: the PCM keys of its
/// audio bytes, in address order, for the caller's playback positions, and
/// the debug console byte to echo to the host terminal, if any.
pub struct BusWrite {
    pub pcm: Vec<PcmKey>,
    pub echo: Option<u8>,
}

/// The address of byte `i` of an access at `address`, wrapping at 4 GiB.
pub open spec fn addr_at(address: u32, i: int) -> int {
    (address + i) % 0x1_0000_0000
}

pub open spec fn in_audio(a: int) -> bool {
    AUDIO_BASE <= a < AUDIO_END
}

/// The register slot (4-byte aligned) of an MMIO address.
pub open spec fn slot_of(a: u32) -> u32 {
    a & 0xFFFF_FFFC
}

/// The 16-bit value of the device register at `slot`; 0 where there is none.
pub open spec fn reg_value(b: Bus, slot: u32) -> u16 {
    if slot == VDP_STATUS {
        (if b.line >= VISIBLE_LINES { 0x8000u16 } else { 0u16 }) | (b.line as u16)
    } else if slot == IRQ_ENABLE {
        b.irq_enable
    } else if slot == IRQ_ACK {
        b.irq_pending
    } else if slot == LINE_COMPARE {
        b.line_compare
    } else if slot == BRIGHTNESS {
        b.brightness as u16
    } else if slot == LINE_INTERVAL {
        b.line_interval
    } else if slot == MOUSE_X {
        b.mouse[0] as u16
    } else if slot == MOUSE_Y {
        b.mouse[1] as u16
    } else if slot == PAD_1 {
        b.pads[0]
    } else if slot == PAD_2 {
        b.pads[1]
    } else if slot == RESET_REASON {
        b.reset_reason
    } else {
        0
    }
}

/// A register reads as its big-endian word in the first two bytes of its
/// slot; the other two bytes read 0.
pub open spec fn mmio_byte(b: Bus, a: u32) -> u8 {
    let v = reg_value(b, slot_of(a));
    let k = a & 3;
    if k == 0 {
        (v >> 8) as u8
    } else if k == 1 {
        v as u8
    } else {
        0
    }
}

/// The byte the bus reads at `a`.
pub open spec fn byte_at(b: Bus, a: int) -> u8 {
    if in_audio(a) {
        reg_read(b.apu.reg_bytes(), b.apu.env_states(), b.apu.pcm_on(), (a - AUDIO_BASE) as u32)
    } else if a >= MMIO_BASE {
        mmio_byte(b, a as u32)
    } else if a < b.mem@.len() {
        b.mem@[a]
    } else {
        0
    }
}

/// The first `n` bytes of an access, big-endian, as a number.
pub open spec fn read_value(b: Bus, address: u32, n: nat) -> int
    decreases n,
{
    if n == 0 {
        0
    } else {
        read_value(b, address, (n - 1) as nat) * 256 + byte_at(b, addr_at(address, n - 1)) as int
    }
}

pub open spec fn place(n: nat) -> int {
    if n == 0 { 1 } else if n == 1 { 0x100 } else if n == 2 { 0x1_0000 } else if n == 3 { 0x100_0000 } else { 0x1_0000_0000 }
}

/// Byte `i` of a `bytes`-wide big-endian value.
pub open spec fn byte_of(value: u32, bytes: nat, i: int) -> u8 {
    (value >> ((8 * (bytes - 1 - i)) as u32)) as u8
}

/// The audio register file after the audio bytes of an access, the first
/// `n` bytes of it, each written in address order, and the PCM keys they
/// produced.
pub open spec fn apu_after(
    st: (Seq<u8>, Seq<Eg>, (bool, bool), u16),
    address: u32,
    value: u32,
    bytes: nat,
    n: nat,
) -> ((Seq<u8>, Seq<Eg>, (bool, bool), u16), Seq<PcmKey>)
    decreases n,
{
    if n == 0 {
        (st, Seq::empty())
    } else {
        let (st1, keys) = apu_after(st, address, value, bytes, (n - 1) as nat);
        let a = addr_at(address, n - 1);
        if in_audio(a) {
            let (st2, k) = apu_step(st1, (a - AUDIO_BASE) as u32, byte_of(value, bytes, n - 1));
            (st2, match k {
                Some(key) => keys.push(key),
                None => keys,
            })
        } else {
            (st1, keys)
        }
    }
}

/// A write is a register write when it starts in the MMIO space outside
/// the audio block.
pub open spec fn is_reg_write(address: u32) -> bool {
    !in_audio(address as int) && address >= MMIO_BASE
}

/// A write is a memory write when it starts below the MMIO space.
pub open spec fn is_mem_write(address: u32) -> bool {
    address < MMIO_BASE
}

/// The memory byte at `j` after a memory write.
pub open spec fn mem_after(old_mem: Seq<u8>, address: u32, value: u32, bytes: nat, j: int) -> u8 {
    let k = (j - address) % 0x1_0000_0000;
    if is_mem_write(address) && k < bytes { byte_of(value, bytes, k) } else { old_mem[j] }
}

/// The device registers and the TPU are the same.
pub open spec fn same_regs(a: Bus, b: Bus) -> bool {
    &&& a.brightness == b.brightness
    &&& a.debug_out == b.debug_out
    &&& a.irq_enable == b.irq_enable
    &&& a.irq_pending == b.irq_pending
    &&& a.line == b.line
    &&& a.line_compare == b.line_compare
    &&& a.line_interval == b.line_interval
    &&& a.mouse == b.mouse
    &&& a.pads == b.pads
    &&& a.reset_reason == b.reset_reason
    &&& a.tpu == b.tpu
}

pub open spec fn reg_write(address: u32, slot: u32) -> bool {
    is_reg_write(address) && slot_of(address) == slot
}

proof fn lemma_wrapping_addr(address: u32, i: u32)
    requires
        i <= 4,
    ensures
        address.wrapping_add(i) == addr_at(address, i as int),
{
    let s = address as int + i as int;
    if s > u32::MAX {
        assert(addr_at(address, i as int) == s - 0x1_0000_0000) by {
            vstd::arithmetic::div_mod::lemma_fundamental_div_mod_converse(s, 0x1_0000_0000, 1, s - 0x1_0000_0000);
        }
    } else {
        assert(addr_at(address, i as int) == s) by {
            vstd::arithmetic::div_mod::lemma_fundamental_div_mod_converse(s, 0x1_0000_0000, 0, s);
        }
    }
}

/// The memory index `j` is byte `i` of the access at `address` exactly when
/// their distance, taken modulo 4 GiB, is `i`.
proof fn lemma_offset(address: u32, i: int, j: int)
    requires
        0 <= i < 4,
        0 <= j < 0x1_0000_0000,
    ensures
        (j == addr_at(address, i)) <==> ((j - address) % 0x1_0000_0000 == i),
{
    let m = 0x1_0000_0000int;
    let s = address + i;
    if s >= m {
        vstd::arithmetic::div_mod::lemma_fundamental_div_mod_converse(s, m, 1, s - m);
        if j == s - m {
            vstd::arithmetic::div_mod::lemma_fundamental_div_mod_converse(j - address, m, -1, i);
        }
        if (j - address) % m == i {
            vstd::arithmetic::div_mod::lemma_fundamental_div_mod(j - address, m);
            assert(m * ((j - address) / m) == j - address - i);
            assert((j - address) / m == -1) by (nonlinear_arith)
                requires
                    m * ((j - address) / m) == j - address - i,
                    m == 0x1_0000_0000int,
                    0 <= j < m,
                    0 <= address < m,
                    0 <= i < 4,
                    address + i >= m,
            ;
        }
    } else {
        vstd::arithmetic::div_mod::lemma_fundamental_div_mod_converse(s, m, 0, s);
        if j == s {
            vstd::arithmetic::div_mod::lemma_fundamental_div_mod_converse(j - address, m, 0, i);
        }
        if (j - address) % m == i {
            vstd::arithmetic::div_mod::lemma_fundamental_div_mod(j - address, m);
            assert((j - address) / m == 0) by (nonlinear_arith)
                requires
                    m * ((j - address) / m) == j - address - i,
                    m == 0x1_0000_0000int,
                    0 <= j < m,
                    0 <= address < m,
                    0 <= i < 4,
                    address + i < m,
            ;
        }
    }
}

impl Bus {
    /// A bus with `bios` at address 0, the rest of memory zeroed, full
    /// brightness and every other register clear.
    pub fn new(bios: Vec<u8>) -> (r: Bus)
        requires
            bios@.len() <= BIOS_SIZE,
        ensures
            r.mem@.len() == MEM_END,
            forall|i: int| 0 <= i < bios@.len() ==> r.mem@[i] == bios@[i],
            forall|i: int| bios@.len() <= i < MEM_END ==> r.mem@[i] == 0,
            r.brightness == 255,
            r.debug_out@.len() == 0,
            r.irq_enable == 0,
            r.irq_pending == 0,
            r.line == 0,
            r.line_compare == 0,
            r.line_interval == 0,
            r.mouse[0] == 0 && r.mouse[1] == 0,
            r.pads[0] == 0 && r.pads[1] == 0,
            r.reset_reason == 0,
            r.tpu == (Tpu { deficit: 0, head: 0, pixels: 0, tail: 0, budget: PIXEL_BUDGET }),
            r.apu.state() == apu_power_on(),
    {
        let mut mem: Vec<u8> = Vec::new();
        let n = MEM_END as usize;
        let mut i: usize = 0;
        while i < n
            invariant
                n == MEM_END,
                i <= n,
                bios@.len() <= BIOS_SIZE,
                mem@.len() == i,
                forall|j: int| 0 <= j < i ==> mem@[j] == if j < bios@.len() { bios@[j] } else { 0u8 },
            decreases n - i,
        {
            let b = if i < bios.len() { bios[i] } else { 0 };
            mem.push(b);
            i = i + 1;
        }
        Bus {
            brightness: 255,
            debug_out: Vec::new(),
            irq_enable: 0,
            irq_pending: 0,
            line: 0,
            line_compare: 0,
            line_interval: 0,
            mem,
            mouse: [0, 0],
            pads: [0, 0],
            reset_reason: 0,
            tpu: Tpu::new(),
            apu: ApuRegs::new(),
        }
    }

    /// The 16-bit value of the device register at `slot`.
    pub fn mmio_reg(&self, slot: u32) -> (r: u16)
        ensures
            r == reg_value(*self, slot),
    {
        if slot == VDP_STATUS {
            (if self.line >= VISIBLE_LINES { 0x8000u16 } else { 0u16 }) | (self.line as u16)
        } else if slot == IRQ_ENABLE {
            self.irq_enable
        } else if slot == IRQ_ACK {
            self.irq_pending
        } else if slot == LINE_COMPARE {
            self.line_compare
        } else if slot == BRIGHTNESS {
            self.brightness as u16
        } else if slot == LINE_INTERVAL {
            self.line_interval
        } else if slot == MOUSE_X {
            self.mouse[0] as u16
        } else if slot == MOUSE_Y {
            self.mouse[1] as u16
        } else if slot == PAD_1 {
            self.pads[0]
        } else if slot == PAD_2 {
            self.pads[1]
        } else if slot == RESET_REASON {
            self.reset_reason
        } else {
            0
        }
    }

    fn byte(&self, a: u32) -> (r: u8)
        ensures
            r == byte_at(*self, a as int),
    {
        if AUDIO_BASE <= a && a < AUDIO_END {
            self.apu.read(a - AUDIO_BASE)
        } else if a >= MMIO_BASE {
            let v = self.mmio_reg(a & 0xFFFF_FFFC);
            let k = a & 3;
            if k == 0 {
                (v >> 8) as u8
            } else if k == 1 {
                v as u8
            } else {
                0
            }
        } else if (a as usize) < self.mem.len() {
            self.mem[a as usize]
        } else {
            0
        }
    }

    /// Reads `bytes` bytes at `address`, big-endian, the address wrapping
    /// at 4 GiB.
    pub fn read(&self, address: u32, bytes: usize) -> (r: u32)
        requires
            bytes <= 4,
        ensures
            r == read_value(*self, address, bytes as nat),
    {
        let mut v: u32 = 0;
        let mut i: usize = 0;
        while i < bytes
            invariant
                bytes <= 4,
                i <= bytes,
                v == read_value(*self, address, i as nat),
                v < place(i as nat),
            decreases bytes - i,
        {
            proof {
                lemma_wrapping_addr(address, i as u32);
            }
            let a = address.wrapping_add(i as u32);
            let b = self.byte(a);
            assert((v << 8) | (b as u32) == v * 256 + b) by (bit_vector)
                requires
                    v < 0x100_0000,
            ;
            v = (v << 8) | (b as u32);
            i = i + 1;
        }
        v
    }

    /// Writes the low `bytes` bytes of `value` at `address`, big-endian.
    /// Bytes in the audio block go to the audio register file. A write
    /// that starts in the audio block does nothing else; one that starts
    /// elsewhere in the MMIO space writes the register of its slot, with
    /// the whole value; one that starts below it stores its bytes in
    /// memory, where memory exists.
    pub fn write(&mut self, address: u32, value: u32, bytes: usize) -> (r: BusWrite)
        requires
            1 <= bytes <= 4,
            old(self).mem@.len() <= 0x1_0000_0000,
        ensures
            (final(self).apu.state(), r.pcm@) == apu_after(old(self).apu.state(), address, value, bytes as nat, bytes as nat),
            r.echo == (if reg_write(address, DEBUG_PUTC) && is_printable(value as u8) {
                Some(value as u8)
            } else {
                None::<u8>
            }),
            final(self).irq_enable == if reg_write(address, IRQ_ENABLE) {
                (value as u16) & 3
            } else {
                old(self).irq_enable
            },
            final(self).irq_pending == if reg_write(address, IRQ_ACK) {
                old(self).irq_pending & !(value as u16)
            } else {
                old(self).irq_pending
            },
            final(self).line_compare == if reg_write(address, LINE_COMPARE) {
                value as u16
            } else {
                old(self).line_compare
            },
            final(self).brightness == if reg_write(address, BRIGHTNESS) {
                value as u8
            } else {
                old(self).brightness
            },
            final(self).line_interval == if reg_write(address, LINE_INTERVAL) {
                value as u16
            } else {
                old(self).line_interval
            },
            final(self).reset_reason == if reg_write(address, RESET_REASON) {
                value as u16
            } else {
                old(self).reset_reason
            },
            final(self).debug_out@ == if reg_write(address, DEBUG_PUTC) && old(self).debug_out@.len()
                < DEBUG_OUT_CAP {
                old(self).debug_out@.push(value as u8)
            } else {
                old(self).debug_out@
            },
            old(self).debug_out@.len() <= DEBUG_OUT_CAP ==> final(self).debug_out@.len() <= DEBUG_OUT_CAP,
            final(self).line == old(self).line,
            final(self).mouse == old(self).mouse,
            final(self).pads == old(self).pads,
            final(self).mem@.len() == old(self).mem@.len(),
            reg_write(address, TPU_TAIL) ==> (final(self).tpu, final(self).mem@) == run_effect(
                Tpu { tail: value as u16, ..old(self).tpu },
                old(self).mem@,
            ),
            !reg_write(address, TPU_TAIL) ==> final(self).tpu == old(self).tpu,
            !reg_write(address, TPU_TAIL) ==> forall|j: int|
                0 <= j < old(self).mem@.len() ==> final(self).mem@[j] == mem_after(
                    old(self).mem@,
                    address,
                    value,
                    bytes as nat,
                    j,
                ),
    {
        let mut keys: Vec<PcmKey> = Vec::new();
        let mut i: usize = 0;
        while i < bytes
            invariant
                1 <= bytes <= 4,
                i <= bytes,
                (self.apu.state(), keys@) == apu_after(old(self).apu.state(), address, value, bytes as nat, i as nat),
                same_regs(*self, *old(self)),
                self.mem@ == old(self).mem@,
                self.debug_out@ == old(self).debug_out@,
            decreases bytes - i,
        {
            proof {
                lemma_wrapping_addr(address, i as u32);
            }
            let a = address.wrapping_add(i as u32);
            if AUDIO_BASE <= a && a < AUDIO_END {
                let b = (value >> ((8 * (bytes - 1 - i)) as u32)) as u8;
                match self.apu.write(a - AUDIO_BASE, b) {
                    Some(k) => keys.push(k),
                    None => {},
                }
            }
            i = i + 1;
        }
        let ghost mid = self.apu.state();
        if AUDIO_BASE <= address && address < AUDIO_END {
            assert forall|j: int| 0 <= j < self.mem@.len() implies self.mem@[j] == mem_after(
                self.mem@,
                address,
                value,
                bytes as nat,
                j,
            ) by {}
            return BusWrite { pcm: keys, echo: None };
        }
        if address >= MMIO_BASE {
            let slot = address & 0xFFFF_FFFC;
            let mut echo: Option<u8> = None;
            if slot == IRQ_ENABLE {
                self.irq_enable = value as u16 & 3;
            } else if slot == IRQ_ACK {
                self.irq_pending = self.irq_pending & !(value as u16);
            } else if slot == LINE_COMPARE {
                self.line_compare = value as u16;
            } else if slot == BRIGHTNESS {
                self.brightness = value as u8;
            } else if slot == LINE_INTERVAL {
                self.line_interval = value as u16;
            } else if slot == DEBUG_PUTC {
                let b = value as u8;
                if self.debug_out.len() < DEBUG_OUT_CAP {
                    self.debug_out.push(b);
                }
                if printable(b) {
                    echo = Some(b);
                }
            } else if slot == RESET_REASON {
                self.reset_reason = value as u16;
            } else if slot == TPU_TAIL {
                self.tpu.tail = value as u16;
                run(&mut self.tpu, self.mem.as_mut_slice());
            }
            return BusWrite { pcm: keys, echo };
        }
        let ghost m0 = self.mem@;
        let mut i: usize = 0;
        while i < bytes
            invariant
                1 <= bytes <= 4,
                i <= bytes,
                address < MMIO_BASE,
                same_regs(*self, *old(self)),
                self.apu.state() == mid,
                m0.len() <= 0x1_0000_0000,
                self.mem@.len() == m0.len(),
                forall|j: int|
                    0 <= j < m0.len() ==> self.mem@[j] == if (j - address) % 0x1_0000_0000 < i {
                        byte_of(value, bytes as nat, (j - address) % 0x1_0000_0000)
                    } else {
                        m0[j]
                    },
            decreases bytes - i,
        {
            proof {
                lemma_wrapping_addr(address, i as u32);
            }
            let a = address.wrapping_add(i as u32) as usize;
            let b = (value >> ((8 * (bytes - 1 - i)) as u32)) as u8;
            if a < self.mem.len() {
                self.mem.set(a, b);
            }
            proof {
                assert forall|j: int| 0 <= j < m0.len() implies self.mem@[j] == if (j - address)
                    % 0x1_0000_0000 < i + 1 {
                    byte_of(value, bytes as nat, (j - address) % 0x1_0000_0000)
                } else {
                    m0[j]
                } by {
                    lemma_offset(address, i as int, j);
                }
            }
            i = i + 1;
        }
        BusWrite { pcm: keys, echo: None }
    }

    /// Copies a cart image to `CART_BASE` once it checks out; on a bad
    /// image nothing changes.
    pub fn load_cart(&mut self, cart: &[u8]) -> (r: Result<(), CartError>)
        requires
            old(self).mem@.len() == MEM_END,
        ensures
            r is Ok <==> parse_spec(cart@) is Ok,
            r matches Err(e) ==> parse_spec(cart@) == Err::<u32, CartError>(e) && *final(self) == *old(self),
            r is Ok ==> {
                &&& final(self).mem@.len() == MEM_END
                &&& forall|i: int| 0 <= i < cart@.len() ==> final(self).mem@[CART_BASE + i] == cart@[i]
                &&& forall|i: int|
                    0 <= i < MEM_END && !(CART_BASE <= i < CART_BASE + cart@.len())
                        ==> final(self).mem@[i] == old(self).mem@[i]
            },
            final(self).brightness == old(self).brightness,
            final(self).debug_out == old(self).debug_out,
            final(self).irq_enable == old(self).irq_enable,
            final(self).irq_pending == old(self).irq_pending,
            final(self).line == old(self).line,
            final(self).line_compare == old(self).line_compare,
            final(self).line_interval == old(self).line_interval,
            final(self).mouse == old(self).mouse,
            final(self).pads == old(self).pads,
            final(self).reset_reason == old(self).reset_reason,
            final(self).tpu == old(self).tpu,
            final(self).apu.state() == old(self).apu.state(),
    {
        match parse(cart) {
            Err(e) => Err(e),
            Ok(_) => {
                let ghost m0 = self.mem@;
                let base = CART_BASE as usize;
                let mut i: usize = 0;
                while i < cart.len()
                    invariant
                        cart@.len() <= CART_SIZE,
                        base == CART_BASE,
                        same_regs(*self, *old(self)),
                        self.apu.state() == old(self).apu.state(),
                        m0.len() == MEM_END,
                        i <= cart@.len(),
                        self.mem@.len() == MEM_END,
                        forall|j: int| 0 <= j < i ==> self.mem@[CART_BASE + j] == cart@[j],
                        forall|j: int|
                            0 <= j < MEM_END && !(CART_BASE <= j < CART_BASE + i) ==> self.mem@[j]
                                == m0[j],
                    decreases cart@.len() - i,
                {
                    self.mem.set(base + i, cart[i]);
                    i = i + 1;
                }
                Ok(())
            },
        }
    }

    /// Puts the device registers, the audio register file and the TPU back
    /// to their power-on values after a cart reload, clears the video mode
    /// and framebuffer base words, and records the reload as the reset
    /// reason. The rest of memory, the debug console, the line counter and
    /// the inputs stay.
    pub fn reset_devices(&mut self)
        requires
            old(self).mem@.len() == MEM_END,
        ensures
            final(self).tpu == (Tpu { deficit: 0, head: 0, pixels: 0, tail: 0, budget: PIXEL_BUDGET }),
            final(self).apu.state() == apu_power_on(),
            final(self).mem@.len() == MEM_END,
            forall|i: int|
                0 <= i < MEM_END ==> final(self).mem@[i] == if VDP_MODE <= i < VDP_MODE + 2 || FB_BASE <= i
                    < FB_BASE + 4 {
                    0u8
                } else {
                    old(self).mem@[i]
                },
            final(self).irq_enable == 0,
            final(self).irq_pending == 0,
            final(self).line_compare == 0,
            final(self).line_interval == 0,
            final(self).brightness == 255,
            final(self).reset_reason == RESET_RELOAD,
            final(self).debug_out == old(self).debug_out,
            final(self).line == old(self).line,
            final(self).mouse == old(self).mouse,
            final(self).pads == old(self).pads,
    {
        self.irq_enable = 0;
        self.irq_pending = 0;
        self.line_compare = 0;
        self.line_interval = 0;
        self.brightness = 255;
        self.reset_reason = RESET_RELOAD;
        self.tpu.reset();
        self.apu = ApuRegs::new();
        let m = VDP_MODE as usize;
        let f = FB_BASE as usize;
        self.mem.set(m, 0);
        self.mem.set(m + 1, 0);
        self.mem.set(f, 0);
        self.mem.set(f + 1, 0);
        self.mem.set(f + 2, 0);
        self.mem.set(f + 3, 0);
    }
}

/// Memory reads back what was written: after a write of `bytes` bytes of
/// `value` to plain memory, a read of the same bytes gives the low `bytes`
/// bytes of `value`.
pub proof fn law_memory_reads_back(before: Bus, after: Bus, address: u32, value: u32, bytes: nat)
    requires
        1 <= bytes <= 4,
        address + bytes <= before.mem@.len(),
        before.mem@.len() <= MMIO_BASE,
        after.mem@.len() == before.mem@.len(),
        forall|j: int| 0 <= j < before.mem@.len() ==> after.mem@[j] == mem_after(before.mem@, address, value, bytes, j),
    ensures
        read_value(after, address, bytes) == value as int % place(bytes),
{
    let m = 0x1_0000_0000int;
    assert forall|i: int| 0 <= i < bytes implies #[trigger] addr_at(address, i) == address + i
        && byte_at(after, addr_at(address, i)) == byte_of(value, bytes, i) by {
        vstd::arithmetic::div_mod::lemma_fundamental_div_mod_converse(address + i, m, 0, address + i);
        vstd::arithmetic::div_mod::lemma_fundamental_div_mod_converse(i, m, 0, i);
        assert(mem_after(before.mem@, address, value, bytes, address + i) == byte_of(value, bytes, i));
    }
    reveal_with_fuel(read_value, 5);
    assert(addr_at(address, 0) == address + 0);
    if bytes == 1 {
        assert(byte_of(value, 1, 0) == value % 0x100) by (bit_vector);
    } else if bytes == 2 {
        assert(addr_at(address, 1) == address + 1);
        assert(byte_of(value, 2, 0) * 0x100 + byte_of(value, 2, 1) == value % 0x1_0000) by (bit_vector);
    } else if bytes == 3 {
        assert(addr_at(address, 1) == address + 1);
        assert(addr_at(address, 2) == address + 2);
        assert((byte_of(value, 3, 0) * 0x100 + byte_of(value, 3, 1)) * 0x100 + byte_of(value, 3, 2)
            == value % 0x100_0000) by (bit_vector);
    } else {
        assert(addr_at(address, 1) == address + 1);
        assert(addr_at(address, 2) == address + 2);
        assert(addr_at(address, 3) == address + 3);
        assert(((byte_of(value, 4, 0) * 0x100 + byte_of(value, 4, 1)) * 0x100 + byte_of(value, 4, 2))
            * 0x100 + byte_of(value, 4, 3) == value) by (bit_vector);
    }
}


} // verus!

