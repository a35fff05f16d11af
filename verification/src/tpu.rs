//! The triangle processing unit: a command ring in TPU RAM that the CPU
//! fills and the TPU drains once per frame, under a per-frame pixel budget.
//! Commands fill rectangles or rasterise textured, shaded, depth-tested
//! triangles into an 8-bit colour target and a 16-bit depth target.
//!
//! Every address the TPU forms is an offset into TPU RAM; a read that falls
//! outside `mem` yields zero and a write that falls outside is dropped.

use vstd::prelude::*;
use crate::bus::TPU_RAM_BASE;
use crate::raster::{tri_effect, exec_tri};
use vstd::arithmetic::power2::{pow2, lemma2_to64, lemma_pow2_unfold, lemma_pow2_strictly_increases, lemma_pow2_pos};

verus! {

pub const PIXEL_BUDGET: u32 = 833_333;

pub const FILL_COLOR: u8 = 0x01;
pub const FILL_WORDS: u16 = 5;
pub const FILL_Z: u8 = 0x02;
pub const OP_FILL: u8 = 0x02;

pub const OP_TRI: u8 = 0x01;
pub const TRI_BLEND: u8 = 0x01;
pub const TRI_WORDS: u16 = 25;
pub const TRI_ZGREATER: u8 = 0x02;
pub const TRI_ZTEST_OFF: u8 = 0x04;
pub const TRI_ZWRITE_OFF: u8 = 0x08;

// ---------------------------------------------------------------------------
// TPU RAM as seen through the bounds-checked accessors.

/// The byte at TPU RAM offset `off`, or zero past the end of memory.
pub open spec fn rd8(m: Seq<u8>, off: int) -> u8 {
    let a = TPU_RAM_BASE + off;
    if 0 <= a < m.len() { m[a] } else { 0 }
}

/// The big-endian word at TPU RAM offset `off`, or zero unless both bytes
/// lie inside memory.
pub open spec fn rd16(m: Seq<u8>, off: int) -> u16 {
    let a = TPU_RAM_BASE + off;
    if 0 <= a && a + 2 <= m.len() {
        (m[a] as int * 0x100 + m[a + 1] as int) as u16
    } else {
        0
    }
}

/// The big-endian long at TPU RAM offset `off`, or zero unless all four
/// bytes lie inside memory.
pub open spec fn rd32(m: Seq<u8>, off: int) -> u32 {
    let a = TPU_RAM_BASE + off;
    if 0 <= a && a + 4 <= m.len() {
        (m[a] as int * 0x100_0000 + m[a + 1] as int * 0x1_0000 + m[a + 2] as int * 0x100
            + m[a + 3] as int) as u32
    } else {
        0
    }
}

/// Memory after storing byte `v` at TPU RAM offset `off` (dropped if out of range).
pub open spec fn wr8(m: Seq<u8>, off: int, v: u8) -> Seq<u8> {
    let a = TPU_RAM_BASE + off;
    if 0 <= a < m.len() { m.update(a, v) } else { m }
}

/// Memory after storing `v` big-endian at TPU RAM offset `off`; dropped
/// unless both bytes fit.
pub open spec fn wr16(m: Seq<u8>, off: int, v: u16) -> Seq<u8> {
    let a = TPU_RAM_BASE + off;
    if 0 <= a && a + 2 <= m.len() {
        m.update(a, (v / 0x100) as u8).update(a + 1, (v % 0x100) as u8)
    } else {
        m
    }
}

proof fn lemma_be16(a: u8, b: u8)
    ensures
        ((a as u16) << 8u16) | (b as u16) == (a as int * 0x100 + b as int) as u16,
{
    assert(((a as u16) << 8u16) | (b as u16) == a as u16 * 256 + b as u16) by (bit_vector);
}

proof fn lemma_be32(a: u8, b: u8, c: u8, d: u8)
    ensures
        ((a as u32) << 24u32) | ((b as u32) << 16u32) | ((c as u32) << 8u32) | (d as u32) == (a
            as int * 0x100_0000 + b as int * 0x1_0000 + c as int * 0x100 + d as int) as u32,
{
    assert(((a as u32) << 24u32) | ((b as u32) << 16u32) | ((c as u32) << 8u32) | (d as u32)
        == a as u32 * 0x100_0000 + b as u32 * 0x1_0000 + c as u32 * 0x100 + d as u32)
        by (bit_vector);
}

/// Index of TPU RAM offset `offset` in `mem`, when `len` bytes from there fit.
fn tpu_addr(mem_len: usize, offset: u64, len: u64) -> (r: Option<usize>)
    requires
        1 <= len <= 4,
    ensures
        match r {
            Some(a) => a == TPU_RAM_BASE + offset && a + len <= mem_len,
            None => !(TPU_RAM_BASE + offset + len <= mem_len),
        },
{
    let n = mem_len as u64;
    let base = TPU_RAM_BASE as u64;
    if n >= len && n - len >= base && offset <= n - len - base {
        Some((base + offset) as usize)
    } else {
        None
    }
}

pub(crate) fn read_u8(mem: &[u8], offset: u64) -> (r: u8)
    ensures
        r == rd8(mem@, offset as int),
{
    match tpu_addr(mem.len(), offset, 1) {
        Some(a) => mem[a],
        None => 0,
    }
}

pub(crate) fn read_u16(mem: &[u8], offset: u64) -> (r: u16)
    ensures
        r == rd16(mem@, offset as int),
{
    match tpu_addr(mem.len(), offset, 2) {
        Some(a) => {
            proof {
                lemma_be16(mem@[a as int], mem@[a + 1]);
            }
            ((mem[a] as u16) << 8u16) | (mem[a + 1] as u16)
        },
        None => 0,
    }
}

pub(crate) fn read_u32(mem: &[u8], offset: u64) -> (r: u32)
    ensures
        r == rd32(mem@, offset as int),
{
    match tpu_addr(mem.len(), offset, 4) {
        Some(a) => {
            proof {
                lemma_be32(mem@[a as int], mem@[a + 1], mem@[a + 2], mem@[a + 3]);
            }
            ((mem[a] as u32) << 24u32) | ((mem[a + 1] as u32) << 16u32) | ((mem[a + 2] as u32)
                << 8u32) | (mem[a + 3] as u32)
        },
        None => 0,
    }
}

pub(crate) fn write_u8(mem: &mut [u8], offset: u64, v: u8)
    ensures
        final(mem)@ == wr8(old(mem)@, offset as int, v),
        final(mem)@.len() == old(mem)@.len(),
{
    match tpu_addr(mem.len(), offset, 1) {
        Some(a) => {
            mem[a] = v;
        },
        None => {},
    }
}

pub(crate) fn write_u16(mem: &mut [u8], offset: u64, v: u16)
    ensures
        final(mem)@ == wr16(old(mem)@, offset as int, v),
        final(mem)@.len() == old(mem)@.len(),
{
    match tpu_addr(mem.len(), offset, 2) {
        Some(a) => {
            mem[a] = (v / 0x100) as u8;
            mem[a + 1] = (v % 0x100) as u8;
        },
        None => {},
    }
}


// ---------------------------------------------------------------------------
// The state block, the command ring and the budget.

/// The registers the CPU programs at the start of TPU RAM.
pub struct StateBlock {
    pub ring_base: u32,
    pub ring_words: u32,
    pub color_base: u32,
    pub z_base: u32,
    pub width: u16,
    pub height: u16,
}

/// The state block as it reads from TPU RAM offsets 0..20.
pub open spec fn state_block(m: Seq<u8>) -> StateBlock {
    StateBlock {
        ring_base: rd32(m, 0),
        ring_words: rd32(m, 4),
        color_base: rd32(m, 8),
        z_base: rd32(m, 12),
        width: rd16(m, 16),
        height: rd16(m, 18),
    }
}

fn read_state_block(mem: &[u8]) -> (b: StateBlock)
    ensures
        b == state_block(mem@),
{
    StateBlock {
        ring_base: read_u32(mem, 0),
        ring_words: read_u32(mem, 4),
        color_base: read_u32(mem, 8),
        z_base: read_u32(mem, 12),
        width: read_u16(mem, 16),
        height: read_u16(mem, 18),
    }
}

/// A ring is usable when its length in words is a power of two no larger
/// than 0x1_0000.
pub open spec fn is_valid_ring(ring_words: u32) -> bool {
    exists|k: nat| k <= 16 && #[trigger] pow2(k) == ring_words
}

fn valid_ring(ring_words: u32) -> (r: bool)
    ensures
        r == is_valid_ring(ring_words),
{
    let mut p: u32 = 1;
    let ghost mut k: nat = 0;
    proof {
        lemma2_to64();
    }
    while p <= 0x1_0000
        invariant
            p == pow2(k),
            1 <= p <= 0x2_0000,
            forall|j: nat| j < k ==> #[trigger] pow2(j) != ring_words,
        decreases 0x2_0000 - p,
    {
        if p == ring_words {
            proof {
                lemma2_to64();
                if k > 16 {
                    lemma_pow2_strictly_increases(16, k);
                }
            }
            assert(pow2(k) == ring_words);
            return true;
        }
        proof {
            lemma_pow2_unfold(k + 1);
            k = k + 1;
        }
        p = p * 2;
    }
    proof {
        if k < 16 {
            lemma_pow2_strictly_increases(k, 16);
        }
    }
    assert forall|j: nat| j <= 16 implies #[trigger] pow2(j) != ring_words by {}
    false
}

/// The ring word `i` places after `head`, wrapping around the ring.
pub open spec fn ring_word_at(m: Seq<u8>, b: StateBlock, head: u16, i: int) -> u32 {
    rd32(m, b.ring_base + ((head + i) % (b.ring_words as int)) * 4)
}

pub(crate) fn ring_word(mem: &[u8], block: &StateBlock, head: u16, i: u32) -> (r: u32)
    requires
        block.ring_words > 0,
    ensures
        r == ring_word_at(mem@, *block, head, i as int),
{
    let idx = (head as u64 + i as u64) % block.ring_words as u64;
    read_u32(mem, block.ring_base as u64 + idx * 4)
}

/// The TPU's drain state. `head` and `tail` are word indices into the ring
/// that wrap at 2^16; `budget` is the pixel allowance left in this frame,
/// `pixels` what this frame has spent so far, and `deficit` the overshoot
/// carried into the next frame.
pub struct Tpu {
    pub deficit: u32,
    pub head: u16,
    pub pixels: u32,
    pub tail: u16,
    pub budget: u32,
}

pub open spec fn add32(a: u32, b: u32) -> u32 {
    ((a as int + b as int) % 0x1_0000_0000) as u32
}

/// The drain state after a command of `cost` pixels: the cost is counted in
/// `pixels`; the budget pays what it can and the rest becomes deficit.
pub open spec fn charged(t: Tpu, cost: u32) -> Tpu {
    Tpu {
        pixels: add32(t.pixels, cost),
        deficit: if cost > t.budget {
            add32(t.deficit, (cost - t.budget) as u32)
        } else {
            t.deficit
        },
        budget: if cost > t.budget {
            0
        } else {
            (t.budget - cost) as u32
        },
        ..t
    }
}

fn charge(state: &mut Tpu, cost: u32)
    ensures
        *final(state) == charged(*old(state), cost),
{
    state.pixels = state.pixels.wrapping_add(cost);
    if cost > state.budget {
        state.deficit = state.deficit.wrapping_add(cost - state.budget);
        state.budget = 0;
    } else {
        state.budget = state.budget - cost;
    }
}

// ---------------------------------------------------------------------------
// FILL: a half-open rectangle of colour and/or depth, clipped to the target.

pub open spec fn clamp(v: int, lo: int, hi: int) -> int {
    if v < lo {
        lo
    } else if v > hi {
        hi
    } else {
        v
    }
}

/// A decoded FILL command, its rectangle already clipped to the target.
pub struct FillCmd {
    pub do_color: bool,
    pub do_z: bool,
    pub color: u8,
    pub z: u16,
    pub cx0: int,
    pub cy0: int,
    pub cx1: int,
    pub cy1: int,
}

/// The signed 16-bit half of a command word: the upper half when `hi`.
pub open spec fn half(w: u32, hi: bool) -> int {
    (if hi {
        (w / 0x1_0000) as u16
    } else {
        (w % 0x1_0000) as u16
    }) as i16 as int
}

/// The FILL command whose first word is at ring index `head`.
pub open spec fn fill_cmd(m: Seq<u8>, b: StateBlock, head: u16) -> FillCmd {
    let w0 = ring_word_at(m, b, head, 0);
    let w1 = ring_word_at(m, b, head, 1);
    let w2 = ring_word_at(m, b, head, 2);
    let w3 = ring_word_at(m, b, head, 3);
    let w4 = ring_word_at(m, b, head, 4);
    let flags = (w0 % 0x100) as u8;
    FillCmd {
        do_color: flags & FILL_COLOR != 0,
        do_z: flags & FILL_Z != 0,
        color: (w3 % 0x100) as u8,
        z: (w4 % 0x1_0000) as u16,
        cx0: clamp(half(w1, true), 0, b.width as int),
        cy0: clamp(half(w1, false), 0, b.height as int),
        cx1: clamp(half(w2, true), 0, b.width as int),
        cy1: clamp(half(w2, false), 0, b.height as int),
    }
}

/// Whether the clipped rectangle is empty (the command then does nothing).
pub open spec fn fill_empty(f: FillCmd) -> bool {
    f.cx1 <= f.cx0 || f.cy1 <= f.cy0
}

/// The pixels a FILL covers, charged a quarter pixel each, rounded up.
pub open spec fn fill_cost(f: FillCmd) -> u32 {
    if fill_empty(f) {
        0
    } else {
        (((f.cx1 - f.cx0) * (f.cy1 - f.cy0) + 3) / 4) as u32
    }
}

/// Memory after filling pixel (x, y): colour byte first, then the depth word.
pub open spec fn fill_px(m: Seq<u8>, f: FillCmd, b: StateBlock, x: int, y: int) -> Seq<u8> {
    let px = y * b.width + x;
    let m1 = if f.do_color { wr8(m, b.color_base + px, f.color) } else { m };
    if f.do_z { wr16(m1, b.z_base + px * 2, f.z) } else { m1 }
}

/// Memory after filling the first `n` pixels of row `y`, left to right.
pub open spec fn fill_row(m: Seq<u8>, f: FillCmd, b: StateBlock, y: int, n: nat) -> Seq<u8>
    decreases n,
{
    if n == 0 {
        m
    } else {
        fill_px(fill_row(m, f, b, y, (n - 1) as nat), f, b, f.cx0 + n - 1, y)
    }
}

/// Memory after filling the first `n` rows of the rectangle, top to bottom.
pub open spec fn fill_rows(m: Seq<u8>, f: FillCmd, b: StateBlock, n: nat) -> Seq<u8>
    decreases n,
{
    if n == 0 {
        m
    } else {
        fill_row(fill_rows(m, f, b, (n - 1) as nat), f, b, f.cy0 + n - 1, (f.cx1 - f.cx0) as nat)
    }
}

/// Memory after executing a FILL command.
pub open spec fn fill_mem(m: Seq<u8>, f: FillCmd, b: StateBlock) -> Seq<u8> {
    if fill_empty(f) {
        m
    } else {
        fill_rows(m, f, b, (f.cy1 - f.cy0) as nat)
    }
}

pub proof fn lemma_mul_le(a: int, b: int, c: int, d: int)
    requires
        0 <= a <= c,
        0 <= b <= d,
    ensures
        a * b <= c * d,
{
    assert(a * b <= c * d) by (nonlinear_arith)
        requires
            0 <= a <= c,
            0 <= b <= d,
    ;
}

pub(crate) fn clamp_i32(v: i32, lo: i32, hi: i32) -> (r: i32)
    requires
        lo <= hi,
    ensures
        r == clamp(v as int, lo as int, hi as int),
{
    if v < lo {
        lo
    } else if v > hi {
        hi
    } else {
        v
    }
}

fn exec_fill(mem: &mut [u8], block: &StateBlock, head: u16) -> (cost: u32)
    requires
        block.ring_words > 0,
    ensures
        cost == fill_cost(fill_cmd(old(mem)@, *block, head)),
        final(mem)@ == fill_mem(old(mem)@, fill_cmd(old(mem)@, *block, head), *block),
        final(mem)@.len() == old(mem)@.len(),
{
    let ghost m0 = mem@;
    let ghost f = fill_cmd(mem@, *block, head);
    let w0 = ring_word(mem, block, head, 0);
    let w1 = ring_word(mem, block, head, 1);
    let w2 = ring_word(mem, block, head, 2);
    let w3 = ring_word(mem, block, head, 3);
    let w4 = ring_word(mem, block, head, 4);

    let flags = (w0 % 0x100) as u8;
    let x0 = ((w1 / 0x1_0000) as u16 as i16) as i32;
    let y0 = ((w1 % 0x1_0000) as u16 as i16) as i32;
    let x1 = ((w2 / 0x1_0000) as u16 as i16) as i32;
    let y1 = ((w2 % 0x1_0000) as u16 as i16) as i32;
    let color = (w3 % 0x100) as u8;
    let z = (w4 % 0x1_0000) as u16;

    let width = block.width as i32;
    let height = block.height as i32;
    let cx0 = clamp_i32(x0, 0, width);
    let cy0 = clamp_i32(y0, 0, height);
    let cx1 = clamp_i32(x1, 0, width);
    let cy1 = clamp_i32(y1, 0, height);

    if cx1 <= cx0 || cy1 <= cy0 {
        return 0;
    }

    let do_color = flags & FILL_COLOR != 0;
    let do_z = flags & FILL_Z != 0;
    assert(f.cx0 == cx0 && f.cx1 == cx1 && f.cy0 == cy0 && f.cy1 == cy1);

    let mut y = cy0;
    while y < cy1
        invariant
            cy0 <= y <= cy1,
            0 <= cx0 < cx1 <= block.width,
            0 <= cy0 < cy1 <= block.height,
            f == fill_cmd(m0, *block, head),
            f.cx0 == cx0 && f.cx1 == cx1 && f.cy0 == cy0 && f.cy1 == cy1,
            f.do_color == do_color && f.do_z == do_z && f.color == color && f.z == z,
            mem@ == fill_rows(m0, f, *block, (y - cy0) as nat),
            mem@.len() == m0.len(),
        decreases cy1 - y,
    {
        let ghost row_start = mem@;
        let mut x = cx0;
        while x < cx1
            invariant
                cx0 <= x <= cx1,
                cy0 <= y < cy1,
                0 <= cx0 < cx1 <= block.width,
                0 <= cy0 < cy1 <= block.height,
                f.cx0 == cx0 && f.cx1 == cx1 && f.cy0 == cy0 && f.cy1 == cy1,
                f.do_color == do_color && f.do_z == do_z && f.color == color && f.z == z,
                mem@ == fill_row(row_start, f, *block, y as int, (x - cx0) as nat),
                mem@.len() == m0.len(),
            decreases cx1 - x,
        {
            proof {
                lemma_mul_le(y as int, block.width as int, 0xFFFF, 0xFFFF);
            }
            let px = y as u64 * block.width as u64 + x as u64;
            if do_color {
                write_u8(mem, block.color_base as u64 + px, color);
            }
            if do_z {
                write_u16(mem, block.z_base as u64 + px * 2, z);
            }
            x = x + 1;
        }
        y = y + 1;
    }
    proof {
        lemma_mul_le((cx1 - cx0) as int, (cy1 - cy0) as int, 0xFFFF, 0xFFFF);
    }
    let covered = (cx1 - cx0) as u32 * (cy1 - cy0) as u32;
    covered / 4 + if covered % 4 != 0 { 1u32 } else { 0u32 }
}


// ---------------------------------------------------------------------------
// Draining the ring.

/// The opcode in the top byte of a command's first word.
pub open spec fn opcode_at(m: Seq<u8>, b: StateBlock, head: u16) -> u8 {
    (ring_word_at(m, b, head, 0) / 0x100_0000) as u8
}

/// The length in words of the command at `head`: an unknown opcode is
/// skipped one word at a time.
pub open spec fn cmd_words(m: Seq<u8>, b: StateBlock, head: u16) -> u16 {
    let op = opcode_at(m, b, head);
    if op == OP_FILL {
        FILL_WORDS
    } else if op == OP_TRI {
        TRI_WORDS
    } else {
        1
    }
}

/// Cost and resulting memory of the command at `head`; an unknown opcode
/// costs nothing and changes nothing.
#[verifier::opaque]
pub open spec fn cmd_effect(m: Seq<u8>, b: StateBlock, head: u16) -> (u32, Seq<u8>) {
    let op = opcode_at(m, b, head);
    if op == OP_FILL {
        let f = fill_cmd(m, b, head);
        (fill_cost(f), fill_mem(m, f, b))
    } else if op == OP_TRI {
        let r = tri_effect(m, b, head);
        (r.1, r.0)
    } else {
        (0, m)
    }
}

/// Executes commands from `head` while `left` words remain queued and the
/// budget is not spent. Each command runs to completion and is charged; a
/// command longer than what is left ends the drain with head on tail.
pub open spec fn drain(t: Tpu, m: Seq<u8>, b: StateBlock, left: u16) -> (Tpu, Seq<u8>)
    decreases left,
{
    if left == 0 || t.budget == 0 {
        (t, m)
    } else {
        let (cost, m2) = cmd_effect(m, b, t.head);
        let words = cmd_words(m, b, t.head);
        let t2 = charged(t, cost);
        if words > left {
            (Tpu { head: t.tail, ..t2 }, m2)
        } else {
            drain(Tpu { head: t.head.wrapping_add(words), ..t2 }, m2, b, (left - words) as u16)
        }
    }
}

/// The drain state and memory after one drain of the ring. An invalid ring
/// executes nothing and discards what was queued.
pub open spec fn run_effect(t: Tpu, m: Seq<u8>) -> (Tpu, Seq<u8>) {
    let b = state_block(m);
    if !is_valid_ring(b.ring_words) {
        (Tpu { head: t.tail, ..t }, m)
    } else {
        drain(t, m, b, t.tail.wrapping_sub(t.head))
    }
}

fn exec_cmd(mem: &mut [u8], block: &StateBlock, head: u16) -> (r: (u32, u16))
    requires
        block.ring_words > 0,
    ensures
        r.0 == cmd_effect(old(mem)@, *block, head).0,
        r.1 == cmd_words(old(mem)@, *block, head),
        final(mem)@ == cmd_effect(old(mem)@, *block, head).1,
        final(mem)@.len() == old(mem)@.len(),
{
    proof {
        reveal(cmd_effect);
    }
    let word0 = ring_word(mem, block, head, 0);
    let opcode = (word0 / 0x100_0000) as u8;
    if opcode == OP_FILL {
        (exec_fill(mem, block, head), FILL_WORDS)
    } else if opcode == OP_TRI {
        (exec_tri(mem, block, head), TRI_WORDS)
    } else {
        (0, 1)
    }
}

/// Drains the command ring: executes queued commands in order until the
/// ring is empty or this frame's pixel budget is spent.
pub fn run(state: &mut Tpu, mem: &mut [u8])
    ensures
        (*final(state), final(mem)@) == run_effect(*old(state), old(mem)@),
        final(mem)@.len() == old(mem)@.len(),
{
    let block = read_state_block(mem);
    if !valid_ring(block.ring_words) {
        state.head = state.tail;
        return;
    }
    proof {
        let k = choose|k: nat| k <= 16 && #[trigger] pow2(k) == block.ring_words;
        lemma_pow2_pos(k);
    }
    let ghost b = block;
    let mut left = state.tail.wrapping_sub(state.head);
    let ghost target = drain(*state, mem@, b, left);
    while left > 0 && state.budget > 0
        invariant_except_break
            drain(*state, mem@, b, left) == target,
        invariant
            b == block,
            block.ring_words > 0,
            mem@.len() == old(mem)@.len(),
        ensures
            (*state, mem@) == target,
        decreases left,
    {
        let (cost, words) = exec_cmd(mem, &block, state.head);
        charge(state, cost);
        if words > left {
            state.head = state.tail;
            break;
        }
        left = left - words;
        state.head = state.head.wrapping_add(words);
    }
}

impl Default for Tpu {
    fn default() -> (t: Tpu)
        ensures
            t == (Tpu { deficit: 0, head: 0, pixels: 0, tail: 0, budget: PIXEL_BUDGET }),
    {
        Tpu::new()
    }
}

impl Tpu {
    /// An idle TPU with a full budget.
    pub fn new() -> (t: Tpu)
        ensures
            t == (Tpu { deficit: 0, head: 0, pixels: 0, tail: 0, budget: PIXEL_BUDGET }),
    {
        Tpu { deficit: 0, head: 0, pixels: 0, tail: 0, budget: PIXEL_BUDGET }
    }

    /// Starts a frame: grants a fresh budget less last frame's deficit,
    /// clears the counters, and drains the ring.
    pub fn frame_start(&mut self, mem: &mut [u8])
        ensures
            (*final(self), final(mem)@) == run_effect(
                Tpu {
                    budget: if old(self).deficit < PIXEL_BUDGET {
                        (PIXEL_BUDGET - old(self).deficit) as u32
                    } else {
                        0
                    },
                    deficit: 0,
                    pixels: 0,
                    ..*old(self)
                },
                old(mem)@,
            ),
            final(mem)@.len() == old(mem)@.len(),
    {
        self.budget = if self.deficit < PIXEL_BUDGET { PIXEL_BUDGET - self.deficit } else { 0 };
        self.deficit = 0;
        self.pixels = 0;
        run(self, mem);
    }

    /// Returns the TPU to its power-on state.
    pub fn reset(&mut self)
        ensures
            *final(self) == (Tpu { deficit: 0, head: 0, pixels: 0, tail: 0, budget: PIXEL_BUDGET }),
    {
        *self = Tpu::new();
    }
}


// ---------------------------------------------------------------------------
// Laws of the drain.

/// The pixels spent, plus the budget left, less the deficit owed, taken
/// modulo 2^32 (the width of the counters).
pub open spec fn ledger(t: Tpu) -> int {
    (t.pixels as int + t.budget as int - t.deficit as int) % 0x1_0000_0000
}

proof fn lemma_charged_ledger(t: Tpu, cost: u32)
    ensures
        ledger(charged(t, cost)) == ledger(t),
        charged(t, cost).head == t.head,
        charged(t, cost).tail == t.tail,
{
    let m = 0x1_0000_0000int;
    let t2 = charged(t, cost);
    let p2 = (t.pixels as int + cost as int) % m;
    assert(t2.pixels as int == p2);
    if cost > t.budget {
        let d2 = (t.deficit as int + (cost - t.budget)) % m;
        assert(t2.deficit as int == d2);
        assert((p2 + 0 - d2) % m == (t.pixels as int + t.budget as int - t.deficit as int) % m)
            by (nonlinear_arith)
            requires
                p2 == (t.pixels as int + cost as int) % m,
                d2 == (t.deficit as int + (cost - t.budget)) % m,
                m == 0x1_0000_0000int,
        ;
    } else {
        assert((p2 + (t.budget - cost) - t.deficit as int) % m == (t.pixels as int + t.budget as int
            - t.deficit as int) % m) by (nonlinear_arith)
            requires
                p2 == (t.pixels as int + cost as int) % m,
                m == 0x1_0000_0000int,
        ;
    }
}

proof fn lemma_drain(t: Tpu, m: Seq<u8>, b: StateBlock, left: u16)
    requires
        left == t.tail.wrapping_sub(t.head),
    ensures
        drain(t, m, b, left).0.tail == t.tail,
        drain(t, m, b, left).0.head == t.tail || drain(t, m, b, left).0.budget == 0,
        ledger(drain(t, m, b, left).0) == ledger(t),
    decreases left,
{
    if left == 0 || t.budget == 0 {
    } else {
        let (cost, m2) = cmd_effect(m, b, t.head);
        let words = cmd_words(m, b, t.head);
        let t2 = charged(t, cost);
        lemma_charged_ledger(t, cost);
        if words > left {
        } else {
            let t3 = Tpu { head: t.head.wrapping_add(words), ..t2 };
            assert(ledger(t3) == ledger(t2));
            lemma_drain(t3, m2, b, (left - words) as u16);
        }
    }
}

/// A drain never moves the tail, and it stops only when the ring is empty
/// (head has reached tail) or the frame's budget is spent: however the
/// commands in the ring are laid out, it cannot stop part-way or spin.
pub proof fn law_drain_ends_empty_or_spent(t: Tpu, m: Seq<u8>)
    ensures
        run_effect(t, m).0.tail == t.tail,
        run_effect(t, m).0.head == t.tail || run_effect(t, m).0.budget == 0,
{
    let b = state_block(m);
    if is_valid_ring(b.ring_words) {
        lemma_drain(t, m, b, t.tail.wrapping_sub(t.head));
    }
}

/// Every pixel a drain charges is paid from the budget or carried as
/// deficit: pixels + budget - deficit is the same before and after
/// (modulo 2^32, the width of the counters).
pub proof fn law_drain_accounts_every_pixel(t: Tpu, m: Seq<u8>)
    ensures
        ledger(run_effect(t, m).0) == ledger(t),
{
    let b = state_block(m);
    if is_valid_ring(b.ring_words) {
        lemma_drain(t, m, b, t.tail.wrapping_sub(t.head));
    }
}

/// A ring whose length is not a power of two up to 0x1_0000 executes
/// nothing: memory is untouched and everything queued is dropped.
pub proof fn law_invalid_ring_executes_nothing(t: Tpu, m: Seq<u8>)
    requires
        !is_valid_ring(state_block(m).ring_words),
    ensures
        run_effect(t, m).1 == m,
        run_effect(t, m).0 == (Tpu { head: t.tail, ..t }),
{
}


/// The pixels that the commands a drain runs cost in all.
pub open spec fn drain_cost(t: Tpu, m: Seq<u8>, b: StateBlock, left: u16) -> int
    decreases left,
{
    if left == 0 || t.budget == 0 {
        0
    } else {
        let (cost, m2) = cmd_effect(m, b, t.head);
        let words = cmd_words(m, b, t.head);
        let t2 = charged(t, cost);
        if words > left {
            cost as int
        } else {
            cost + drain_cost(Tpu { head: t.head.wrapping_add(words), ..t2 }, m2, b, (left - words) as u16)
        }
    }
}

/// The pixels that the commands one drain of the ring runs cost in all.
pub open spec fn run_cost(t: Tpu, m: Seq<u8>) -> int {
    let b = state_block(m);
    if !is_valid_ring(b.ring_words) {
        0
    } else {
        drain_cost(t, m, b, t.tail.wrapping_sub(t.head))
    }
}

proof fn lemma_drain_exact(t: Tpu, m: Seq<u8>, b: StateBlock, left: u16)
    requires
        t.pixels + drain_cost(t, m, b, left) <= u32::MAX,
        t.deficit + drain_cost(t, m, b, left) <= u32::MAX + t.budget,
    ensures
        drain_cost(t, m, b, left) >= 0,
        drain(t, m, b, left).0.pixels == t.pixels + drain_cost(t, m, b, left),
        drain(t, m, b, left).0.pixels + drain(t, m, b, left).0.budget - drain(t, m, b, left).0.deficit
            == t.pixels + t.budget - t.deficit,
        drain(t, m, b, left).0.deficit >= t.deficit,
        drain(t, m, b, left).0.deficit != t.deficit ==> drain(t, m, b, left).0.budget == 0,
    decreases left,
{
    if left == 0 || t.budget == 0 {
    } else {
        let (cost, m2) = cmd_effect(m, b, t.head);
        let words = cmd_words(m, b, t.head);
        let t2 = charged(t, cost);
        if words > left {
        } else {
            let t3 = Tpu { head: t.head.wrapping_add(words), ..t2 };
            lemma_drain_exact(t3, m2, b, (left - words) as u16);
        }
    }
}

/// As long as no counter wraps, the ledger holds exactly: the pixels
/// counted grow by the cost of the commands run, pixels + budget - deficit
/// is unchanged, and the deficit grows only when a command overshoots the
/// budget, by that overshoot, which leaves the budget at 0 and ends the
/// drain. The counters do not wrap when the pixels counted plus the cost
/// fit in 32 bits and so does the deficit plus the overshoot: the cost
/// beyond the budget, where the cost exceeds it.
pub proof fn law_drain_ledger_is_exact(t: Tpu, m: Seq<u8>)
    requires
        t.pixels + run_cost(t, m) <= u32::MAX,
        t.deficit + run_cost(t, m) - t.budget <= u32::MAX,
    ensures
        run_cost(t, m) >= 0,
        run_effect(t, m).0.pixels == t.pixels + run_cost(t, m),
        run_effect(t, m).0.pixels + run_effect(t, m).0.budget - run_effect(t, m).0.deficit == t.pixels
            + t.budget - t.deficit,
        run_effect(t, m).0.deficit >= t.deficit,
        run_effect(t, m).0.deficit != t.deficit ==> run_effect(t, m).0.budget == 0,
        run_effect(t, m).0.deficit == t.deficit + (if run_cost(t, m) > t.budget {
            run_cost(t, m) - t.budget
        } else {
            0
        }),
{
    let b = state_block(m);
    if is_valid_ring(b.ring_words) {
        lemma_drain_exact(t, m, b, t.tail.wrapping_sub(t.head));
    }
}

} // verus!
