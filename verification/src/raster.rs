//! Triangle set-up and rasterisation for the TPU's TRI command.
//!
//! Vertices are 20.12 fixed point in the ring and 28.4 fixed point once
//! decoded; pixel centres sit at (16 * px + 8, 16 * py + 8). Coverage uses
//! edge functions with the top-left fill rule. Depth, shade and the
//! perspective-divided texture coordinates are interpolated barycentrically;
//! texture coordinates are evaluated exactly at the ends of 8-pixel spans
//! and stepped linearly in between, which also fixes the mip level of the
//! span. Shade and mip fraction are ordered-dithered with a 4x4 Bayer matrix.

use vstd::prelude::*;
use vstd::std_specs::bits::{u64_leading_zeros, axiom_u64_leading_zeros};
use vstd::arithmetic::power2::{pow2, lemma2_to64, lemma_pow2_strictly_increases};
use vstd::bits::{lemma_u64_shl_is_mul, lemma_u64_shr_is_div, lemma_u64_low_bits_mask_is_mod, low_bits_mask};
use crate::bus::TPU_RAM_BASE;
use crate::tpu::{
    rd8, rd16, wr8, wr16, ring_word_at, StateBlock, clamp, read_u8, read_u16, write_u8,
    write_u16, ring_word, lemma_mul_le,
};

verus! {

/// A decoded vertex: position in 28.4 fixed point, depth, the three
/// perspective texture terms (u/w, v/w, 1/w) and the shade.
pub struct Vertex {
    pub q: u32,
    pub shade: i32,
    pub uq: i32,
    pub vq: i32,
    pub x: i32,
    pub y: i32,
    pub z: u32,
}

/// A mip-mapped texture: byte offset of level 0, number of levels, and the
/// log2 dimensions of level 0.
pub struct Texture {
    pub base: u64,
    pub levels: u64,
    pub log2h: u32,
    pub log2w: u32,
}

/// Everything a TRI command fixes before its first fragment. The vertices
/// are in counter-clockwise order (v0, v1, v2) and `denom` is twice the
/// triangle's area; (x0..=x1, y0..=y1) is its bounding box clipped to the
/// target.
pub struct TriSetup {
    pub v0: Vertex,
    pub v1: Vertex,
    pub v2: Vertex,
    pub denom: i64,
    pub flags: u8,
    pub lod_bias: i64,
    pub tex: Texture,
    pub colormap: u64,
    pub blend_base: u64,
    pub x0: i32,
    pub x1: i32,
    pub y0: i32,
    pub y1: i32,
}

/// Texture coordinates and mip level shared by the pixels of one span.
pub struct SpanInfo {
    pub xa: i32,
    pub xb: i32,
    pub span: i64,
    pub ua: i64,
    pub va: i64,
    pub du: i64,
    pub dv: i64,
    pub lod: i64,
    pub level: u64,
}

// ---------------------------------------------------------------------------
// Decoding.

/// Vertex `i` (0..3) of the TRI command at `head`: seven ring words after
/// the four header words.
pub open spec fn vertex_at(m: Seq<u8>, b: StateBlock, head: u16, i: int) -> Vertex {
    let w = 4 + i * 7;
    Vertex {
        q: ring_word_at(m, b, head, w + 5),
        shade: ring_word_at(m, b, head, w + 6) as i32,
        uq: ring_word_at(m, b, head, w + 3) as i32,
        vq: ring_word_at(m, b, head, w + 4) as i32,
        x: (ring_word_at(m, b, head, w) as i32) >> 12u32,
        y: (ring_word_at(m, b, head, w + 1) as i32) >> 12u32,
        z: ring_word_at(m, b, head, w + 2),
    }
}

/// Twice the signed area of (a, b, p): positive when p lies to the left of
/// the directed edge a -> b.
pub open spec fn edge(a: Vertex, b: Vertex, px: int, py: int) -> int {
    (b.x - a.x) * (py - a.y) - (b.y - a.y) * (px - a.x)
}

/// Whether edge a -> b is a top or left edge, whose pixels it owns.
pub open spec fn top_left(a: Vertex, b: Vertex) -> bool {
    b.y < a.y || (b.y == a.y && b.x > a.x)
}

pub open spec fn min_i32(a: i32, b: i32) -> i32 {
    if a <= b { a } else { b }
}

pub open spec fn max_i32(a: i32, b: i32) -> i32 {
    if a >= b { a } else { b }
}

/// The texture descriptor word: base in 8-byte units above bit 12, log2
/// width and height in the next nibbles, level count (clamped to 1..=8) in
/// the low nibble.
pub open spec fn texture_of(w1: u32) -> Texture {
    Texture {
        base: ((w1 / 0x1000) * 8) as u64,
        levels: clamp((w1 % 16) as int, 1, 8) as u64,
        log2h: (w1 / 16) % 16,
        log2w: (w1 / 0x100) % 16,
    }
}

/// The set-up of the TRI command at `head`, or `None` for a degenerate
/// (zero-area) triangle, which draws nothing.
pub open spec fn tri_setup(m: Seq<u8>, b: StateBlock, head: u16) -> Option<TriSetup> {
    let w0 = ring_word_at(m, b, head, 0);
    let w1 = ring_word_at(m, b, head, 1);
    let a0 = vertex_at(m, b, head, 0);
    let a1 = vertex_at(m, b, head, 1);
    let a2 = vertex_at(m, b, head, 2);
    let area = edge(a0, a1, a2.x as int, a2.y as int);
    if area == 0 {
        None
    } else {
        let v1 = if area < 0 { a2 } else { a1 };
        let v2 = if area < 0 { a1 } else { a2 };
        Some(
            TriSetup {
                v0: a0,
                v1,
                v2,
                denom: (if area < 0 { -area } else { area }) as i64,
                flags: (w0 % 0x100) as u8,
                lod_bias: ((w0 / 0x100) % 0x100) as u8 as i8 as i64,
                tex: texture_of(w1),
                colormap: ring_word_at(m, b, head, 2) as u64,
                blend_base: ring_word_at(m, b, head, 3) as u64,
                x0: max_i32(min_i32(min_i32(a0.x, v1.x), v2.x) >> 4u32, 0),
                x1: min_i32(max_i32(max_i32(a0.x, v1.x), v2.x) >> 4u32, (b.width - 1) as i32),
                y0: max_i32(min_i32(min_i32(a0.y, v1.y), v2.y) >> 4u32, 0),
                y1: min_i32(max_i32(max_i32(a0.y, v1.y), v2.y) >> 4u32, (b.height - 1) as i32),
            },
        )
    }
}

pub open spec fn coord_ok(v: Vertex) -> bool {
    -0x8_0000 <= v.x < 0x8_0000 && -0x8_0000 <= v.y < 0x8_0000
}

/// The invariants every set-up satisfies.
pub open spec fn setup_wf(t: TriSetup) -> bool {
    &&& coord_ok(t.v0) && coord_ok(t.v1) && coord_ok(t.v2)
    &&& t.denom as int == edge(t.v0, t.v1, t.v2.x as int, t.v2.y as int)
    &&& 0 < t.denom
    &&& 1 <= t.tex.levels <= 8
    &&& t.tex.log2w < 16 && t.tex.log2h < 16
    &&& t.tex.base < 0x100_0000
    &&& t.colormap < 0x1_0000_0000 && t.blend_base < 0x1_0000_0000
    &&& -128 <= t.lod_bias < 128
    &&& 0 <= t.x0 && t.x1 < 0xFFFF
    &&& 0 <= t.y0 && t.y1 < 0xFFFF
}

// ---------------------------------------------------------------------------
// Coverage.

/// The three edge functions at (cx, cy), opposite v0, v1 and v2.
pub open spec fn e0(t: TriSetup, cx: int, cy: int) -> int {
    edge(t.v1, t.v2, cx, cy)
}

pub open spec fn e1(t: TriSetup, cx: int, cy: int) -> int {
    edge(t.v2, t.v0, cx, cy)
}

pub open spec fn e2(t: TriSetup, cx: int, cy: int) -> int {
    edge(t.v0, t.v1, cx, cy)
}

pub open spec fn inside(e: int, tl: bool) -> bool {
    if tl { e >= 0 } else { e > 0 }
}

/// Whether the centre of pixel `px` on the row whose centre is `cy` is
/// covered: inside all three edges, with ties going to top and left edges.
pub open spec fn hit(t: TriSetup, px: int, cy: int) -> bool {
    let cx = px * 16 + 8;
    inside(e0(t, cx, cy), top_left(t.v1, t.v2)) && inside(e1(t, cx, cy), top_left(t.v2, t.v0))
        && inside(e2(t, cx, cy), top_left(t.v0, t.v1))
}

/// The leftmost covered pixel of the row in lo..=hi.
pub open spec fn first_hit(t: TriSetup, cy: int, lo: int, hi: int) -> Option<int>
    decreases hi - lo + 1,
{
    if lo > hi {
        None
    } else if hit(t, lo, cy) {
        Some(lo)
    } else {
        first_hit(t, cy, lo + 1, hi)
    }
}

/// The rightmost covered pixel of the row in lo..=hi.
pub open spec fn last_hit(t: TriSetup, cy: int, lo: int, hi: int) -> Option<int>
    decreases hi - lo + 1,
{
    if lo > hi {
        None
    } else if hit(t, hi, cy) {
        Some(hi)
    } else {
        last_hit(t, cy, lo, hi - 1)
    }
}

/// The first and last covered pixels of a row inside the bounding box.
pub open spec fn row_run(t: TriSetup, cy: int) -> Option<(int, int)> {
    match first_hit(t, cy, t.x0 as int, t.x1 as int) {
        None => None,
        Some(f) => match last_hit(t, cy, f, t.x1 as int) {
            None => None,
            Some(l) => Some((f, l)),
        },
    }
}

// ---------------------------------------------------------------------------
// Interpolation.

/// Barycentric interpolation of the vertex values a0, a1, a2 at (cx, cy),
/// floored, truncated to 64 bits.
pub open spec fn interp(t: TriSetup, cx: int, cy: int, a0: int, a1: int, a2: int) -> i64 {
    (((e0(t, cx, cy) * a0 + e1(t, cx, cy) * a1 + e2(t, cx, cy) * a2) / (t.denom as int))
        as i128) as i64
}

/// Euclidean division of 64-bit values, wrapping on the one overflow.
pub open spec fn wdiv(n: i64, q: i64) -> i64 {
    if i64::MIN <= n as int / q as int <= i64::MAX {
        (n as int / q as int) as i64
    } else {
        n
    }
}

/// The perspective-correct texture coordinate pair (16.16) at the centre of
/// pixel `px`; (0, 0) where the interpolated 1/w is zero.
pub open spec fn uv_at(t: TriSetup, px: int, cy: int) -> (i64, i64) {
    let cx = px * 16 + 8;
    let q = interp(t, cx, cy, t.v0.q as int, t.v1.q as int, t.v2.q as int);
    if q == 0 {
        (0, 0)
    } else {
        (
            wdiv(interp(t, cx, cy, t.v0.uq as int, t.v1.uq as int, t.v2.uq as int) << 16u32, q),
            wdiv(interp(t, cx, cy, t.v0.vq as int, t.v1.vq as int, t.v2.vq as int) << 16u32, q),
        )
    }
}

pub open spec fn uabs(x: i64) -> u64 {
    if x < 0 { (-(x as int)) as u64 } else { x as u64 }
}

/// Level of detail in 4.4 fixed point for a texel step `step` (16.16 per
/// pixel): log2(step) - 16 with four fraction bits, plus the bias, floored
/// at zero.
pub open spec fn lod44(step: u64, bias: i64) -> i64 {
    if step == 0 {
        0
    } else {
        let k = 63 - u64_leading_zeros(step);
        let frac: int = if k >= 4 { ((step >> ((k - 4) as u64)) & 0xFu64) as int } else { 0 };
        let v = (k - 16) * 16 + frac + bias;
        if v > 0 { v as i64 } else { 0 }
    }
}

/// The first pixel of the 8-pixel span (counted from the row's first
/// covered pixel) that holds `px`.
pub open spec fn span_start(first: int, px: int) -> int {
    first + ((px - first) / 8) * 8
}

/// The span starting at `xa`: it ends after 8 pixels or at the row's last
/// covered pixel, whichever comes first.
pub open spec fn span_info(t: TriSetup, last: int, xa: int, cy: int) -> SpanInfo {
    let xb = if xa + 8 < last + 1 { xa + 8 } else { last + 1 };
    let span = xb - xa;
    let (ua, va) = uv_at(t, xa, cy);
    let (ub, vb) = uv_at(t, xb, cy);
    let du = ub.wrapping_sub(ua);
    let dv = vb.wrapping_sub(va);
    let big = if uabs(du) >= uabs(dv) { uabs(du) } else { uabs(dv) };
    let lod = lod44((big as int / span) as u64, t.lod_bias);
    let level = if (lod >> 4u32) < t.tex.levels - 1 { lod >> 4u32 } else { (t.tex.levels - 1) as i64 };
    SpanInfo { xa: xa as i32, xb: xb as i32, span: span as i64, ua, va, du, dv, lod, level: level as u64 }
}

// ---------------------------------------------------------------------------
// Texturing and shading.

/// The 4x4 ordered-dither threshold at (x mod 4, y mod 4).
pub open spec fn bayer(y: int, x: int) -> int {
    if y == 0 {
        if x == 0 { 0 } else if x == 1 { 8 } else if x == 2 { 2 } else { 10 }
    } else if y == 1 {
        if x == 0 { 12 } else if x == 1 { 4 } else if x == 2 { 14 } else { 6 }
    } else if y == 2 {
        if x == 0 { 3 } else if x == 1 { 11 } else if x == 2 { 1 } else { 9 }
    } else {
        if x == 0 { 15 } else if x == 1 { 7 } else if x == 2 { 13 } else { 5 }
    }
}

/// log2 of the width and height of mip level `n` (never below zero).
pub open spec fn shw(t: Texture, n: int) -> u32 {
    if t.log2w >= n { (t.log2w - n) as u32 } else { 0 }
}

pub open spec fn shh(t: Texture, n: int) -> u32 {
    if t.log2h >= n { (t.log2h - n) as u32 } else { 0 }
}

/// Byte offset of mip level `n` from the texture base: the levels are
/// stored largest first, back to back.
pub open spec fn mip_off(t: Texture, n: nat) -> int
    decreases n,
{
    if n == 0 {
        0
    } else {
        mip_off(t, (n - 1) as nat) + (1u64 << shw(t, n - 1)) * (1u64 << shh(t, n - 1))
    }
}

/// The texel of level `n` at texture coordinates (u, v) in 16.16, wrapping
/// in both directions.
pub open spec fn texel(m: Seq<u8>, t: Texture, n: int, u: i64, v: i64) -> u8 {
    let w = 1u64 << shw(t, n);
    let h = 1u64 << shh(t, n);
    rd8(
        m,
        t.base + mip_off(t, n as nat) + (((v >> 16u32) as u64) & ((h - 1) as u64)) * w + (((u
            >> 16u32) as u64) & ((w - 1) as u64)),
    )
}

/// Texture addressing: the texel of level `n` at 16.16 coordinates (u, v)
/// is the byte at the level's start plus row (integer part of v, modulo the
/// level's height) times the level's width plus column (integer part of u,
/// modulo the width), the level being 2^(log2w - n) by 2^(log2h - n)
/// (at least 1 by 1). Coordinates are taken as 64-bit two's complement, so
/// the texture repeats in both directions, negative coordinates included.
pub proof fn law_texel_addressing(m: Seq<u8>, t: Texture, n: int, u: i64, v: i64)
    requires
        0 <= n,
        t.log2w < 16,
        t.log2h < 16,
    ensures
        ({
            let w = pow2(shw(t, n) as nat) as int;
            let h = pow2(shh(t, n) as nat) as int;
            texel(m, t, n, u, v) == rd8(
                m,
                t.base + mip_off(t, n as nat) + ((v as u64) as int / 0x1_0000) % h * w + ((u as u64) as int
                    / 0x1_0000) % w,
            )
        }),
{
    let kw = shw(t, n);
    let kh = shh(t, n);
    assert(kw < 16 && kh < 16);
    lemma_wrapped_coordinate(u, kw);
    lemma_wrapped_coordinate(v, kh);
}

/// The integer part of a 16.16 coordinate, wrapped to a power-of-two size.
proof fn lemma_wrapped_coordinate(x: i64, k: u32)
    requires
        k < 16,
    ensures
        ((x >> 16u32) as u64) & (((1u64 << k) - 1) as u64) == ((x as u64) as int / 0x1_0000) % (pow2(k as nat) as int),
        (1u64 << k) as int == pow2(k as nat),
{
    let xx = x as u64;
    let mask = ((1u64 << k) - 1) as u64;
    assert(((x >> 16u32) as u64) & mask == (xx >> 16u64) & mask) by (bit_vector)
        requires
            k < 16,
            mask == ((1u64 << k) - 1) as u64,
            xx == x as u64,
    ;
    lemma_pow2_strictly_increases(k as nat, 16);
    lemma2_to64();
    lemma_u64_shl_is_mul(1, k as u64);
    lemma_u64_shr_is_div(xx, 16);
    assert(pow2(16) == 0x1_0000);
    assert(low_bits_mask(k as nat) == pow2(k as nat) - 1);
    lemma_u64_low_bits_mask_is_mod(xx >> 16u64, k as nat);
}

/// Memory and cost after the fragment at (px, py) of a triangle, `s` being
/// the span that holds px: uncovered pixels cost nothing; covered ones cost
/// a pixel, and, when they pass the depth test, write a colour (through the
/// blend table when blending) and, unless depth writes are off, their depth.
pub open spec fn frag(m: Seq<u8>, t: TriSetup, b: StateBlock, py: int, px: int, s: SpanInfo) -> (
    Seq<u8>,
    int,
) {
    let cy = py * 16 + 8;
    let cx = px * 16 + 8;
    if !hit(t, px, cy) {
        (m, 0)
    } else {
        let at = py * b.width + px;
        let z = (interp(t, cx, cy, t.v0.z as int, t.v1.z as int, t.v2.z as int) >> 16u32) as u16;
        let dst = rd16(m, b.z_base + at * 2);
        let ztest = t.flags & 0x04 == 0;
        let zgreater = t.flags & 0x02 != 0;
        let zwrite = t.flags & 0x08 == 0;
        let blend = t.flags & 0x01 != 0;
        let pass = !ztest || (if zgreater { z > dst } else { z < dst });
        if !pass {
            (m, 1)
        } else {
            let dith = bayer(py % 4, px % 4);
            let k = px - s.xa;
            let up: int = if (s.lod & 0xF) as int > dith { 1 } else { 0 };
            let sampled = if s.level + up < t.tex.levels - 1 { s.level + up } else { t.tex.levels - 1 };
            let u = s.ua.wrapping_add((s.du.wrapping_mul(k as i64) as int / s.span as int) as i64);
            let v = s.va.wrapping_add((s.dv.wrapping_mul(k as i64) as int / s.span as int) as i64);
            let tx = texel(m, t.tex, sampled, u, v);
            let shade = interp(t, cx, cy, t.v0.shade as int, t.v1.shade as int, t.v2.shade as int);
            let lit = clamp(
                (shade >> 16u32) as int + (if (shade & 0xFFFFi64) as int > dith * 4096 { 1int } else { 0int }),
                0,
                63,
            );
            let c0 = rd8(m, t.colormap + lit * 256 + tx as int);
            let color = if blend {
                rd8(m, t.blend_base + rd8(m, b.color_base + at) as int * 256 + c0 as int)
            } else {
                c0
            };
            let m1 = wr8(m, b.color_base + at, color);
            (if zwrite { wr16(m1, b.z_base + at * 2, z) } else { m1 }, 1)
        }
    }
}

/// Memory and cost after the first `n` fragments of row `py`, starting at
/// its first covered pixel.
pub open spec fn row_frags(
    m: Seq<u8>,
    t: TriSetup,
    b: StateBlock,
    py: int,
    first: int,
    last: int,
    n: nat,
) -> (Seq<u8>, int)
    decreases n,
{
    if n == 0 {
        (m, 0)
    } else {
        let prev = row_frags(m, t, b, py, first, last, (n - 1) as nat);
        let px = first + n - 1;
        let s = span_info(t, last, span_start(first, px), py * 16 + 8);
        let step = frag(prev.0, t, b, py, px, s);
        (step.0, prev.1 + step.1)
    }
}

/// Memory and cost after the first `n` rows of the bounding box.
pub open spec fn tri_rows(m: Seq<u8>, t: TriSetup, b: StateBlock, n: nat) -> (Seq<u8>, int)
    decreases n,
{
    if n == 0 {
        (m, 0)
    } else {
        let prev = tri_rows(m, t, b, (n - 1) as nat);
        let py = t.y0 + n - 1;
        match row_run(t, py * 16 + 8) {
            None => prev,
            Some((f, l)) => {
                let r = row_frags(prev.0, t, b, py, f, l, (l - f + 1) as nat);
                (r.0, prev.1 + r.1)
            },
        }
    }
}

/// Memory and cost (in covered pixels) after a TRI command.
pub open spec fn tri_effect(m: Seq<u8>, b: StateBlock, head: u16) -> (Seq<u8>, u32) {
    match tri_setup(m, b, head) {
        None => (m, 0),
        Some(t) => {
            let rows = if t.y1 >= t.y0 { (t.y1 - t.y0 + 1) as nat } else { 0 };
            let r = tri_rows(m, t, b, rows);
            (r.0, r.1 as u32)
        },
    }
}


// ---------------------------------------------------------------------------
// Arithmetic facts.

proof fn lemma_abs_mul(a: int, b: int, x: int, y: int)
    requires
        -x <= a <= x,
        -y <= b <= y,
    ensures
        -(x * y) <= a * b <= x * y,
{
    assert(-(x * y) <= a * b <= x * y) by (nonlinear_arith)
        requires
            -x <= a <= x,
            -y <= b <= y,
    ;
}

proof fn lemma_div_within(n: int, d: int, x: int)
    requires
        1 <= d,
        0 <= x,
        -x <= n <= x,
    ensures
        -x <= n / d <= x,
{
    assert(-x <= n / d <= x) by (nonlinear_arith)
        requires
            1 <= d,
            0 <= x,
            -x <= n <= x,
    ;
}

proof fn lemma_edge_bound(a: Vertex, b: Vertex, px: int, py: int)
    requires
        coord_ok(a),
        coord_ok(b),
        -0x10_0000 <= px <= 0x10_0000,
        -0x10_0000 <= py <= 0x10_0000,
    ensures
        -0x400_0000_0000 <= edge(a, b, px, py) <= 0x400_0000_0000,
{
    lemma_abs_mul((b.x - a.x) as int, (py - a.y) as int, 0x10_0000, 0x20_0000);
    lemma_abs_mul((b.y - a.y) as int, (px - a.x) as int, 0x10_0000, 0x20_0000);
}

proof fn lemma_edge_swap(a: Vertex, b: Vertex, c: Vertex)
    ensures
        edge(a, c, b.x as int, b.y as int) == -edge(a, b, c.x as int, c.y as int),
{
    let (ax, ay, bx, by2, cx, cy) = (a.x as int, a.y as int, b.x as int, b.y as int, c.x as int, c.y as int);
    assert((cx - ax) * (by2 - ay) - (cy - ay) * (bx - ax) == -((bx - ax) * (cy - ay) - (by2 - ay) * (
    cx - ax))) by (nonlinear_arith);
}

// ---------------------------------------------------------------------------
// Decoding, in code.

fn read_vertex(mem: &[u8], block: &StateBlock, head: u16, i: u32) -> (v: Vertex)
    requires
        block.ring_words > 0,
        i < 3,
    ensures
        v == vertex_at(mem@, *block, head, i as int),
        coord_ok(v),
{
    let w = 4 + i * 7;
    let wx = ring_word(mem, block, head, w);
    let wy = ring_word(mem, block, head, w + 1);
    assert(-0x8_0000 <= ((wx as i32) >> 12u32) < 0x8_0000) by (bit_vector);
    assert(-0x8_0000 <= ((wy as i32) >> 12u32) < 0x8_0000) by (bit_vector);
    Vertex {
        q: ring_word(mem, block, head, w + 5),
        shade: ring_word(mem, block, head, w + 6) as i32,
        uq: ring_word(mem, block, head, w + 3) as i32,
        vq: ring_word(mem, block, head, w + 4) as i32,
        x: (wx as i32) >> 12u32,
        y: (wy as i32) >> 12u32,
        z: ring_word(mem, block, head, w + 2),
    }
}

fn edge_at(a: &Vertex, b: &Vertex, px: i32, py: i32) -> (r: i64)
    requires
        coord_ok(*a),
        coord_ok(*b),
        -0x10_0000 <= px <= 0x10_0000,
        -0x10_0000 <= py <= 0x10_0000,
    ensures
        r == edge(*a, *b, px as int, py as int),
        -0x400_0000_0000 <= r <= 0x400_0000_0000,
{
    proof {
        lemma_edge_bound(*a, *b, px as int, py as int);
        lemma_abs_mul((b.x - a.x) as int, (py - a.y) as int, 0x10_0000, 0x20_0000);
        lemma_abs_mul((b.y - a.y) as int, (px - a.x) as int, 0x10_0000, 0x20_0000);
    }
    (b.x - a.x) as i64 * (py - a.y) as i64 - (b.y - a.y) as i64 * (px - a.x) as i64
}

fn min32(a: i32, b: i32) -> (r: i32)
    ensures
        r == min_i32(a, b),
{
    if a <= b { a } else { b }
}

fn max32(a: i32, b: i32) -> (r: i32)
    ensures
        r == max_i32(a, b),
{
    if a >= b { a } else { b }
}

fn setup(mem: &[u8], block: &StateBlock, head: u16) -> (r: Option<TriSetup>)
    requires
        block.ring_words > 0,
    ensures
        r == tri_setup(mem@, *block, head),
        r matches Some(t) ==> setup_wf(t),
{
    let w0 = ring_word(mem, block, head, 0);
    let w1 = ring_word(mem, block, head, 1);
    let colormap = ring_word(mem, block, head, 2) as u64;
    let blend_base = ring_word(mem, block, head, 3) as u64;
    let a0 = read_vertex(mem, block, head, 0);
    let a1 = read_vertex(mem, block, head, 1);
    let a2 = read_vertex(mem, block, head, 2);
    let area = edge_at(&a0, &a1, a2.x, a2.y);
    if area == 0 {
        return None;
    }
    proof {
        lemma_edge_swap(a0, a1, a2);
    }
    let denom = if area < 0 { -area } else { area };
    let (v1, v2) = if area < 0 { (a2, a1) } else { (a1, a2) };
    let levels = clamp_levels(w1 % 16);
    let x0 = max32(min32(min32(a0.x, v1.x), v2.x) >> 4u32, 0);
    let x1 = min32(max32(max32(a0.x, v1.x), v2.x) >> 4u32, block.width as i32 - 1);
    let y0 = max32(min32(min32(a0.y, v1.y), v2.y) >> 4u32, 0);
    let y1 = min32(max32(max32(a0.y, v1.y), v2.y) >> 4u32, block.height as i32 - 1);
    Some(
        TriSetup {
            v0: a0,
            v1,
            v2,
            denom,
            flags: (w0 % 0x100) as u8,
            lod_bias: ((w0 / 0x100) % 0x100) as u8 as i8 as i64,
            tex: Texture {
                base: (w1 / 0x1000) as u64 * 8,
                levels,
                log2h: (w1 / 16) % 16,
                log2w: (w1 / 0x100) % 16,
            },
            colormap,
            blend_base,
            x0,
            x1,
            y0,
            y1,
        },
    )
}

fn clamp_levels(n: u32) -> (r: u64)
    ensures
        r == clamp(n as int, 1, 8),
{
    if n < 1 {
        1
    } else if n > 8 {
        8
    } else {
        n as u64
    }
}

// ---------------------------------------------------------------------------
// Coverage, in code.

fn hit_at(t: &TriSetup, px: i32, cy: i32) -> (r: bool)
    requires
        setup_wf(*t),
        0 <= px <= 0xFFFF,
        0 <= cy <= 0xF_FFF8,
    ensures
        r == hit(*t, px as int, cy as int),
{
    let cx = px * 16 + 8;
    let f0 = edge_at(&t.v1, &t.v2, cx, cy);
    let f1 = edge_at(&t.v2, &t.v0, cx, cy);
    let f2 = edge_at(&t.v0, &t.v1, cx, cy);
    let tl0 = t.v2.y < t.v1.y || (t.v2.y == t.v1.y && t.v2.x > t.v1.x);
    let tl1 = t.v0.y < t.v2.y || (t.v0.y == t.v2.y && t.v0.x > t.v2.x);
    let tl2 = t.v1.y < t.v0.y || (t.v1.y == t.v0.y && t.v1.x > t.v0.x);
    let in0 = if tl0 { f0 >= 0 } else { f0 > 0 };
    let in1 = if tl1 { f1 >= 0 } else { f1 > 0 };
    let in2 = if tl2 { f2 >= 0 } else { f2 > 0 };
    in0 && in1 && in2
}

fn find_run(t: &TriSetup, cy: i32) -> (r: Option<(i32, i32)>)
    requires
        setup_wf(*t),
        0 <= cy <= 0xF_FFF8,
    ensures
        match r {
            None => row_run(*t, cy as int) is None,
            Some((f, l)) => row_run(*t, cy as int) == Some((f as int, l as int)) && t.x0 <= f <= l
                <= t.x1,
        },
{
    if t.x0 > t.x1 {
        return None;
    }
    let mut px = t.x0;
    loop
        invariant
            setup_wf(*t),
            0 <= cy <= 0xF_FFF8,
            t.x0 <= px,
            px <= t.x1 + 1,
            first_hit(*t, cy as int, t.x0 as int, t.x1 as int) == first_hit(
                *t,
                cy as int,
                px as int,
                t.x1 as int,
            ),
        ensures
            t.x0 <= px <= t.x1,
            hit(*t, px as int, cy as int),
            first_hit(*t, cy as int, t.x0 as int, t.x1 as int) == first_hit(
                *t,
                cy as int,
                px as int,
                t.x1 as int,
            ),
        decreases t.x1 + 1 - px,
    {
        if px > t.x1 {
            return None;
        }
        if hit_at(t, px, cy) {
            break;
        }
        px = px + 1;
    }
    let first = px;
    assert(first_hit(*t, cy as int, t.x0 as int, t.x1 as int) == Some(first as int));
    let mut q = t.x1;
    loop
        invariant
            setup_wf(*t),
            0 <= cy <= 0xF_FFF8,
            t.x0 <= first <= q <= t.x1,
            hit(*t, first as int, cy as int),
            first_hit(*t, cy as int, t.x0 as int, t.x1 as int) == Some(first as int),
            last_hit(*t, cy as int, first as int, t.x1 as int) == last_hit(
                *t,
                cy as int,
                first as int,
                q as int,
            ),
        decreases q - first,
    {
        if hit_at(t, q, cy) {
            return Some((first, q));
        }
        q = q - 1;
    }
}


// ---------------------------------------------------------------------------
// Interpolation, in code.

fn interp_at(t: &TriSetup, cx: i32, cy: i32, a0: i64, a1: i64, a2: i64) -> (r: i64)
    requires
        setup_wf(*t),
        0 <= cx <= 0x10_0000,
        0 <= cy <= 0x10_0000,
        -0x1_0000_0000 <= a0 <= 0x1_0000_0000,
        -0x1_0000_0000 <= a1 <= 0x1_0000_0000,
        -0x1_0000_0000 <= a2 <= 0x1_0000_0000,
    ensures
        r == interp(*t, cx as int, cy as int, a0 as int, a1 as int, a2 as int),
{
    let f0 = edge_at(&t.v1, &t.v2, cx, cy);
    let f1 = edge_at(&t.v2, &t.v0, cx, cy);
    let f2 = edge_at(&t.v0, &t.v1, cx, cy);
    proof {
        lemma_abs_mul(f0 as int, a0 as int, 0x400_0000_0000, 0x1_0000_0000);
        lemma_abs_mul(f1 as int, a1 as int, 0x400_0000_0000, 0x1_0000_0000);
        lemma_abs_mul(f2 as int, a2 as int, 0x400_0000_0000, 0x1_0000_0000);
    }
    let n = f0 as i128 * a0 as i128 + f1 as i128 * a1 as i128 + f2 as i128 * a2 as i128;
    proof {
        lemma_div_within(n as int, t.denom as int, 0x1000_0000_0000_0000_0000);
    }
    match n.checked_div_euclid(t.denom as i128) {
        Some(q) => q as i64,
        None => 0,
    }
}

fn wrapping_div_euclid(n: i64, q: i64) -> (r: i64)
    requires
        q != 0,
    ensures
        r == wdiv(n, q),
{
    match n.checked_div_euclid(q) {
        Some(d) => d,
        None => n,
    }
}

fn uv_at_px(t: &TriSetup, px: i32, cy: i32) -> (r: (i64, i64))
    requires
        setup_wf(*t),
        0 <= px <= 0xFFFF,
        0 <= cy <= 0xF_FFF8,
    ensures
        r == uv_at(*t, px as int, cy as int),
{
    let cx = px * 16 + 8;
    let q = interp_at(t, cx, cy, t.v0.q as i64, t.v1.q as i64, t.v2.q as i64);
    if q == 0 {
        return (0, 0);
    }
    let u = interp_at(t, cx, cy, t.v0.uq as i64, t.v1.uq as i64, t.v2.uq as i64);
    let v = interp_at(t, cx, cy, t.v0.vq as i64, t.v1.vq as i64, t.v2.vq as i64);
    (wrapping_div_euclid(u << 16u32, q), wrapping_div_euclid(v << 16u32, q))
}

fn unsigned_abs(x: i64) -> (r: u64)
    ensures
        r == uabs(x),
{
    if x < 0 {
        (0i128 - x as i128) as u64
    } else {
        x as u64
    }
}

fn lod_44(step: u64, bias: i64) -> (r: i64)
    requires
        -128 <= bias < 128,
    ensures
        r == lod44(step, bias),
        0 <= r,
{
    if step == 0 {
        return 0;
    }
    let lz = step.leading_zeros();
    proof {
        axiom_u64_leading_zeros(step);
    }
    let k: i64 = 63 - lz as i64;
    let frac: i64 = if k >= 4 {
        let nib = (step >> ((k - 4) as u64)) & 0xFu64;
        assert(nib <= 15) by (bit_vector)
            requires
                nib == (step >> ((k - 4) as u64)) & 0xFu64,
        ;
        nib as i64
    } else {
        0
    };
    let v = (k - 16) * 16 + frac + bias;
    if v > 0 {
        v
    } else {
        0
    }
}

fn span_params(t: &TriSetup, last: i32, xa: i32, cy: i32) -> (s: SpanInfo)
    requires
        setup_wf(*t),
        0 <= xa <= last,
        last < 0xFFFF,
        0 <= cy <= 0xF_FFF8,
    ensures
        s == span_info(*t, last as int, xa as int, cy as int),
        s.xa == xa,
        xa < s.xb <= last + 1,
        s.span == s.xb - s.xa,
        1 <= s.span <= 8,
        0 <= s.lod,
        s.level < t.tex.levels,
{
    let xb = if xa + 8 < last + 1 { xa + 8 } else { last + 1 };
    let span = (xb - xa) as i64;
    let (ua, va) = uv_at_px(t, xa, cy);
    let (ub, vb) = uv_at_px(t, xb, cy);
    let du = ub.wrapping_sub(ua);
    let dv = vb.wrapping_sub(va);
    let au = unsigned_abs(du);
    let av = unsigned_abs(dv);
    let big = if au >= av { au } else { av };
    let lod = lod_44(big / span as u64, t.lod_bias);
    let top = t.tex.levels as i64 - 1;
    let level = if (lod >> 4u32) < top { lod >> 4u32 } else { top };
    assert(0 <= (lod >> 4u32) <= lod) by (bit_vector)
        requires
            0 <= lod,
    ;
    SpanInfo { xa, xb, span, ua, va, du, dv, lod, level: level as u64 }
}

// ---------------------------------------------------------------------------
// Texturing and shading, in code.

fn bayer_at(y: i32, x: i32) -> (r: i64)
    requires
        0 <= y < 4,
        0 <= x < 4,
    ensures
        r == bayer(y as int, x as int),
        0 <= r < 16,
{
    if y == 0 {
        if x == 0 { 0 } else if x == 1 { 8 } else if x == 2 { 2 } else { 10 }
    } else if y == 1 {
        if x == 0 { 12 } else if x == 1 { 4 } else if x == 2 { 14 } else { 6 }
    } else if y == 2 {
        if x == 0 { 3 } else if x == 1 { 11 } else if x == 2 { 1 } else { 9 }
    } else {
        if x == 0 { 15 } else if x == 1 { 7 } else if x == 2 { 13 } else { 5 }
    }
}

proof fn lemma_mip_off_bound(t: Texture, n: nat)
    requires
        t.log2w < 16,
        t.log2h < 16,
    ensures
        0 <= mip_off(t, n) <= n * 0x4000_0000,
    decreases n,
{
    if n > 0 {
        lemma_mip_off_bound(t, (n - 1) as nat);
        let a = shw(t, n - 1);
        let b = shh(t, n - 1);
        assert((1u64 << a) <= 0x8000) by (bit_vector)
            requires
                a < 16,
        ;
        assert((1u64 << b) <= 0x8000) by (bit_vector)
            requires
                b < 16,
        ;
        lemma_mul_le((1u64 << a) as int, (1u64 << b) as int, 0x8000, 0x8000);
    }
}

fn texel_at(mem: &[u8], tex: &Texture, n: u64, u: i64, v: i64) -> (r: u8)
    requires
        n < 8,
        tex.log2w < 16,
        tex.log2h < 16,
        tex.base < 0x100_0000,
    ensures
        r == texel(mem@, *tex, n as int, u, v),
{
    let mut off: u64 = tex.base;
    let mut i: u64 = 0;
    while i < n
        invariant
            i <= n < 8,
            tex.log2w < 16,
            tex.log2h < 16,
            tex.base < 0x100_0000,
            off == tex.base + mip_off(*tex, i as nat),
        decreases n - i,
    {
        let a: u32 = if tex.log2w as u64 >= i { tex.log2w - i as u32 } else { 0 };
        let b: u32 = if tex.log2h as u64 >= i { tex.log2h - i as u32 } else { 0 };
        assert(a == shw(*tex, i as int) && b == shh(*tex, i as int));
        assert((1u64 << a) <= 0x8000) by (bit_vector)
            requires
                a < 16,
        ;
        assert((1u64 << b) <= 0x8000) by (bit_vector)
            requires
                b < 16,
        ;
        proof {
            lemma_mul_le((1u64 << a) as int, (1u64 << b) as int, 0x8000, 0x8000);
            lemma_mip_off_bound(*tex, i as nat);
            lemma_mul_le(i as int, 0x4000_0000, 8, 0x4000_0000);
        }
        off = off + (1u64 << a) * (1u64 << b);
        i = i + 1;
    }
    let sa: u32 = if tex.log2w as u64 >= n { tex.log2w - n as u32 } else { 0 };
    let sb: u32 = if tex.log2h as u64 >= n { tex.log2h - n as u32 } else { 0 };
    assert(sa == shw(*tex, n as int) && sb == shh(*tex, n as int));
    let w = 1u64 << sa;
    let h = 1u64 << sb;
    assert(1 <= w <= 0x8000 && 1 <= h <= 0x8000) by (bit_vector)
        requires
            w == 1u64 << sa,
            h == 1u64 << sb,
            sa < 16,
            sb < 16,
    ;
    let vv = (v >> 16u32) as u64;
    let uu = (u >> 16u32) as u64;
    let row = vv & (h - 1);
    let col = uu & (w - 1);
    assert(row <= h - 1 && col <= w - 1) by (bit_vector)
        requires
            row == vv & ((h - 1) as u64),
            col == uu & ((w - 1) as u64),
            h >= 1,
            w >= 1,
    ;
    proof {
        lemma_mip_off_bound(*tex, n as nat);
        lemma_mul_le(row as int, w as int, 0x8000, 0x8000);
    }
    read_u8(mem, off + row * w + col)
}


fn div_span(x: i64, span: i64) -> (r: i64)
    requires
        1 <= span <= 8,
    ensures
        r == (x as int / span as int) as i64,
{
    proof {
        lemma_div_within(x as int, span as int, 0x8000_0000_0000_0000);
        assert(x as int / span as int <= x as int || x < 0) by (nonlinear_arith)
            requires
                1 <= span,
        ;
        if x >= 0 {
            assert(0 <= x as int / span as int) by (nonlinear_arith)
                requires
                    1 <= span,
                    x >= 0,
            ;
        } else {
            assert(x as int <= x as int / span as int <= 0) by (nonlinear_arith)
                requires
                    1 <= span,
                    x < 0,
            ;
        }
    }
    match x.checked_div_euclid(span) {
        Some(d) => d,
        None => 0,
    }
}

fn clamp_lit(v: i64) -> (r: u64)
    requires
        v < i64::MAX,
    ensures
        r == clamp(v as int, 0, 63),
{
    if v < 0 {
        0
    } else if v > 63 {
        63
    } else {
        v as u64
    }
}

/// Executes the fragment at (px, py) and returns its cost.
fn frag_at(mem: &mut [u8], t: &TriSetup, block: &StateBlock, py: i32, px: i32, s: &SpanInfo) -> (c: u32)
    requires
        setup_wf(*t),
        0 <= px < 0xFFFF,
        0 <= py < 0xFFFF,
        s.xa <= px < s.xb,
        s.span == s.xb - s.xa,
        1 <= s.span <= 8,
        0 <= s.lod,
        s.level < t.tex.levels,
    ensures
        (final(mem)@, c as int) == frag(old(mem)@, *t, *block, py as int, px as int, *s),
        c <= 1,
        final(mem)@.len() == old(mem)@.len(),
{
    let cy = py * 16 + 8;
    let cx = px * 16 + 8;
    if !hit_at(t, px, cy) {
        return 0;
    }
    proof {
        lemma_mul_le(py as int, block.width as int, 0xFFFF, 0xFFFF);
    }
    let at = py as u64 * block.width as u64 + px as u64;
    let z = (interp_at(t, cx, cy, t.v0.z as i64, t.v1.z as i64, t.v2.z as i64) >> 16u32) as u16;
    let dst = read_u16(mem, block.z_base as u64 + at * 2);
    let ztest = t.flags & 0x04 == 0;
    let zgreater = t.flags & 0x02 != 0;
    let zwrite = t.flags & 0x08 == 0;
    let blend = t.flags & 0x01 != 0;
    let pass = !ztest || (if zgreater { z > dst } else { z < dst });
    if !pass {
        return 1;
    }
    let dith = bayer_at(py % 4, px % 4);
    let k = (px - s.xa) as i64;
    let up: u64 = if (s.lod & 0xF) > dith { 1 } else { 0 };
    let top = t.tex.levels - 1;
    let sampled = if s.level + up < top { s.level + up } else { top };
    let u = s.ua.wrapping_add(div_span(s.du.wrapping_mul(k), s.span));
    let v = s.va.wrapping_add(div_span(s.dv.wrapping_mul(k), s.span));
    let tx = texel_at(mem, &t.tex, sampled, u, v) as u64;
    let shade = interp_at(t, cx, cy, t.v0.shade as i64, t.v1.shade as i64, t.v2.shade as i64);
    let hi = shade >> 16u32;
    assert(-0x8000_0000_0000 <= hi < 0x8000_0000_0000) by (bit_vector)
        requires
            hi == shade >> 16u32,
    ;
    let bump: i64 = if (shade & 0xFFFFi64) > dith * 4096 { 1 } else { 0 };
    let lit = clamp_lit(hi + bump);
    let c0 = read_u8(mem, t.colormap + lit * 256 + tx);
    let color = if blend {
        let under = read_u8(mem, block.color_base as u64 + at) as u64;
        read_u8(mem, t.blend_base + under * 256 + c0 as u64)
    } else {
        c0
    };
    write_u8(mem, block.color_base as u64 + at, color);
    if zwrite {
        write_u16(mem, block.z_base as u64 + at * 2, z);
    }
    1
}


proof fn lemma_span_start(first: int, j: int, px: int)
    requires
        0 <= j,
        first + 8 * j <= px < first + 8 * j + 8,
    ensures
        span_start(first, px) == first + 8 * j,
{
    assert((px - first) / 8 == j) by (nonlinear_arith)
        requires
            0 <= j,
            8 * j <= px - first < 8 * j + 8,
    ;
}

/// Executes the TRI command at `head` and returns its cost in covered pixels.
pub(crate) fn exec_tri(mem: &mut [u8], block: &StateBlock, head: u16) -> (cost: u32)
    requires
        block.ring_words > 0,
    ensures
        final(mem)@ == tri_effect(old(mem)@, *block, head).0,
        cost == tri_effect(old(mem)@, *block, head).1,
        final(mem)@.len() == old(mem)@.len(),
{
    let ghost m0 = mem@;
    let t = match setup(mem, block, head) {
        None => {
            return 0;
        },
        Some(t) => t,
    };
    if t.y0 > t.y1 {
        return 0;
    }
    let mut cost: u32 = 0;
    let mut py = t.y0;
    while py <= t.y1
        invariant
            setup_wf(t),
            tri_setup(m0, *block, head) == Some(t),
            t.y0 <= py <= t.y1 + 1,
            mem@ == tri_rows(m0, t, *block, (py - t.y0) as nat).0,
            cost as int == tri_rows(m0, t, *block, (py - t.y0) as nat).1,
            cost <= (py - t.y0) * 0xFFFF,
            mem@.len() == m0.len(),
        decreases t.y1 + 1 - py,
    {
        let cy = py * 16 + 8;
        let ghost n = (py - t.y0 + 1) as nat;
        assert(t.y0 + n - 1 == py);
        match find_run(&t, cy) {
            None => {},
            Some((first, last)) => {
                let ghost m_row = mem@;
                let ghost c_row = cost as int;
                proof {
                    lemma_mul_le((py - t.y0) as int, 0xFFFF, 0xFFFE, 0xFFFF);
                }
                let mut xa = first;
                let ghost mut j: int = 0;
                while xa <= last
                    invariant
                        setup_wf(t),
                        0 <= t.x0 <= first <= last <= t.x1 < 0xFFFF,
                        0 <= t.y0 <= py <= t.y1 < 0xFFFF,
                        cy == py * 16 + 8,
                        first <= xa <= last + 1,
                        xa == last + 1 || xa == first + 8 * j,
                        c_row <= 0xFFFE * 0xFFFF,
                        mem@ == row_frags(m_row, t, *block, py as int, first as int, last as int, (xa - first) as nat).0,
                        cost - c_row == row_frags(m_row, t, *block, py as int, first as int, last as int, (xa - first) as nat).1,
                        0 <= cost - c_row <= xa - first,
                        mem@.len() == m0.len(),
                    decreases last + 1 - xa,
                {
                    let s = span_params(&t, last, xa, cy);
                    let mut px = xa;
                    while px < s.xb
                        invariant
                            setup_wf(t),
                            0 <= t.x0 <= first <= xa <= px <= s.xb <= last + 1,
                            last <= t.x1 < 0xFFFF,
                            0 <= t.y0 <= py <= t.y1 < 0xFFFF,
                            cy == py * 16 + 8,
                            xa == first + 8 * j,
                            s == span_info(t, last as int, xa as int, cy as int),
                            s.xa == xa,
                            s.span == s.xb - s.xa,
                            1 <= s.span <= 8,
                            0 <= s.lod,
                            s.level < t.tex.levels,
                            c_row <= 0xFFFE * 0xFFFF,
                            mem@ == row_frags(m_row, t, *block, py as int, first as int, last as int, (px - first) as nat).0,
                            cost - c_row == row_frags(m_row, t, *block, py as int, first as int, last as int, (px - first) as nat).1,
                            0 <= cost - c_row <= px - first,
                            mem@.len() == m0.len(),
                        decreases s.xb - px,
                    {
                        proof {
                            lemma_span_start(first as int, j, px as int);
                        }
                        let c = frag_at(mem, &t, block, py, px, &s);
                        cost = cost + c;
                        px = px + 1;
                    }
                    xa = s.xb;
                    proof {
                        j = j + 1;
                    }
                }
            },
        }
        py = py + 1;
    }
    cost
}


/// Two triangles that share an edge see it in opposite directions. No
/// pixel centre is inside both sides of it, and a centre exactly on it
/// belongs to exactly one side, so neighbours never paint a pixel twice
/// or leave a gap along their common edge.
pub proof fn law_shared_edge_has_one_owner(a: Vertex, b: Vertex, px: int, py: int)
    requires
        !(a.x == b.x && a.y == b.y),
    ensures
        !(inside(edge(a, b, px, py), top_left(a, b)) && inside(edge(b, a, px, py), top_left(b, a))),
        edge(a, b, px, py) == 0 ==> (inside(edge(a, b, px, py), top_left(a, b)) || inside(
            edge(b, a, px, py),
            top_left(b, a),
        )),
{
    let (ax, ay, bx, by_) = (a.x as int, a.y as int, b.x as int, b.y as int);
    assert((ax - bx) * (py - by_) - (ay - by_) * (px - bx) == -((bx - ax) * (py - ay) - (by_ - ay) * (px - ax)))
        by (nonlinear_arith);
}


proof fn lemma_rows_cost(m1: Seq<u8>, m2: Seq<u8>, t: TriSetup, b: StateBlock, n: nat)
    ensures
        tri_rows(m1, t, b, n).1 == tri_rows(m2, t, b, n).1,
    decreases n,
{
    if n > 0 {
        lemma_rows_cost(m1, m2, t, b, (n - 1) as nat);
        let py = t.y0 + n - 1;
        match row_run(t, py * 16 + 8) {
            None => {},
            Some((f, l)) => {
                lemma_row_cost(
                    tri_rows(m1, t, b, (n - 1) as nat).0,
                    tri_rows(m2, t, b, (n - 1) as nat).0,
                    t,
                    b,
                    py,
                    f,
                    l,
                    (l - f + 1) as nat,
                );
            },
        }
    }
}

proof fn lemma_row_cost(m1: Seq<u8>, m2: Seq<u8>, t: TriSetup, b: StateBlock, py: int, first: int, last: int, n: nat)
    ensures
        row_frags(m1, t, b, py, first, last, n).1 == row_frags(m2, t, b, py, first, last, n).1,
    decreases n,
{
    if n > 0 {
        lemma_row_cost(m1, m2, t, b, py, first, last, (n - 1) as nat);
    }
}

// ---------------------------------------------------------------------------
// What a triangle touches.

/// Two memories that hold the same bytes at every address outside `d`.
pub open spec fn agree_outside(m1: Seq<u8>, m2: Seq<u8>, d: Set<int>) -> bool {
    m1.len() == m2.len() && forall|a: int| 0 <= a < m1.len() && !#[trigger] d.contains(a) ==> m1[a] == m2[a]
}

/// The `len` bytes at TPU RAM offset `off` lie outside `d`.
pub open spec fn clear_of(d: Set<int>, off: int, len: int) -> bool {
    forall|a: int| TPU_RAM_BASE + off <= a < TPU_RAM_BASE + off + len ==> !#[trigger] d.contains(a)
}

/// Everything a triangle reads or writes lies outside `d`: its colour and
/// depth targets, its colour map, its blend table and all its mip levels.
#[verifier::opaque]
pub open spec fn draw_clear_of(t: TriSetup, b: StateBlock, d: Set<int>) -> bool {
    let n = b.width as int * b.height as int;
    &&& clear_of(d, b.color_base as int, n)
    &&& clear_of(d, b.z_base as int, 2 * n)
    &&& clear_of(d, t.colormap as int, 0x4000)
    &&& clear_of(d, t.blend_base as int, 0x1_0000)
    &&& clear_of(d, t.tex.base as int, mip_off(t.tex, t.tex.levels as nat))
}

proof fn lemma_rd8_agree(m1: Seq<u8>, m2: Seq<u8>, d: Set<int>, off: int)
    requires
        agree_outside(m1, m2, d),
        !d.contains(TPU_RAM_BASE + off),
    ensures
        rd8(m1, off) == rd8(m2, off),
{
    let a = TPU_RAM_BASE + off;
    if 0 <= a < m1.len() {
        assert(m1[a] == m2[a]);
    }
}

proof fn lemma_rd16_agree(m1: Seq<u8>, m2: Seq<u8>, d: Set<int>, off: int)
    requires
        agree_outside(m1, m2, d),
        !d.contains(TPU_RAM_BASE + off),
        !d.contains(TPU_RAM_BASE + off + 1),
    ensures
        rd16(m1, off) == rd16(m2, off),
{
    let a = TPU_RAM_BASE + off;
    if 0 <= a && a + 2 <= m1.len() {
        assert(m1[a] == m2[a]);
        assert(m1[a + 1] == m2[a + 1]);
    }
}

proof fn lemma_wr8_agree(m1: Seq<u8>, m2: Seq<u8>, d: Set<int>, off: int, v: u8)
    requires
        agree_outside(m1, m2, d),
    ensures
        agree_outside(wr8(m1, off, v), wr8(m2, off, v), d),
{
    let (w1, w2) = (wr8(m1, off, v), wr8(m2, off, v));
    assert forall|a: int| 0 <= a < w1.len() && !d.contains(a) implies w1[a] == w2[a] by {
        assert(m1[a] == m2[a]);
    }
}

proof fn lemma_wr16_agree(m1: Seq<u8>, m2: Seq<u8>, d: Set<int>, off: int, v: u16)
    requires
        agree_outside(m1, m2, d),
    ensures
        agree_outside(wr16(m1, off, v), wr16(m2, off, v), d),
{
    let (w1, w2) = (wr16(m1, off, v), wr16(m2, off, v));
    assert forall|a: int| 0 <= a < w1.len() && !d.contains(a) implies w1[a] == w2[a] by {
        assert(m1[a] == m2[a]);
    }
}

proof fn lemma_mip_off_grows(t: Texture, n: nat, k: nat)
    requires
        n <= k,
    ensures
        mip_off(t, n) <= mip_off(t, k),
    decreases k,
{
    if n < k {
        lemma_mip_off_grows(t, n, (k - 1) as nat);
        let a = 1u64 << shw(t, k - 1);
        let b = 1u64 << shh(t, k - 1);
        lemma_mul_le(0, 0, a as int, b as int);
    }
}

/// A texel of level `n` lies inside the texture's levels.
proof fn lemma_texel_agree(m1: Seq<u8>, m2: Seq<u8>, d: Set<int>, t: Texture, n: int, u: i64, v: i64)
    requires
        agree_outside(m1, m2, d),
        clear_of(d, t.base as int, mip_off(t, t.levels as nat)),
        0 <= n < t.levels,
        t.log2w < 16,
        t.log2h < 16,
    ensures
        texel(m1, t, n, u, v) == texel(m2, t, n, u, v),
{
    let sw = shw(t, n);
    let sh = shh(t, n);
    let w = 1u64 << sw;
    let h = 1u64 << sh;
    let uu = ((u >> 16u32) as u64) & ((w - 1) as u64);
    let vv = ((v >> 16u32) as u64) & ((h - 1) as u64);
    let uh = (u >> 16u32) as u64;
    let vh = (v >> 16u32) as u64;
    assert(1 <= w && uh & ((w - 1) as u64) < w) by (bit_vector)
        requires
            sw < 16,
            w == 1u64 << sw,
    ;
    assert(1 <= h && vh & ((h - 1) as u64) < h) by (bit_vector)
        requires
            sh < 16,
            h == 1u64 << sh,
    ;
    lemma_mul_le(vv as int, w as int, (h - 1) as int, w as int);
    assert((h - 1) as int * w as int + w as int == h as int * w as int) by (nonlinear_arith);
    assert(mip_off(t, (n + 1) as nat) == mip_off(t, n as nat) + w as int * h as int);
    assert(w as int * h as int == h as int * w as int) by (nonlinear_arith);
    lemma_mip_off_grows(t, (n + 1) as nat, t.levels as nat);
    lemma_mip_off_grows(t, 0, n as nat);
    let off = t.base + mip_off(t, n as nat) + vv * w + uu;
    assert(!d.contains(TPU_RAM_BASE + off));
    lemma_rd8_agree(m1, m2, d, off);
}

/// One fragment of a triangle whose reads and writes miss `d` costs the
/// same on memories that agree outside `d`, and leaves them agreeing.
proof fn lemma_frag_frame(m1: Seq<u8>, m2: Seq<u8>, t: TriSetup, b: StateBlock, py: int, px: int, s: SpanInfo, d: Set<int>)
    requires
        agree_outside(m1, m2, d),
        draw_clear_of(t, b, d),
        1 <= t.tex.levels,
        t.tex.log2w < 16,
        t.tex.log2h < 16,
        0 <= py < b.height,
        0 <= px < b.width,
    ensures
        agree_outside(frag(m1, t, b, py, px, s).0, frag(m2, t, b, py, px, s).0, d),
        frag(m1, t, b, py, px, s).1 == frag(m2, t, b, py, px, s).1,
{
    reveal(draw_clear_of);
    let cy = py * 16 + 8;
    let cx = px * 16 + 8;
    if hit(t, px, cy) {
        let wd = b.width as int;
        let ht = b.height as int;
        let at = py * wd + px;
        lemma_mul_le(py, wd, ht - 1, wd);
        assert((ht - 1) * wd + wd == ht * wd) by (nonlinear_arith);
        assert(0 <= py * wd) by (nonlinear_arith)
            requires
                0 <= py,
                0 <= wd,
        ;
        assert(0 <= at < wd * ht);
        assert(wd * ht == b.width as int * b.height as int);
        let zoff = b.z_base + at * 2;
        assert(!d.contains(TPU_RAM_BASE + zoff));
        assert(!d.contains(TPU_RAM_BASE + zoff + 1));
        lemma_rd16_agree(m1, m2, d, zoff);
        let z = (interp(t, cx, cy, t.v0.z as int, t.v1.z as int, t.v2.z as int) >> 16u32) as u16;
        let ztest = t.flags & 0x04 == 0;
        let zgreater = t.flags & 0x02 != 0;
        let dst = rd16(m1, zoff);
        let pass = !ztest || (if zgreater { z > dst } else { z < dst });
        if pass {
            let dith = bayer(py % 4, px % 4);
            let k = px - s.xa;
            let up: int = if (s.lod & 0xF) as int > dith { 1 } else { 0 };
            let sampled = if s.level + up < t.tex.levels - 1 { s.level + up } else { t.tex.levels - 1 };
            let u = s.ua.wrapping_add((s.du.wrapping_mul(k as i64) as int / s.span as int) as i64);
            let v = s.va.wrapping_add((s.dv.wrapping_mul(k as i64) as int / s.span as int) as i64);
            lemma_texel_agree(m1, m2, d, t.tex, sampled, u, v);
            let tx = texel(m1, t.tex, sampled, u, v);
            let shade = interp(t, cx, cy, t.v0.shade as int, t.v1.shade as int, t.v2.shade as int);
            let lit = clamp(
                (shade >> 16u32) as int + (if (shade & 0xFFFFi64) as int > dith * 4096 { 1int } else { 0int }),
                0,
                63,
            );
            let coff = t.colormap + lit * 256 + tx as int;
            assert(!d.contains(TPU_RAM_BASE + coff));
            lemma_rd8_agree(m1, m2, d, coff);
            let c0 = rd8(m1, coff);
            let boff = b.color_base + at;
            assert(!d.contains(TPU_RAM_BASE + boff));
            lemma_rd8_agree(m1, m2, d, boff);
            let toff = t.blend_base + rd8(m1, boff) as int * 256 + c0 as int;
            assert(!d.contains(TPU_RAM_BASE + toff));
            lemma_rd8_agree(m1, m2, d, toff);
            let blend = t.flags & 0x01 != 0;
            let color = if blend { rd8(m1, toff) } else { c0 };
            lemma_wr8_agree(m1, m2, d, boff, color);
            lemma_wr16_agree(wr8(m1, boff, color), wr8(m2, boff, color), d, zoff, z);
        }
    }
}

proof fn lemma_row_frame(m1: Seq<u8>, m2: Seq<u8>, t: TriSetup, b: StateBlock, py: int, first: int, last: int, n: nat, d: Set<int>)
    requires
        agree_outside(m1, m2, d),
        draw_clear_of(t, b, d),
        1 <= t.tex.levels,
        t.tex.log2w < 16,
        t.tex.log2h < 16,
        0 <= py < b.height,
        0 <= first,
        first + n - 1 < b.width,
    ensures
        agree_outside(row_frags(m1, t, b, py, first, last, n).0, row_frags(m2, t, b, py, first, last, n).0, d),
        row_frags(m1, t, b, py, first, last, n).1 == row_frags(m2, t, b, py, first, last, n).1,
    decreases n,
{
    if n > 0 {
        lemma_row_frame(m1, m2, t, b, py, first, last, (n - 1) as nat, d);
        let px = first + n - 1;
        let s = span_info(t, last, span_start(first, px), py * 16 + 8);
        lemma_frag_frame(
            row_frags(m1, t, b, py, first, last, (n - 1) as nat).0,
            row_frags(m2, t, b, py, first, last, (n - 1) as nat).0,
            t,
            b,
            py,
            px,
            s,
            d,
        );
    }
}

proof fn lemma_first_hit_range(t: TriSetup, cy: int, lo: int, hi: int)
    ensures
        first_hit(t, cy, lo, hi) matches Some(f) ==> lo <= f <= hi,
    decreases hi - lo + 1,
{
    if lo <= hi && !hit(t, lo, cy) {
        lemma_first_hit_range(t, cy, lo + 1, hi);
    }
}

proof fn lemma_last_hit_range(t: TriSetup, cy: int, lo: int, hi: int)
    ensures
        last_hit(t, cy, lo, hi) matches Some(l) ==> lo <= l <= hi,
    decreases hi - lo + 1,
{
    if lo <= hi && !hit(t, hi, cy) {
        lemma_last_hit_range(t, cy, lo, hi - 1);
    }
}

proof fn lemma_rows_frame(m1: Seq<u8>, m2: Seq<u8>, t: TriSetup, b: StateBlock, n: nat, d: Set<int>)
    requires
        agree_outside(m1, m2, d),
        draw_clear_of(t, b, d),
        1 <= t.tex.levels,
        t.tex.log2w < 16,
        t.tex.log2h < 16,
        0 <= t.x0,
        t.x1 < b.width,
        0 <= t.y0,
        n > 0 ==> t.y0 + n - 1 < b.height,
    ensures
        agree_outside(tri_rows(m1, t, b, n).0, tri_rows(m2, t, b, n).0, d),
        tri_rows(m1, t, b, n).1 == tri_rows(m2, t, b, n).1,
    decreases n,
{
    if n > 0 {
        lemma_rows_frame(m1, m2, t, b, (n - 1) as nat, d);
        let py = t.y0 + n - 1;
        let cy = py * 16 + 8;
        lemma_first_hit_range(t, cy, t.x0 as int, t.x1 as int);
        match first_hit(t, cy, t.x0 as int, t.x1 as int) {
            None => {},
            Some(f) => {
                lemma_last_hit_range(t, cy, f, t.x1 as int);
                match last_hit(t, cy, f, t.x1 as int) {
                    None => {},
                    Some(l) => {
                        lemma_row_frame(
                            tri_rows(m1, t, b, (n - 1) as nat).0,
                            tri_rows(m2, t, b, (n - 1) as nat).0,
                            t,
                            b,
                            py,
                            f,
                            l,
                            (l - f + 1) as nat,
                            d,
                        );
                    },
                }
            },
        }
    }
}

/// A set-up's texture is well formed and its box lies inside the target.
proof fn lemma_setup_in_target(m: Seq<u8>, b: StateBlock, head: u16)
    ensures
        tri_setup(m, b, head) matches Some(t) ==> 1 <= t.tex.levels && t.tex.log2w < 16 && t.tex.log2h < 16
            && 0 <= t.x0 && t.x1 < b.width && 0 <= t.y0 && t.y1 < b.height,
{
}

/// The winding of a triangle does not matter: a TRI command whose second
/// and third vertices are swapped sets up the same triangle, costs the same
/// pixels, and draws that same triangle into memory.
pub proof fn law_swapped_vertices_draw_the_same(m: Seq<u8>, m2: Seq<u8>, b: StateBlock, head: u16)
    requires
        forall|k: int| 0 <= k < 4 ==> ring_word_at(m2, b, head, k) == ring_word_at(m, b, head, k),
        vertex_at(m2, b, head, 0) == vertex_at(m, b, head, 0),
        vertex_at(m2, b, head, 1) == vertex_at(m, b, head, 2),
        vertex_at(m2, b, head, 2) == vertex_at(m, b, head, 1),
    ensures
        tri_setup(m2, b, head) == tri_setup(m, b, head),
        tri_effect(m2, b, head).1 == tri_effect(m, b, head).1,
        tri_effect(m2, b, head).0 == match tri_setup(m, b, head) {
            None => m2,
            Some(t) => tri_rows(m2, t, b, if t.y1 >= t.y0 { (t.y1 - t.y0 + 1) as nat } else { 0 }).0,
        },
{
    lemma_swapped_setup(m, m2, b, head);
}

/// Swapping the second and third vertices leaves the targets alike. Take
/// two memories that differ only at the addresses `d` (say, the command's
/// vertex words) and hold at `head` TRI commands alike but for those two
/// vertices. Where the triangle reads and writes nothing in `d`, drawing it
/// costs the same in both, and afterwards the two memories still differ
/// only at `d`: the colour and depth targets come out the same.
pub proof fn law_swapped_vertices_leave_targets_alike(m: Seq<u8>, m2: Seq<u8>, b: StateBlock, head: u16, d: Set<int>)
    requires
        agree_outside(m, m2, d),
        forall|k: int| 0 <= k < 4 ==> ring_word_at(m2, b, head, k) == ring_word_at(m, b, head, k),
        vertex_at(m2, b, head, 0) == vertex_at(m, b, head, 0),
        vertex_at(m2, b, head, 1) == vertex_at(m, b, head, 2),
        vertex_at(m2, b, head, 2) == vertex_at(m, b, head, 1),
        tri_setup(m, b, head) matches Some(t) ==> draw_clear_of(t, b, d),
    ensures
        tri_effect(m2, b, head).1 == tri_effect(m, b, head).1,
        agree_outside(tri_effect(m, b, head).0, tri_effect(m2, b, head).0, d),
{
    lemma_swapped_setup(m, m2, b, head);
    lemma_effect_frame(m, m2, b, head, d);
}

/// Drawing the same triangle into memories that agree outside `d`, where
/// the triangle touches nothing in `d`, costs the same and keeps them
/// agreeing outside `d`.
proof fn lemma_effect_frame(m: Seq<u8>, m2: Seq<u8>, b: StateBlock, head: u16, d: Set<int>)
    requires
        agree_outside(m, m2, d),
        tri_setup(m2, b, head) == tri_setup(m, b, head),
        tri_setup(m, b, head) matches Some(t) ==> draw_clear_of(t, b, d),
    ensures
        tri_effect(m2, b, head).1 == tri_effect(m, b, head).1,
        agree_outside(tri_effect(m, b, head).0, tri_effect(m2, b, head).0, d),
{
    match tri_setup(m, b, head) {
        None => {},
        Some(t) => {
            let rows: nat = if t.y1 >= t.y0 { (t.y1 - t.y0 + 1) as nat } else { 0 };
            lemma_setup_in_target(m, b, head);
            lemma_rows_frame(m, m2, t, b, rows, d);
        },
    }
}

proof fn lemma_swapped_setup(m: Seq<u8>, m2: Seq<u8>, b: StateBlock, head: u16)
    requires
        forall|k: int| 0 <= k < 4 ==> ring_word_at(m2, b, head, k) == ring_word_at(m, b, head, k),
        vertex_at(m2, b, head, 0) == vertex_at(m, b, head, 0),
        vertex_at(m2, b, head, 1) == vertex_at(m, b, head, 2),
        vertex_at(m2, b, head, 2) == vertex_at(m, b, head, 1),
    ensures
        tri_setup(m2, b, head) == tri_setup(m, b, head),
        tri_effect(m2, b, head).1 == tri_effect(m, b, head).1,
        tri_effect(m2, b, head).0 == match tri_setup(m, b, head) {
            None => m2,
            Some(t) => tri_rows(m2, t, b, if t.y1 >= t.y0 { (t.y1 - t.y0 + 1) as nat } else { 0 }).0,
        },
{
    let a0 = vertex_at(m, b, head, 0);
    let a1 = vertex_at(m, b, head, 1);
    let a2 = vertex_at(m, b, head, 2);
    assert(ring_word_at(m2, b, head, 0) == ring_word_at(m, b, head, 0));
    assert(ring_word_at(m2, b, head, 1) == ring_word_at(m, b, head, 1));
    assert(ring_word_at(m2, b, head, 2) == ring_word_at(m, b, head, 2));
    assert(ring_word_at(m2, b, head, 3) == ring_word_at(m, b, head, 3));
    let (x0, y0, x1, y1, x2, y2) = (a0.x as int, a0.y as int, a1.x as int, a1.y as int, a2.x as int, a2.y as int);
    assert((x2 - x0) * (y1 - y0) - (y2 - y0) * (x1 - x0) == -((x1 - x0) * (y2 - y0) - (y1 - y0) * (x2 - x0)))
        by (nonlinear_arith);
    assert(edge(a0, a2, a1.x as int, a1.y as int) == -edge(a0, a1, a2.x as int, a2.y as int));
    match tri_setup(m, b, head) {
        None => {},
        Some(t) => {
            let rows: nat = if t.y1 >= t.y0 { (t.y1 - t.y0 + 1) as nat } else { 0 };
            lemma_rows_cost(m, m2, t, b, rows);
        },
    }
}

} // verus!
