//! The video display processor: composes the 320x180 picture (or 640x360
//! in the doubled mode) from a backdrop, an optional TPU framebuffer, four
//! scrolling tile planes and 128 sprites, each plane and sprite in a low or
//! a high priority layer, then applies the global brightness.

use vstd::prelude::*;
use crate::tpu::lemma_mul_le;
use crate::bus::{FB_BASE, PALETTE_BASE, PALETTE_SIZE, TPU_RAM_BASE, VDP_MODE, VRAM_BASE};

verus! {

pub const WIDTH: usize = 320;
pub const HEIGHT: usize = 180;

pub const TILEMAP_COLS: usize = 128;
pub const TILEMAP_ROWS: usize = 128;
pub const TILEMAP_PLANES: usize = 4;
pub const SPRITE_COUNT: usize = 128;
pub const SPRITE_STRIDE: usize = 8;
pub const TILEMAP_STRIDE: usize = 0x8000;

pub const TILEMAPS: usize = 0x0304_0000;
pub const SPRITES: usize = 0x0306_0000;
pub const SCROLL: usize = 0x0306_1000;
pub const SCROLL_LINE_H: usize = 0x0306_1010;
pub const SCROLL_COL_V: usize = 0x0306_15B0;

/// The end of the video registers and memory the VDP reads directly.
pub const VIDEO_END: usize = 0x0308_0400;

// ---------------------------------------------------------------------------
// Reading video memory.

pub open spec fn be16(m: Seq<u8>, a: int) -> u16 {
    (m[a] as int * 0x100 + m[a + 1] as int) as u16
}

pub open spec fn be32(m: Seq<u8>, a: int) -> u32 {
    (m[a] as int * 0x100_0000 + m[a + 1] as int * 0x1_0000 + m[a + 2] as int * 0x100 + m[a
        + 3] as int) as u32
}

/// Palette entry `i` as 0x00RRGGBB.
pub open spec fn palette(m: Seq<u8>, i: int) -> u32 {
    (be32(m, PALETTE_BASE + i * 4) as int % 0x100_0000) as u32
}

/// Pixel (tx, ty) of 8x8 tile `tile` (tile numbers wrap at 0x1000).
pub open spec fn tile_pixel(m: Seq<u8>, tile: int, tx: int, ty: int) -> u8 {
    m[VRAM_BASE + (tile % 0x1000) * 64 + ty * 8 + tx]
}

/// Whether the mode register selects the doubled resolution.
pub open spec fn hires(m: Seq<u8>) -> bool {
    be16(m, VDP_MODE as int) & 1 != 0
}

/// Whether the mode register shows the TPU framebuffer in place of plane 0.
pub open spec fn fb_shown(m: Seq<u8>) -> bool {
    be16(m, VDP_MODE as int) & 2 != 0
}

pub open spec fn zoom(m: Seq<u8>) -> int {
    if hires(m) { 2 } else { 1 }
}

/// Brightness `b` applied to each channel: c * (b + 1) / 256.
pub open spec fn scaled(rgb: u32, b: u8) -> u32 {
    let f = b as int + 1;
    let r = ((rgb as int / 0x1_0000) % 0x100) * f / 0x100;
    let g = ((rgb as int / 0x100) % 0x100) * f / 0x100;
    let bl = (rgb as int % 0x100) * f / 0x100;
    (r * 0x1_0000 + g * 0x100 + bl) as u32
}

// ---------------------------------------------------------------------------
// Layers, at native (320x180) coordinates.

/// What tile plane `n` shows at native pixel (x, y) in the layer of
/// priority `hi`: `None` where its tile pixel is transparent (index 0) or
/// the cell belongs to the other layer. Each plane scrolls by a plane
/// offset plus a per-line horizontal and a per-8-column vertical offset,
/// and wraps at 1024 pixels; cells can be flipped either way.
#[verifier::opaque]
pub open spec fn plane_px(m: Seq<u8>, n: int, hi: bool, x: int, y: int) -> Option<u32> {
    let map = TILEMAPS + n * TILEMAP_STRIDE;
    let ph = be16(m, SCROLL + n * 4);
    let pv = be16(m, SCROLL + n * 4 + 2);
    let h = (ph as int + be16(m, SCROLL_LINE_H + n * 360 + y * 2) as int) % 0x1_0000;
    let v = (pv as int + be16(m, SCROLL_COL_V + n * 80 + (x / 8) * 2) as int) % 0x1_0000;
    let sx = (x + h) % 1024;
    let sy = (y + v) % 1024;
    let entry = be16(m, map + ((sy / 8) * 128 + sx / 8) * 2);
    if (entry & 0x4000 != 0) != hi {
        None
    } else {
        let tx = if entry & 0x1000 != 0 { 7 - sx % 8 } else { sx % 8 };
        let ty = if entry & 0x2000 != 0 { 7 - sy % 8 } else { sy % 8 };
        let index = tile_pixel(m, (entry & 0x0FFF) as int, tx, ty);
        if index == 0 { None } else { Some(palette(m, index as int)) }
    }
}

/// What sprite `s` shows at native pixel (x, y) in the layer of priority
/// `hi`: `None` unless it is enabled, in that layer, covers the pixel, and
/// its pixel there is opaque. A sprite is 1..8 tiles wide and high, laid
/// out row by row from its first tile, may be flipped, and may offset its
/// palette indices (wrapping at 256).
#[verifier::opaque]
pub open spec fn sprite_px(m: Seq<u8>, s: int, hi: bool, x: int, y: int) -> Option<u32> {
    let e = SPRITES + s * SPRITE_STRIDE;
    let ctrl = be16(m, e + 4);
    if ctrl & 0x8000 == 0 || (ctrl & 0x4000 != 0) != hi {
        None
    } else {
        let x0 = be16(m, e) as i16 as int;
        let y0 = be16(m, e + 2) as i16 as int;
        let attr = be16(m, e + 6);
        let w = ((attr & 7) as int + 1) * 8;
        let h = (((attr / 8) & 7) as int + 1) * 8;
        if !(x0 <= x < x0 + w && y0 <= y < y0 + h) {
            None
        } else {
            let sx = x - x0;
            let sy = y - y0;
            let fx = if ctrl & 0x1000 != 0 { w - 1 - sx } else { sx };
            let fy = if ctrl & 0x2000 != 0 { h - 1 - sy } else { sy };
            let t = (ctrl & 0x0FFF) as int + (fy / 8) * (w / 8) + fx / 8;
            let index = tile_pixel(m, t, fx % 8, fy % 8);
            if index == 0 {
                None
            } else {
                Some(palette(m, (index as int + (attr / 0x100) as int) % 0x100))
            }
        }
    }
}

/// Word `k` (0: x, 1: y, 2: control, 3: attributes) of sprite `s`'s entry.
pub open spec fn sprite_word(m: Seq<u8>, s: int, k: int) -> int {
    m[SPRITES + s * SPRITE_STRIDE + 2 * k] * 0x100 + m[SPRITES + s * SPRITE_STRIDE + 2 * k + 1]
}

/// A 16-bit word read as two's complement.
pub open spec fn signed16(w: int) -> int {
    if w >= 0x8000 { w - 0x1_0000 } else { w }
}

proof fn lemma_be16_word(m: Seq<u8>, a: int)
    ensures
        be16(m, a) as int == m[a] * 0x100 + m[a + 1],
        be16(m, a) as i16 as int == signed16(m[a] * 0x100 + m[a + 1]),
{
    let w = be16(m, a);
    assert(w as i16 as int == if w >= 0x8000 { w - 0x1_0000 } else { w as int }) by (bit_vector);
}

/// A sprite's tiles run row by row: for an enabled sprite of the layer, the
/// pixel at sprite-local (sx, sy) inside it, after mirroring sx across the
/// width when flipped horizontally (control bit 12) and sy across the
/// height when flipped vertically (bit 13), comes from tile base + (sy / 8)
/// * (width in tiles) + sx / 8, at (sx % 8, sy % 8) in that tile. So an
/// unflipped 16x16 sprite shows base, base + 1 on its top row of tiles and
/// base + 2, base + 3 below. The pixel shows unless its index is 0, and
/// the sprite's palette offset (attribute bits 15..8) is added to the
/// index, wrapping at 256.
pub proof fn law_sprite_tiles_run_row_by_row(m: Seq<u8>, s: int, hi: bool, x: int, y: int)
    requires
        sprite_word(m, s, 2) >= 0x8000,
        (sprite_word(m, s, 2) / 0x4000) % 2 == (if hi { 1int } else { 0 }),
        0 <= x - signed16(sprite_word(m, s, 0)) < (sprite_word(m, s, 3) % 8 + 1) * 8,
        0 <= y - signed16(sprite_word(m, s, 1)) < ((sprite_word(m, s, 3) / 8) % 8 + 1) * 8,
    ensures
        ({
            let cols = sprite_word(m, s, 3) % 8 + 1;
            let rows = (sprite_word(m, s, 3) / 8) % 8 + 1;
            let lx = x - signed16(sprite_word(m, s, 0));
            let ly = y - signed16(sprite_word(m, s, 1));
            let sx = if (sprite_word(m, s, 2) / 0x1000) % 2 == 1 { cols * 8 - 1 - lx } else { lx };
            let sy = if (sprite_word(m, s, 2) / 0x2000) % 2 == 1 { rows * 8 - 1 - ly } else { ly };
            let index = tile_pixel(m, sprite_word(m, s, 2) % 0x1000 + (sy / 8) * cols + sx / 8, sx % 8, sy % 8);
            sprite_px(m, s, hi, x, y) == if index == 0 {
                None
            } else {
                Some(palette(m, (index + sprite_word(m, s, 3) / 0x100) % 0x100))
            }
        }),
{
    reveal(sprite_px);
    let e = SPRITES + s * SPRITE_STRIDE;
    lemma_be16_word(m, e);
    lemma_be16_word(m, e + 2);
    lemma_be16_word(m, e + 4);
    lemma_be16_word(m, e + 6);
    let ctrl = be16(m, e + 4);
    let attr = be16(m, e + 6);
    assert((ctrl & 0x8000 != 0) == (ctrl >= 0x8000) && (ctrl & 0x4000 != 0) == ((ctrl / 0x4000) % 2 == 1)
        && (ctrl & 0x1000 != 0) == ((ctrl / 0x1000) % 2 == 1) && (ctrl & 0x2000 != 0) == ((ctrl / 0x2000) % 2 == 1)
        && (ctrl & 0x0FFF) == ctrl % 0x1000 && (attr & 7) == attr % 8 && ((attr / 8) & 7) == (attr / 8) % 8)
        by (bit_vector);
    let w = ((attr & 7) as int + 1) * 8;
    assert(w / 8 == (attr % 8) as int + 1);
}

/// The sprite layer of priority `hi` at (x, y), looking at sprites `s` and
/// up: the lowest-numbered sprite that shows there wins.
pub open spec fn sprite_from(m: Seq<u8>, hi: bool, x: int, y: int, s: int) -> Option<u32>
    decreases SPRITE_COUNT - s,
{
    if s >= SPRITE_COUNT || s < 0 {
        None
    } else {
        match sprite_px(m, s, hi, x, y) {
            Some(c) => Some(c),
            None => sprite_from(m, hi, x, y, s + 1),
        }
    }
}

/// The palette index of the TPU framebuffer at output pixel (ox, oy) of a
/// frame `w` pixels wide; zero past the end of memory.
pub open spec fn fb_index(m: Seq<u8>, w: int, ox: int, oy: int) -> int {
    let a = TPU_RAM_BASE + be32(m, FB_BASE as int) + oy * w + ox;
    if a < m.len() { m[a] as int } else { 0 }
}

/// The composition order, bottom to top. Layer 0 is the backdrop; layer 1
/// the TPU framebuffer; layers 2..=5 the low-priority planes 0..3; 6 the
/// low-priority sprites; 7..=9 the high-priority planes 0..2; 10 the
/// high-priority sprites; 11 high-priority plane 3. Plane 0 is hidden
/// while the framebuffer is shown.
pub open spec fn layer(m: Seq<u8>, k: int, ox: int, oy: int) -> Option<u32> {
    let z = zoom(m);
    let w = 320 * z;
    let x = ox / z;
    let y = oy / z;
    let fb = fb_shown(m);
    if k == 0 {
        Some(palette(m, 0))
    } else if k == 1 {
        if fb { Some(palette(m, fb_index(m, w, ox, oy))) } else { None }
    } else if 2 <= k <= 5 {
        if k == 2 && fb { None } else { plane_px(m, k - 2, false, x, y) }
    } else if k == 6 {
        sprite_from(m, false, x, y, 0)
    } else if 7 <= k <= 9 {
        if k == 7 && fb { None } else { plane_px(m, k - 7, true, x, y) }
    } else if k == 10 {
        sprite_from(m, true, x, y, 0)
    } else {
        plane_px(m, 3, true, x, y)
    }
}

/// The colour at output pixel (ox, oy) once layers 0..=k are composed:
/// the topmost layer that shows there.
pub open spec fn composed(m: Seq<u8>, k: int, ox: int, oy: int) -> u32
    decreases k,
{
    if k <= 0 {
        palette(m, 0)
    } else {
        match layer(m, k, ox, oy) {
            Some(c) => c,
            None => composed(m, k - 1, ox, oy),
        }
    }
}

/// The final colour at output pixel (ox, oy).
pub open spec fn pixel(m: Seq<u8>, brightness: u8, ox: int, oy: int) -> u32 {
    scaled(composed(m, 11, ox, oy), brightness)
}

/// The index of output pixel (ox, oy) in a frame `w` pixels wide.
pub open spec fn idx(w: int, ox: int, oy: int) -> int {
    oy * w + ox
}

pub open spec fn over(c: Option<u32>, under: u32) -> u32 {
    match c {
        Some(v) => v,
        None => under,
    }
}

// ---------------------------------------------------------------------------
// Frame geometry.

/// A valid frame: zoom 1 or 2, w x h = (320 x 180) * zoom.
pub open spec fn geom(w: int, h: int, z: int) -> bool {
    (z == 1 || z == 2) && w == 320 * z && h == 180 * z
}

proof fn lemma_geom(w: int, h: int, z: int)
    requires
        geom(w, h, z),
    ensures
        w * h <= 640 * 360,
        z == 1 ==> w * h == 320 * 180,
        z == 2 ==> w * h == 640 * 360,
{
}

proof fn lemma_idx_in_frame(w: int, h: int, ox: int, oy: int)
    requires
        0 <= ox < w,
        0 <= oy < h,
    ensures
        0 <= idx(w, ox, oy) < w * h,
        0 <= oy * w <= idx(w, ox, oy),
{
    assert(0 <= oy * w + ox < w * h) by (nonlinear_arith)
        requires
            0 <= ox < w,
            0 <= oy < h,
    ;
}

proof fn lemma_idx_inj(w: int, ox1: int, oy1: int, ox2: int, oy2: int)
    requires
        0 <= ox1 < w,
        0 <= ox2 < w,
        0 <= oy1,
        0 <= oy2,
    ensures
        (idx(w, ox1, oy1) == idx(w, ox2, oy2)) <==> (ox1 == ox2 && oy1 == oy2),
{
    if oy1 < oy2 {
        assert(oy1 * w + ox1 < oy2 * w + ox2) by (nonlinear_arith)
            requires
                0 <= ox1 < w,
                0 <= ox2,
                oy1 < oy2,
        ;
    } else if oy2 < oy1 {
        assert(oy2 * w + ox2 < oy1 * w + ox1) by (nonlinear_arith)
            requires
                0 <= ox2 < w,
                0 <= ox1,
                oy2 < oy1,
        ;
    }
}

proof fn lemma_zoom_div(o: int, n: int, z: int)
    requires
        z == 1 || z == 2,
        0 <= o,
    ensures
        (o / z == n) <==> (n * z <= o < n * z + z),
{
}

proof fn lemma_zoom_range(o: int, limit: int, z: int)
    requires
        z == 1 || z == 2,
        0 <= o < limit * z,
    ensures
        0 <= o / z < limit,
{
}

// ---------------------------------------------------------------------------
// Reading video memory, in code.

fn rd16(mem: &[u8], a: usize) -> (r: u16)
    requires
        a + 1 < mem.len(),
    ensures
        r == be16(mem@, a as int),
{
    mem[a] as u16 * 0x100 + mem[a + 1] as u16
}

fn rd32(mem: &[u8], a: usize) -> (r: u32)
    requires
        a + 3 < mem.len(),
    ensures
        r == be32(mem@, a as int),
{
    mem[a] as u32 * 0x100_0000 + mem[a + 1] as u32 * 0x1_0000 + mem[a + 2] as u32 * 0x100
        + mem[a + 3] as u32
}

fn palette_at(mem: &[u8], i: usize) -> (r: u32)
    requires
        i < 256,
        mem.len() >= VIDEO_END,
    ensures
        r == palette(mem@, i as int),
        r < 0x100_0000,
{
    rd32(mem, PALETTE_BASE as usize + i * 4) % 0x100_0000
}

fn tile_pixel_at(mem: &[u8], tile: usize, tx: usize, ty: usize) -> (r: u8)
    requires
        tx < 8,
        ty < 8,
        mem.len() >= VIDEO_END,
    ensures
        r == tile_pixel(mem@, tile as int, tx as int, ty as int),
{
    mem[VRAM_BASE as usize + (tile % 0x1000) * 64 + ty * 8 + tx]
}

fn scale(rgb: u32, brightness: u8) -> (r: u32)
    ensures
        r == scaled(rgb, brightness),
{
    let f = brightness as u32 + 1;
    let cr = (rgb / 0x1_0000) % 0x100;
    let cg = (rgb / 0x100) % 0x100;
    let cb = rgb % 0x100;
    proof {
        lemma_mul_le(cr as int, f as int, 0xFF, 0x100);
        lemma_mul_le(cg as int, f as int, 0xFF, 0x100);
        lemma_mul_le(cb as int, f as int, 0xFF, 0x100);
    }
    let r = cr * f / 0x100;
    let g = cg * f / 0x100;
    let b = cb * f / 0x100;
    r * 0x1_0000 + g * 0x100 + b
}

proof fn lemma_scaled_full(rgb: u32)
    requires
        rgb < 0x100_0000,
    ensures
        scaled(rgb, 255) == rgb,
{
    let c = rgb as int;
    assert(((c / 0x1_0000) % 0x100) * 256 / 0x100 == (c / 0x1_0000) % 0x100);
    assert(((c / 0x100) % 0x100) * 256 / 0x100 == (c / 0x100) % 0x100);
    assert((c % 0x100) * 256 / 0x100 == c % 0x100);
    assert(((c / 0x1_0000) % 0x100) * 0x1_0000 + ((c / 0x100) % 0x100) * 0x100 + c % 0x100 == c);
}

/// The output size, (320, 180) or, in the doubled mode, (640, 360).
pub fn mode(mem: &[u8]) -> (r: (usize, usize))
    requires
        mem.len() >= VDP_MODE + 2,
    ensures
        hires(mem@) ==> r == (640usize, 360usize),
        !hires(mem@) ==> r == (320usize, 180usize),
{
    if rd16(mem, VDP_MODE as usize) & 1 != 0 {
        (WIDTH * 2, HEIGHT * 2)
    } else {
        (WIDTH, HEIGHT)
    }
}

// ---------------------------------------------------------------------------
// Writing the frame.

/// Paints the zoom x zoom block of output pixels behind native pixel (x, y).
fn write_block(out: &mut [u32], w: usize, h: usize, z: usize, x: usize, y: usize, color: u32)
    requires
        geom(w as int, h as int, z as int),
        x < WIDTH,
        y < HEIGHT,
        old(out)@.len() >= w * h,
    ensures
        final(out)@.len() == old(out)@.len(),
        forall|i: int| w * h <= i < old(out)@.len() ==> final(out)@[i] == old(out)@[i],
        forall|ox: int, oy: int|
            #![trigger idx(w as int, ox, oy)]
            0 <= ox < w && 0 <= oy < h ==> final(out)@[idx(w as int, ox, oy)] == if ox / (z as int)
                == x && oy / (z as int) == y {
                color
            } else {
                old(out)@[idx(w as int, ox, oy)]
            },
{
    let ghost o = out@;
    let mut dy: usize = 0;
    while dy < z
        invariant
            geom(w as int, h as int, z as int),
            x < WIDTH,
            y < HEIGHT,
            dy <= z,
            o.len() >= w * h,
            out@.len() == o.len(),
            forall|i: int| w * h <= i < o.len() ==> out@[i] == o[i],
            forall|ox: int, oy: int|
                #![trigger idx(w as int, ox, oy)]
                0 <= ox < w && 0 <= oy < h ==> out@[idx(w as int, ox, oy)] == if ox / (z as int)
                    == x && oy / (z as int) == y && oy < y * z + dy {
                    color
                } else {
                    o[idx(w as int, ox, oy)]
                },
        decreases z - dy,
    {
        let mut dx: usize = 0;
        while dx < z
            invariant
                geom(w as int, h as int, z as int),
                x < WIDTH,
                y < HEIGHT,
                dy < z,
                dx <= z,
                o.len() >= w * h,
                out@.len() == o.len(),
                forall|i: int| w * h <= i < o.len() ==> out@[i] == o[i],
                forall|ox: int, oy: int|
                    #![trigger idx(w as int, ox, oy)]
                    0 <= ox < w && 0 <= oy < h ==> out@[idx(w as int, ox, oy)] == if ox / (z as int)
                        == x && oy / (z as int) == y && (oy < y * z + dy || (oy == y * z + dy && ox
                        < x * z + dx)) {
                        color
                    } else {
                        o[idx(w as int, ox, oy)]
                    },
            decreases z - dx,
        {
            let ox = x * z + dx;
            let oy = y * z + dy;
            proof {
                lemma_geom(w as int, h as int, z as int);
                lemma_idx_in_frame(w as int, h as int, ox as int, oy as int);
                lemma_zoom_div(ox as int, x as int, z as int);
                lemma_zoom_div(oy as int, y as int, z as int);
                assert forall|ox2: int, oy2: int|
                    0 <= ox2 < w && 0 <= oy2 < h implies (idx(w as int, ox2, oy2) == idx(
                        w as int,
                        ox as int,
                        oy as int,
                    )) == (ox2 == ox && oy2 == oy) by {
                    lemma_idx_inj(w as int, ox2, oy2, ox as int, oy as int);
                }
            }
            out[oy * w + ox] = color;
            proof {
                assert forall|ox2: int, oy2: int|
                    #![trigger idx(w as int, ox2, oy2)]
                    0 <= ox2 < w && 0 <= oy2 < h implies out@[idx(w as int, ox2, oy2)] == if ox2
                        / (z as int) == x && oy2 / (z as int) == y && (oy2 < y * z + dy || (oy2 == y
                        * z + dy && ox2 < x * z + dx + 1)) {
                        color
                    } else {
                        o[idx(w as int, ox2, oy2)]
                    } by {
                    lemma_zoom_div(ox2, x as int, z as int);
                    lemma_zoom_div(oy2, y as int, z as int);
                    lemma_idx_in_frame(w as int, h as int, ox2, oy2);
                }
            }
            dx = dx + 1;
        }
        proof {
            assert forall|ox2: int, oy2: int|
                #![trigger idx(w as int, ox2, oy2)]
                0 <= ox2 < w && 0 <= oy2 < h implies out@[idx(w as int, ox2, oy2)] == if ox2 / (
                z as int) == x && oy2 / (z as int) == y && oy2 < y * z + dy + 1 {
                    color
                } else {
                    o[idx(w as int, ox2, oy2)]
                } by {
                lemma_zoom_div(ox2, x as int, z as int);
                lemma_zoom_div(oy2, y as int, z as int);
            }
        }
        dy = dy + 1;
    }
    proof {
        assert forall|ox2: int, oy2: int|
            #![trigger idx(w as int, ox2, oy2)]
            0 <= ox2 < w && 0 <= oy2 < h implies out@[idx(w as int, ox2, oy2)] == if ox2 / (
            z as int) == x && oy2 / (z as int) == y {
                color
            } else {
                o[idx(w as int, ox2, oy2)]
            } by {
            lemma_zoom_div(oy2, y as int, z as int);
        }
    }
}

// ---------------------------------------------------------------------------
// Tile planes.

#[verifier::rlimit(60)]
fn plane_pixel(mem: &[u8], n: usize, hi: bool, x: usize, y: usize) -> (r: Option<u32>)
    requires
        n < TILEMAP_PLANES,
        x < WIDTH,
        y < HEIGHT,
        mem.len() >= VIDEO_END,
    ensures
        r == plane_px(mem@, n as int, hi, x as int, y as int),
{
    reveal(plane_px);
    let map = TILEMAPS + n * TILEMAP_STRIDE;
    let ph = rd16(mem, SCROLL + n * 4);
    let pv = rd16(mem, SCROLL + n * 4 + 2);
    let lh = rd16(mem, SCROLL_LINE_H + n * 360 + y * 2);
    let cv = rd16(mem, SCROLL_COL_V + n * 80 + (x / 8) * 2);
    let h = ph.wrapping_add(lh) as usize;
    let v = pv.wrapping_add(cv) as usize;
    assert(h == (ph as int + lh as int) % 0x1_0000);
    assert(v == (pv as int + cv as int) % 0x1_0000);
    let sx = (x + h) % 1024;
    let sy = (y + v) % 1024;
    let cell = (sy / 8) * 128 + sx / 8;
    assert(cell < 0x4000);
    let entry = rd16(mem, map + cell * 2);
    if (entry & 0x4000 != 0) != hi {
        return None;
    }
    let tx = if entry & 0x1000 != 0 { 7 - sx % 8 } else { sx % 8 };
    let ty = if entry & 0x2000 != 0 { 7 - sy % 8 } else { sy % 8 };
    let index = tile_pixel_at(mem, (entry & 0x0FFF) as usize, tx, ty);
    if index == 0 {
        None
    } else {
        Some(palette_at(mem, index as usize))
    }
}

/// Paints tile plane `n`'s layer of priority `hi` over the frame.
fn paint_plane(mem: &[u8], n: usize, hi: bool, w: usize, h: usize, z: usize, out: &mut [u32])
    requires
        n < TILEMAP_PLANES,
        geom(w as int, h as int, z as int),
        mem.len() >= VIDEO_END,
        old(out)@.len() >= w * h,
    ensures
        final(out)@.len() == old(out)@.len(),
        forall|i: int| w * h <= i < old(out)@.len() ==> final(out)@[i] == old(out)@[i],
        forall|ox: int, oy: int|
            #![trigger idx(w as int, ox, oy)]
            0 <= ox < w && 0 <= oy < h ==> final(out)@[idx(w as int, ox, oy)] == over(
                plane_px(mem@, n as int, hi, ox / (z as int), oy / (z as int)),
                old(out)@[idx(w as int, ox, oy)],
            ),
{
    let ghost o = out@;
    let mut y: usize = 0;
    while y < HEIGHT
        invariant
            n < TILEMAP_PLANES,
            geom(w as int, h as int, z as int),
            mem.len() >= VIDEO_END,
            y <= HEIGHT,
            o.len() >= w * h,
            out@.len() == o.len(),
            forall|i: int| w * h <= i < o.len() ==> out@[i] == o[i],
            forall|ox: int, oy: int|
                #![trigger idx(w as int, ox, oy)]
                0 <= ox < w && 0 <= oy < h ==> out@[idx(w as int, ox, oy)] == if oy / (z as int)
                    < y {
                    over(plane_px(mem@, n as int, hi, ox / (z as int), oy / (z as int)), o[idx(w as int, ox, oy)])
                } else {
                    o[idx(w as int, ox, oy)]
                },
        decreases HEIGHT - y,
    {
        let mut x: usize = 0;
        while x < WIDTH
            invariant
                n < TILEMAP_PLANES,
                geom(w as int, h as int, z as int),
                mem.len() >= VIDEO_END,
                y < HEIGHT,
                x <= WIDTH,
                o.len() >= w * h,
                out@.len() == o.len(),
                forall|i: int| w * h <= i < o.len() ==> out@[i] == o[i],
                forall|ox: int, oy: int|
                    #![trigger idx(w as int, ox, oy)]
                    0 <= ox < w && 0 <= oy < h ==> out@[idx(w as int, ox, oy)] == if oy / (z as int)
                        < y || (oy / (z as int) == y && ox / (z as int) < x) {
                        over(plane_px(mem@, n as int, hi, ox / (z as int), oy / (z as int)), o[idx(w as int, ox, oy)])
                    } else {
                        o[idx(w as int, ox, oy)]
                    },
            decreases WIDTH - x,
        {
            match plane_pixel(mem, n, hi, x, y) {
                Some(c) => {
                    write_block(out, w, h, z, x, y, c);
                },
                None => {},
            }
            x = x + 1;
        }
        proof {
            assert forall|ox: int, oy: int|
                #![trigger idx(w as int, ox, oy)]
                0 <= ox < w && 0 <= oy < h implies out@[idx(w as int, ox, oy)] == if oy / (z as int)
                    < y + 1 {
                    over(plane_px(mem@, n as int, hi, ox / (z as int), oy / (z as int)), o[idx(w as int, ox, oy)])
                } else {
                    o[idx(w as int, ox, oy)]
                } by {
                lemma_zoom_range(ox, 320, z as int);
            }
        }
        y = y + 1;
    }
    proof {
        assert forall|ox: int, oy: int|
            #![trigger idx(w as int, ox, oy)]
            0 <= ox < w && 0 <= oy < h implies out@[idx(w as int, ox, oy)] == over(
                plane_px(mem@, n as int, hi, ox / (z as int), oy / (z as int)),
                o[idx(w as int, ox, oy)],
            ) by {
            lemma_zoom_range(oy, 180, z as int);
        }
    }
}


// ---------------------------------------------------------------------------
// Sprites.

/// Paints sprite `s` over the frame if it is enabled and in the layer of
/// priority `hi`.
#[verifier::rlimit(60)]
fn paint_sprite(mem: &[u8], s: usize, hi: bool, w: usize, h: usize, z: usize, out: &mut [u32])
    requires
        s < SPRITE_COUNT,
        geom(w as int, h as int, z as int),
        mem.len() >= VIDEO_END,
        old(out)@.len() >= w * h,
    ensures
        final(out)@.len() == old(out)@.len(),
        forall|i: int| w * h <= i < old(out)@.len() ==> final(out)@[i] == old(out)@[i],
        forall|ox: int, oy: int|
            #![trigger idx(w as int, ox, oy)]
            0 <= ox < w && 0 <= oy < h ==> final(out)@[idx(w as int, ox, oy)] == over(
                sprite_px(mem@, s as int, hi, ox / (z as int), oy / (z as int)),
                old(out)@[idx(w as int, ox, oy)],
            ),
{
    proof {
        reveal(sprite_px);
    }
    let ghost o = out@;
    let e = SPRITES + s * SPRITE_STRIDE;
    let ctrl = rd16(mem, e + 4);
    if ctrl & 0x8000 == 0 || (ctrl & 0x4000 != 0) != hi {
        return;
    }
    let x0 = rd16(mem, e) as i16 as i32;
    let y0 = rd16(mem, e + 2) as i16 as i32;
    let attr = rd16(mem, e + 6);
    let sw: i32 = ((attr & 7) as i32 + 1) * 8;
    let sh: i32 = (((attr / 8) & 7) as i32 + 1) * 8;
    let tile = (ctrl & 0x0FFF) as usize;
    let offset = (attr / 0x100) as usize;
    assert((attr & 7) <= 7 && ((attr / 8) & 7) <= 7) by (bit_vector);
    let mut sy: i32 = 0;
    while sy < sh
        invariant
            s < SPRITE_COUNT,
            geom(w as int, h as int, z as int),
            mem.len() >= VIDEO_END,
            e == SPRITES + s * SPRITE_STRIDE,
            ctrl == be16(mem@, e + 4),
            ctrl & 0x8000 != 0,
            (ctrl & 0x4000 != 0) == hi,
            x0 == be16(mem@, e as int) as i16 as int,
            y0 == be16(mem@, e + 2) as i16 as int,
            attr == be16(mem@, e + 6),
            sw == ((attr & 7) as int + 1) * 8,
            sh == (((attr / 8) & 7) as int + 1) * 8,
            8 <= sw <= 64,
            8 <= sh <= 64,
            tile == (ctrl & 0x0FFF) as int,
            offset == (attr / 0x100) as int,
            0 <= sy <= sh,
            o.len() >= w * h,
            out@.len() == o.len(),
            forall|i: int| w * h <= i < o.len() ==> out@[i] == o[i],
            forall|ox: int, oy: int|
                #![trigger idx(w as int, ox, oy)]
                0 <= ox < w && 0 <= oy < h ==> out@[idx(w as int, ox, oy)] == if oy / (z as int)
                    < y0 + sy {
                    over(sprite_px(mem@, s as int, hi, ox / (z as int), oy / (z as int)), o[idx(w as int, ox, oy)])
                } else {
                    o[idx(w as int, ox, oy)]
                },
        decreases sh - sy,
    {
        proof {
            reveal(sprite_px);
        }
        let py = y0 + sy;
        let mut sx: i32 = 0;
        while sx < sw
            invariant
                s < SPRITE_COUNT,
                geom(w as int, h as int, z as int),
                mem.len() >= VIDEO_END,
                e == SPRITES + s * SPRITE_STRIDE,
                ctrl == be16(mem@, e + 4),
                ctrl & 0x8000 != 0,
                (ctrl & 0x4000 != 0) == hi,
                x0 == be16(mem@, e as int) as i16 as int,
                y0 == be16(mem@, e + 2) as i16 as int,
                attr == be16(mem@, e + 6),
                sw == ((attr & 7) as int + 1) * 8,
                sh == (((attr / 8) & 7) as int + 1) * 8,
                8 <= sw <= 64,
                8 <= sh <= 64,
                tile == (ctrl & 0x0FFF) as int,
                offset == (attr / 0x100) as int,
                0 <= sy < sh,
                py == y0 + sy,
                0 <= sx <= sw,
                o.len() >= w * h,
                out@.len() == o.len(),
                forall|i: int| w * h <= i < o.len() ==> out@[i] == o[i],
                forall|ox: int, oy: int|
                    #![trigger idx(w as int, ox, oy)]
                    0 <= ox < w && 0 <= oy < h ==> out@[idx(w as int, ox, oy)] == if oy / (z as int)
                        < py || (oy / (z as int) == py && ox / (z as int) < x0 + sx) {
                        over(sprite_px(mem@, s as int, hi, ox / (z as int), oy / (z as int)), o[idx(w as int, ox, oy)])
                    } else {
                        o[idx(w as int, ox, oy)]
                    },
            decreases sw - sx,
        {
            let px = x0 + sx;
            if 0 <= py && py < HEIGHT as i32 && 0 <= px && px < WIDTH as i32 {
                let fx = if ctrl & 0x1000 != 0 { sw - 1 - sx } else { sx };
                let fy = if ctrl & 0x2000 != 0 { sh - 1 - sy } else { sy };
                proof {
                    lemma_mul_le(fy as int / 8, sw as int / 8, 8, 8);
                }
                let t = tile + (fy as usize / 8) * (sw as usize / 8) + fx as usize / 8;
                let index = tile_pixel_at(mem, t, fx as usize % 8, fy as usize % 8);
                if index != 0 {
                    let c = palette_at(mem, (index as usize + offset) % 0x100);
                    write_block(out, w, h, z, px as usize, py as usize, c);
                }
                proof {
                    reveal(sprite_px);
                    assert(sprite_px(mem@, s as int, hi, px as int, py as int) == if index == 0 {
                        None
                    } else {
                        Some(palette(mem@, (index as int + offset) % 0x100))
                    });
                }
            }
            proof {
                assert forall|ox: int, oy: int|
                    #![trigger idx(w as int, ox, oy)]
                    0 <= ox < w && 0 <= oy < h implies out@[idx(w as int, ox, oy)] == if oy / (
                    z as int) < py || (oy / (z as int) == py && ox / (z as int) < x0 + sx + 1) {
                        over(sprite_px(mem@, s as int, hi, ox / (z as int), oy / (z as int)), o[idx(w as int, ox, oy)])
                    } else {
                        o[idx(w as int, ox, oy)]
                    } by {
                    reveal(sprite_px);
                    lemma_zoom_range(ox, 320, z as int);
                    lemma_zoom_range(oy, 180, z as int);
                }
            }
            sx = sx + 1;
        }
        proof {
            assert forall|ox: int, oy: int|
                #![trigger idx(w as int, ox, oy)]
                0 <= ox < w && 0 <= oy < h implies out@[idx(w as int, ox, oy)] == if oy / (z as int)
                    < y0 + sy + 1 {
                    over(sprite_px(mem@, s as int, hi, ox / (z as int), oy / (z as int)), o[idx(w as int, ox, oy)])
                } else {
                    o[idx(w as int, ox, oy)]
                } by {
                reveal(sprite_px);
            }
        }
        sy = sy + 1;
    }
}

/// Paints the sprite layer of priority `hi`: sprites from the highest
/// number down, so that lower-numbered sprites end up on top.
fn paint_sprites(mem: &[u8], hi: bool, w: usize, h: usize, z: usize, out: &mut [u32])
    requires
        geom(w as int, h as int, z as int),
        mem.len() >= VIDEO_END,
        old(out)@.len() >= w * h,
    ensures
        final(out)@.len() == old(out)@.len(),
        forall|i: int| w * h <= i < old(out)@.len() ==> final(out)@[i] == old(out)@[i],
        forall|ox: int, oy: int|
            #![trigger idx(w as int, ox, oy)]
            0 <= ox < w && 0 <= oy < h ==> final(out)@[idx(w as int, ox, oy)] == over(
                sprite_from(mem@, hi, ox / (z as int), oy / (z as int), 0),
                old(out)@[idx(w as int, ox, oy)],
            ),
{
    let ghost o = out@;
    let mut s: usize = SPRITE_COUNT;
    while s > 0
        invariant
            geom(w as int, h as int, z as int),
            mem.len() >= VIDEO_END,
            s <= SPRITE_COUNT,
            o.len() >= w * h,
            out@.len() == o.len(),
            forall|i: int| w * h <= i < o.len() ==> out@[i] == o[i],
            forall|ox: int, oy: int|
                #![trigger idx(w as int, ox, oy)]
                0 <= ox < w && 0 <= oy < h ==> out@[idx(w as int, ox, oy)] == over(
                    sprite_from(mem@, hi, ox / (z as int), oy / (z as int), s as int),
                    o[idx(w as int, ox, oy)],
                ),
        decreases s,
    {
        paint_sprite(mem, s - 1, hi, w, h, z, out);
        s = s - 1;
    }
}


// ---------------------------------------------------------------------------
// Backdrop, framebuffer and brightness.

/// Fills the frame with `color`.
fn fill_frame(out: &mut [u32], w: usize, h: usize, z: usize, color: u32)
    requires
        geom(w as int, h as int, z as int),
        old(out)@.len() >= w * h,
    ensures
        final(out)@.len() == old(out)@.len(),
        forall|i: int| w * h <= i < old(out)@.len() ==> final(out)@[i] == old(out)@[i],
        forall|ox: int, oy: int|
            #![trigger idx(w as int, ox, oy)]
            0 <= ox < w && 0 <= oy < h ==> final(out)@[idx(w as int, ox, oy)] == color,
{
    let ghost o = out@;
    proof {
        lemma_geom(w as int, h as int, z as int);
    }
    let n = w * h;
    let mut i: usize = 0;
    while i < n
        invariant
            n == w * h,
            i <= n,
            o.len() >= n,
            out@.len() == o.len(),
            forall|j: int| n <= j < o.len() ==> out@[j] == o[j],
            forall|j: int| 0 <= j < i ==> out@[j] == color,
        decreases n - i,
    {
        out[i] = color;
        i = i + 1;
    }
    proof {
        assert forall|ox: int, oy: int|
            #![trigger idx(w as int, ox, oy)]
            0 <= ox < w && 0 <= oy < h implies out@[idx(w as int, ox, oy)] == color by {
            lemma_idx_in_frame(w as int, h as int, ox, oy);
        }
    }
}

/// Scales every pixel of the frame by the brightness.
fn apply_brightness(out: &mut [u32], w: usize, h: usize, z: usize, brightness: u8)
    requires
        geom(w as int, h as int, z as int),
        old(out)@.len() >= w * h,
    ensures
        final(out)@.len() == old(out)@.len(),
        forall|i: int| w * h <= i < old(out)@.len() ==> final(out)@[i] == old(out)@[i],
        forall|ox: int, oy: int|
            #![trigger idx(w as int, ox, oy)]
            0 <= ox < w && 0 <= oy < h ==> final(out)@[idx(w as int, ox, oy)] == scaled(
                old(out)@[idx(w as int, ox, oy)],
                brightness,
            ),
{
    let ghost o = out@;
    proof {
        lemma_geom(w as int, h as int, z as int);
    }
    let n = w * h;
    let mut i: usize = 0;
    while i < n
        invariant
            n == w * h,
            i <= n,
            o.len() >= n,
            out@.len() == o.len(),
            forall|j: int| i <= j < o.len() ==> out@[j] == o[j],
            forall|j: int| 0 <= j < i ==> out@[j] == scaled(o[j], brightness),
        decreases n - i,
    {
        let v = out[i];
        out[i] = scale(v, brightness);
        i = i + 1;
    }
    proof {
        assert forall|ox: int, oy: int|
            #![trigger idx(w as int, ox, oy)]
            0 <= ox < w && 0 <= oy < h implies out@[idx(w as int, ox, oy)] == scaled(
                o[idx(w as int, ox, oy)],
                brightness,
            ) by {
            lemma_idx_in_frame(w as int, h as int, ox, oy);
        }
    }
}

/// Paints the TPU framebuffer, one byte per output pixel, over the whole
/// frame; index 0 is opaque here.
fn paint_framebuffer(mem: &[u8], w: usize, h: usize, z: usize, out: &mut [u32])
    requires
        geom(w as int, h as int, z as int),
        mem.len() >= VIDEO_END,
        old(out)@.len() >= w * h,
    ensures
        final(out)@.len() == old(out)@.len(),
        forall|i: int| w * h <= i < old(out)@.len() ==> final(out)@[i] == old(out)@[i],
        forall|ox: int, oy: int|
            #![trigger idx(w as int, ox, oy)]
            0 <= ox < w && 0 <= oy < h ==> final(out)@[idx(w as int, ox, oy)] == palette(
                mem@,
                fb_index(mem@, w as int, ox, oy),
            ),
{
    let ghost o = out@;
    let fb_base = rd32(mem, FB_BASE as usize);
    let base: u64 = TPU_RAM_BASE as u64 + fb_base as u64;
    proof {
        lemma_geom(w as int, h as int, z as int);
    }
    let mut y: usize = 0;
    while y < h
        invariant
            geom(w as int, h as int, z as int),
            w * h <= 640 * 360,
            mem.len() >= VIDEO_END,
            base == TPU_RAM_BASE + be32(mem@, FB_BASE as int),
            y <= h,
            o.len() >= w * h,
            out@.len() == o.len(),
            forall|i: int| w * h <= i < o.len() ==> out@[i] == o[i],
            forall|ox: int, oy: int|
                #![trigger idx(w as int, ox, oy)]
                0 <= ox < w && 0 <= oy < h ==> out@[idx(w as int, ox, oy)] == if oy < y {
                    palette(mem@, fb_index(mem@, w as int, ox, oy))
                } else {
                    o[idx(w as int, ox, oy)]
                },
        decreases h - y,
    {
        let mut x: usize = 0;
        while x < w
            invariant
                geom(w as int, h as int, z as int),
                w * h <= 640 * 360,
                mem.len() >= VIDEO_END,
                base == TPU_RAM_BASE + be32(mem@, FB_BASE as int),
                y < h,
                x <= w,
                o.len() >= w * h,
                out@.len() == o.len(),
                forall|i: int| w * h <= i < o.len() ==> out@[i] == o[i],
                forall|ox: int, oy: int|
                    #![trigger idx(w as int, ox, oy)]
                    0 <= ox < w && 0 <= oy < h ==> out@[idx(w as int, ox, oy)] == if oy < y || (oy
                        == y && ox < x) {
                        palette(mem@, fb_index(mem@, w as int, ox, oy))
                    } else {
                        o[idx(w as int, ox, oy)]
                    },
            decreases w - x,
        {
            proof {
                lemma_idx_in_frame(w as int, h as int, x as int, y as int);
                assert forall|ox2: int, oy2: int|
                    0 <= ox2 < w && 0 <= oy2 < h implies (idx(w as int, ox2, oy2) == idx(
                        w as int,
                        x as int,
                        y as int,
                    )) == (ox2 == x && oy2 == y) by {
                    lemma_idx_inj(w as int, ox2, oy2, x as int, y as int);
                }
            }
            let i = y * w + x;
            let a = base + i as u64;
            let index: usize = if a < mem.len() as u64 { mem[a as usize] as usize } else { 0 };
            let c = palette_at(mem, index);
            assert(c == palette(mem@, fb_index(mem@, w as int, x as int, y as int)));
            out[i] = c;
            proof {
                assert forall|ox2: int, oy2: int|
                    #![trigger idx(w as int, ox2, oy2)]
                    0 <= ox2 < w && 0 <= oy2 < h implies out@[idx(w as int, ox2, oy2)] == if oy2 < y
                        || (oy2 == y && ox2 < x + 1) {
                        palette(mem@, fb_index(mem@, w as int, ox2, oy2))
                    } else {
                        o[idx(w as int, ox2, oy2)]
                    } by {
                    lemma_idx_inj(w as int, ox2, oy2, x as int, y as int);
                    lemma_idx_in_frame(w as int, h as int, ox2, oy2);
                }
            }
            x = x + 1;
        }
        y = y + 1;
    }
}

proof fn lemma_sprite_from_lt(m: Seq<u8>, hi: bool, x: int, y: int, s: int)
    ensures
        sprite_from(m, hi, x, y, s) matches Some(c) ==> c < 0x100_0000,
    decreases SPRITE_COUNT - s,
{
    reveal(sprite_px);
    if s < SPRITE_COUNT && s >= 0 {
        lemma_sprite_from_lt(m, hi, x, y, s + 1);
    }
}

proof fn lemma_composed_lt(m: Seq<u8>, k: int, ox: int, oy: int)
    ensures
        composed(m, k, ox, oy) < 0x100_0000,
    decreases k,
{
    reveal(plane_px);
    let z = zoom(m);
    lemma_sprite_from_lt(m, false, ox / z, oy / z, 0);
    lemma_sprite_from_lt(m, true, ox / z, oy / z, 0);
    if k > 0 {
        lemma_composed_lt(m, k - 1, ox, oy);
    }
}

/// Composes the frame into `out`, which must hold at least the output
/// size's pixels (`mode`); pixels past the frame are left alone.
#[verifier::rlimit(100)]
pub fn render(mem: &[u8], brightness: u8, out: &mut [u32])
    requires
        mem.len() >= VIDEO_END,
        old(out)@.len() >= 320 * zoom(mem@) * 180 * zoom(mem@),
    ensures
        final(out)@.len() == old(out)@.len(),
        forall|i: int|
            320 * zoom(mem@) * 180 * zoom(mem@) <= i < old(out)@.len() ==> final(out)@[i] == old(
                out,
            )@[i],
        forall|ox: int, oy: int|
            #![trigger idx(320 * zoom(mem@), ox, oy)]
            0 <= ox < 320 * zoom(mem@) && 0 <= oy < 180 * zoom(mem@) ==> final(out)@[idx(
                320 * zoom(mem@),
                ox,
                oy,
            )] == pixel(mem@, brightness, ox, oy),
{
    let ghost m = mem@;
    let ghost o = out@;
    let (w, h) = mode(mem);
    let z = w / WIDTH;
    let tpu_plane = rd16(mem, VDP_MODE as usize) & 2 != 0;
    assert(z == zoom(m) && geom(w as int, h as int, z as int));
    assert(tpu_plane == fb_shown(m));
    let ghost wi = w as int;
    let ghost zi = z as int;
    proof {
        lemma_geom(wi, h as int, zi);
    }

    fill_frame(out, w, h, z, palette_at(mem, 0));
    assert forall|ox: int, oy: int|
        #![trigger idx(wi, ox, oy)]
        0 <= ox < w && 0 <= oy < h implies out@[idx(wi, ox, oy)] == composed(m, 0, ox, oy) by {}
    if tpu_plane {
        paint_framebuffer(mem, w, h, z, out);
    }
    assert forall|ox: int, oy: int|
        #![trigger idx(wi, ox, oy)]
        0 <= ox < w && 0 <= oy < h implies out@[idx(wi, ox, oy)] == composed(m, 1, ox, oy) by {}
    if !tpu_plane {
        paint_plane(mem, 0, false, w, h, z, out);
    }
    assert forall|ox: int, oy: int|
        #![trigger idx(wi, ox, oy)]
        0 <= ox < w && 0 <= oy < h implies out@[idx(wi, ox, oy)] == composed(m, 2, ox, oy) by {}
    paint_plane(mem, 1, false, w, h, z, out);
    assert forall|ox: int, oy: int|
        #![trigger idx(wi, ox, oy)]
        0 <= ox < w && 0 <= oy < h implies out@[idx(wi, ox, oy)] == composed(m, 3, ox, oy) by {}
    paint_plane(mem, 2, false, w, h, z, out);
    assert forall|ox: int, oy: int|
        #![trigger idx(wi, ox, oy)]
        0 <= ox < w && 0 <= oy < h implies out@[idx(wi, ox, oy)] == composed(m, 4, ox, oy) by {}
    paint_plane(mem, 3, false, w, h, z, out);
    assert forall|ox: int, oy: int|
        #![trigger idx(wi, ox, oy)]
        0 <= ox < w && 0 <= oy < h implies out@[idx(wi, ox, oy)] == composed(m, 5, ox, oy) by {}
    paint_sprites(mem, false, w, h, z, out);
    assert forall|ox: int, oy: int|
        #![trigger idx(wi, ox, oy)]
        0 <= ox < w && 0 <= oy < h implies out@[idx(wi, ox, oy)] == composed(m, 6, ox, oy) by {}
    if !tpu_plane {
        paint_plane(mem, 0, true, w, h, z, out);
    }
    assert forall|ox: int, oy: int|
        #![trigger idx(wi, ox, oy)]
        0 <= ox < w && 0 <= oy < h implies out@[idx(wi, ox, oy)] == composed(m, 7, ox, oy) by {}
    paint_plane(mem, 1, true, w, h, z, out);
    assert forall|ox: int, oy: int|
        #![trigger idx(wi, ox, oy)]
        0 <= ox < w && 0 <= oy < h implies out@[idx(wi, ox, oy)] == composed(m, 8, ox, oy) by {}
    paint_plane(mem, 2, true, w, h, z, out);
    assert forall|ox: int, oy: int|
        #![trigger idx(wi, ox, oy)]
        0 <= ox < w && 0 <= oy < h implies out@[idx(wi, ox, oy)] == composed(m, 9, ox, oy) by {}
    paint_sprites(mem, true, w, h, z, out);
    assert forall|ox: int, oy: int|
        #![trigger idx(wi, ox, oy)]
        0 <= ox < w && 0 <= oy < h implies out@[idx(wi, ox, oy)] == composed(m, 10, ox, oy) by {}
    paint_plane(mem, 3, true, w, h, z, out);
    assert forall|ox: int, oy: int|
        #![trigger idx(wi, ox, oy)]
        0 <= ox < w && 0 <= oy < h implies out@[idx(wi, ox, oy)] == composed(m, 11, ox, oy) by {}
    if brightness != 255 {
        apply_brightness(out, w, h, z, brightness);
    } else {
        assert forall|ox: int, oy: int|
            #![trigger idx(wi, ox, oy)]
            0 <= ox < w && 0 <= oy < h implies out@[idx(wi, ox, oy)] == pixel(m, brightness, ox, oy) by {
            lemma_composed_lt(m, 11, ox, oy);
            lemma_scaled_full(composed(m, 11, ox, oy));
        }
    }
}


proof fn lemma_sprite_from_rgb(m: Seq<u8>, hi: bool, x: int, y: int, s: int)
    ensures
        sprite_from(m, hi, x, y, s) matches Some(c) ==> c < 0x100_0000,
    decreases SPRITE_COUNT - s,
{
    reveal(sprite_px);
    if 0 <= s < SPRITE_COUNT {
        lemma_sprite_from_rgb(m, hi, x, y, s + 1);
    }
}

proof fn lemma_composed_rgb(m: Seq<u8>, k: int, ox: int, oy: int)
    ensures
        composed(m, k, ox, oy) < 0x100_0000,
    decreases k,
{
    reveal(plane_px);
    let z = zoom(m);
    lemma_sprite_from_rgb(m, false, ox / z, oy / z, 0);
    lemma_sprite_from_rgb(m, true, ox / z, oy / z, 0);
    if k > 0 {
        lemma_composed_rgb(m, k - 1, ox, oy);
    }
}

/// At full brightness the output is the composed colour, unchanged.
pub proof fn law_full_brightness_is_identity(m: Seq<u8>, ox: int, oy: int)
    ensures
        pixel(m, 255, ox, oy) == composed(m, 11, ox, oy),
{
    let c = composed(m, 11, ox, oy);
    lemma_composed_rgb(m, 11, ox, oy);
    assert(((c / 0x1_0000) % 0x100) * 0x1_0000 + ((c / 0x100) % 0x100) * 0x100 + c % 0x100 == c) by (bit_vector)
        requires
            c < 0x100_0000,
    ;
}

/// At brightness 0 every output pixel is black.
pub proof fn law_zero_brightness_is_black(m: Seq<u8>, ox: int, oy: int)
    ensures
        pixel(m, 0, ox, oy) == 0,
{
}


/// In the doubled resolution every layer but the TPU framebuffer is drawn
/// in 2x2 blocks: an output pixel shows what the top-left pixel of its
/// block shows. The framebuffer is sampled at the output resolution.
pub proof fn law_hires_draws_layers_in_blocks(m: Seq<u8>, k: int, ox: int, oy: int)
    requires
        hires(m),
        k != 1,
        ox >= 0,
        oy >= 0,
    ensures
        layer(m, k, ox, oy) == layer(m, k, ox - ox % 2, oy - oy % 2),
{
    assert((ox - ox % 2) / 2 == ox / 2);
    assert((oy - oy % 2) / 2 == oy / 2);
}

} // verus!
