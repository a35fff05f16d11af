//! Putting the frame on a host window: picking an integer scale, centring
//! the window, and letterboxing the scaled frame onto a surface.

use vstd::prelude::*;
use crate::vdp::{WIDTH, HEIGHT};

verus! {

pub const MAX_SCALE: usize = 6;
pub const FALLBACK_SCALE: usize = 4;

/// Signed division rounding toward zero.
pub open spec fn half_toward_zero(d: int) -> int {
    if d >= 0 { d / 2 } else { -((-d) / 2) }
}

/// The top-left corner that centres a window on a monitor whose top-left
/// corner is `origin`: sizes are read as `i32`, and the offset is half the
/// difference, rounded toward zero.
pub open spec fn centred(origin: (i32, i32), monitor: (u32, u32), window: (u32, u32)) -> (int, int) {
    (
        origin.0 + half_toward_zero(monitor.0 as i32 - window.0 as i32),
        origin.1 + half_toward_zero(monitor.1 as i32 - window.1 as i32),
    )
}

fn half_i32(d: i32) -> (r: i32)
    ensures
        r == half_toward_zero(d as int),
{
    if d >= 0 {
        d / 2
    } else if d == i32::MIN {
        -0x4000_0000
    } else {
        -((-d) / 2)
    }
}

/// Centres a window on a monitor.
pub fn centre(origin: (i32, i32), monitor: (u32, u32), window: (u32, u32)) -> (r: (i32, i32))
    requires
        i32::MIN <= monitor.0 as i32 - window.0 as i32 <= i32::MAX,
        i32::MIN <= monitor.1 as i32 - window.1 as i32 <= i32::MAX,
        i32::MIN <= centred(origin, monitor, window).0 <= i32::MAX,
        i32::MIN <= centred(origin, monitor, window).1 <= i32::MAX,
    ensures
        r.0 == centred(origin, monitor, window).0,
        r.1 == centred(origin, monitor, window).1,
{
    (
        origin.0 + half_i32(monitor.0 as i32 - window.0 as i32),
        origin.1 + half_i32(monitor.1 as i32 - window.1 as i32),
    )
}

/// The window scale for a monitor: the largest integer scale of 320x180
/// that fits, at least 1 and at most 6; 4 when the monitor is unknown.
pub open spec fn auto_scale_spec(monitor: Option<(u32, u32)>) -> int {
    match monitor {
        None => FALLBACK_SCALE as int,
        Some((w, h)) => {
            let s = if w / 320 <= h / 180 { w / 320 } else { h / 180 };
            if s < 1 { 1 } else if s > MAX_SCALE { MAX_SCALE as int } else { s as int }
        },
    }
}

pub fn auto_scale(monitor: Option<(u32, u32)>) -> (r: usize)
    ensures
        r == auto_scale_spec(monitor),
{
    match monitor {
        None => FALLBACK_SCALE,
        Some((w, h)) => {
            let a = w as usize / WIDTH;
            let b = h as usize / HEIGHT;
            let s = if a <= b { a } else { b };
            if s < 1 {
                1
            } else if s > MAX_SCALE {
                MAX_SCALE
            } else {
                s
            }
        },
    }
}

/// The scale and top-left offset of the frame on a surface: the largest
/// integer scale that fits (at least 1), centred, rounding down.
pub open spec fn fit_spec(sw: int, sh: int) -> (int, int, int) {
    let a = sw / 320;
    let b = sh / 180;
    let s0 = if a <= b { a } else { b };
    let scale = if s0 < 1 { 1 } else { s0 };
    let ox = if sw >= 320 * scale { (sw - 320 * scale) / 2 } else { 0 };
    let oy = if sh >= 180 * scale { (sh - 180 * scale) / 2 } else { 0 };
    (scale, ox, oy)
}

pub fn fit(surface_w: usize, surface_h: usize) -> (r: (usize, usize, usize))
    ensures
        r.0 == fit_spec(surface_w as int, surface_h as int).0,
        r.1 == fit_spec(surface_w as int, surface_h as int).1,
        r.2 == fit_spec(surface_w as int, surface_h as int).2,
        r.0 >= 1,
        r.1 <= surface_w,
        r.2 <= surface_h,
{
    let a = surface_w / WIDTH;
    let b = surface_h / HEIGHT;
    let s0 = if a <= b { a } else { b };
    let scale = if s0 < 1 { 1 } else { s0 };
    proof {
        assert(320 * scale <= surface_w || scale == 1) by (nonlinear_arith)
            requires
                scale == 1 || scale <= surface_w / 320,
        ;
        assert(180 * scale <= surface_h || scale == 1) by (nonlinear_arith)
            requires
                scale == 1 || scale <= surface_h / 180,
                s0 <= surface_h / 180,
                scale == 1 || scale == s0,
        ;
    }
    let ox = if surface_w >= WIDTH * scale { (surface_w - WIDTH * scale) / 2 } else { 0 };
    let oy = if surface_h >= HEIGHT * scale { (surface_h - HEIGHT * scale) / 2 } else { 0 };
    (scale, ox, oy)
}


/// The scale, offset and clipped size of the frame on a surface.
pub open spec fn blit_rect(sw: int, sh: int) -> (int, int, int, int, int) {
    let (scale, ox, oy) = fit_spec(sw, sh);
    let img_w = if 320 * scale <= sw - ox { 320 * scale } else { sw - ox };
    let img_h = if 180 * scale <= sh - oy { 180 * scale } else { sh - oy };
    (scale, ox, oy, img_w, img_h)
}

/// The surface pixel at index `i`: inside the frame's rectangle, the frame
/// pixel it magnifies; everywhere else, black.
pub open spec fn blit_px(frame: Seq<u32>, sw: int, sh: int, i: int) -> u32 {
    let (scale, ox, oy, img_w, img_h) = blit_rect(sw, sh);
    if sw <= 0 {
        0
    } else {
        let y = i / sw;
        let x = i % sw;
        if oy <= y < oy + img_h && ox <= x < ox + img_w {
            frame[((y - oy) / scale) * 320 + (x - ox) / scale]
        } else {
            0
        }
    }
}

proof fn lemma_divmod(q: int, r: int, d: int)
    requires
        0 <= q,
        0 <= r < d,
    ensures
        (q * d + r) / d == q,
        (q * d + r) % d == r,
{
    vstd::arithmetic::div_mod::lemma_fundamental_div_mod_converse(q * d + r, d, q, r);
}

proof fn lemma_row_of(j: int, q: int, d: int)
    requires
        0 < d,
        0 <= j,
        0 <= q,
    ensures
        j < q * d ==> j / d < q,
        j >= q * d ==> j / d >= q,
{
    assert(j < q * d ==> j / d < q) by (nonlinear_arith)
        requires
            0 < d,
            0 <= j,
    ;
    assert(j >= q * d ==> j / d >= q) by (nonlinear_arith)
        requires
            0 < d,
            0 <= q,
    ;
}

/// Letterboxes the frame onto a `surface_w` x `surface_h` surface at the
/// largest integer scale, centred, clipping when the surface is smaller
/// than the frame; everything outside the frame's rectangle, up to the
/// end of `out`, becomes black.
pub fn blit(frame: &[u32], out: &mut [u32], surface_w: usize, surface_h: usize)
    requires
        (blit_rect(surface_w as int, surface_h as int).2 + blit_rect(surface_w as int, surface_h as int).4)
            * surface_w <= old(out)@.len(),
        blit_rect(surface_w as int, surface_h as int).4 > 0 ==> ((blit_rect(surface_w as int, surface_h as int).4
            - 1) / blit_rect(surface_w as int, surface_h as int).0 + 1) * 320 <= frame@.len(),
    ensures
        final(out)@.len() == old(out)@.len(),
        forall|i: int| 0 <= i < old(out)@.len() ==> final(out)@[i] == blit_px(frame@, surface_w as int, surface_h as int, i),
{
    let ghost o = out@;
    let out_len = out.len();
    let frame_len = frame.len();
    let sw = surface_w;
    let sh = surface_h;
    let (scale, ox, oy) = fit(sw, sh);
    let img_w = if WIDTH * scale <= sw - ox { WIDTH * scale } else { sw - ox };
    let img_h = if HEIGHT * scale <= sh - oy { HEIGHT * scale } else { sh - oy };
    let ghost rect = blit_rect(sw as int, sh as int);
    assert(rect == (scale as int, ox as int, oy as int, img_w as int, img_h as int));
    proof {
        lemma_mul_nonneg_le(oy as int, (oy + img_h) as int, sw as int);
        assert((oy + img_h) * sw <= o.len());
        assert(oy * sw <= o.len());
    }
    let top = oy * sw;
    let bottom = (oy + img_h) * sw;
    let mut i: usize = 0;
    while i < top
        invariant
            top == oy * sw,
            top <= bottom <= o.len(),
            rect == (scale as int, ox as int, oy as int, img_w as int, img_h as int),
            rect == blit_rect(sw as int, sh as int),
            i <= top,
            out@.len() == o.len(),
            forall|j: int| 0 <= j < i ==> out@[j] == blit_px(frame@, sw as int, sh as int, j),
            forall|j: int| i <= j < o.len() ==> out@[j] == o[j],
        decreases top - i,
    {
        proof {
            if sw > 0 {
                lemma_row_of(i as int, oy as int, sw as int);
            }
        }
        out[i] = 0;
        i = i + 1;
    }
    let mut y: usize = 0;
    while y < img_h
        invariant
            top == oy * sw,
            bottom == (oy + img_h) * sw,
            top <= bottom <= o.len(),
            rect == (scale as int, ox as int, oy as int, img_w as int, img_h as int),
            rect == blit_rect(sw as int, sh as int),
            scale >= 1,
            ox + img_w <= sw,
            img_w <= 320 * scale,
            img_h > 0 ==> (((img_h - 1) as int) / (scale as int) + 1) * 320 <= frame@.len(),
            y <= img_h,
            out@.len() == o.len(),
            out_len == o.len(),
            frame_len == frame@.len(),
            forall|j: int| 0 <= j < (oy + y) * sw ==> out@[j] == blit_px(frame@, sw as int, sh as int, j),
            forall|j: int| (oy + y) * sw <= j < o.len() ==> out@[j] == o[j],
        decreases img_h - y,
    {
        proof {
            lemma_mul_nonneg_le((oy + y + 1) as int, (oy + img_h) as int, sw as int);
            assert((oy + y + 1) * sw == (oy + y) * sw + sw) by (nonlinear_arith);
            assert((y as int) / (scale as int) <= ((img_h - 1) as int) / (scale as int)) by (nonlinear_arith)
                requires
                    y < img_h,
                    scale >= 1,
            ;
        }
        assert((oy + y + 1) * sw <= o.len());
        assert(img_h > 0);
        assert(((y as int) / (scale as int)) * 320 + 320 <= frame@.len());
        let row = (oy + y) * sw;
        let src = (y / scale) * WIDTH;
        let mut x: usize = 0;
        while x < sw
            invariant
                row == (oy + y) * sw,
                row + sw <= o.len(),
                src == ((y as int) / (scale as int)) * 320,
                src + 320 <= frame@.len(),
                rect == (scale as int, ox as int, oy as int, img_w as int, img_h as int),
                rect == blit_rect(sw as int, sh as int),
                scale >= 1,
                ox + img_w <= sw,
                img_w <= 320 * scale,
                y < img_h,
                x <= sw,
                out@.len() == o.len(),
                out_len == o.len(),
                frame_len == frame@.len(),
                forall|j: int| 0 <= j < row + x ==> out@[j] == blit_px(frame@, sw as int, sh as int, j),
                forall|j: int| row + x <= j < o.len() ==> out@[j] == o[j],
            decreases sw - x,
        {
            proof {
                lemma_divmod((oy + y) as int, x as int, sw as int);
            }
            let v = if ox <= x && x < ox + img_w {
                proof {
                    assert(((x - ox) as int) / (scale as int) < 320) by (nonlinear_arith)
                        requires
                            0 <= x - ox < img_w,
                            img_w <= 320 * scale,
                            scale >= 1,
                    ;
                }
                assert(src + ((x - ox) as int) / (scale as int) < frame@.len());
                frame[src + (x - ox) / scale]
            } else {
                0
            };
            out[row + x] = v;
            x = x + 1;
        }
        y = y + 1;
    }
    let mut i: usize = bottom;
    while i < out.len()
        invariant
            bottom == (oy + img_h) * sw,
            bottom <= o.len(),
            rect == (scale as int, ox as int, oy as int, img_w as int, img_h as int),
            rect == blit_rect(sw as int, sh as int),
            bottom <= i <= o.len(),
            out@.len() == o.len(),
            forall|j: int| 0 <= j < i ==> out@[j] == blit_px(frame@, sw as int, sh as int, j),
            forall|j: int| i <= j < o.len() ==> out@[j] == o[j],
        decreases o.len() - i,
    {
        proof {
            if sw > 0 {
                lemma_row_of(i as int, (oy + img_h) as int, sw as int);
            }
        }
        out[i] = 0;
        i = i + 1;
    }
}

proof fn lemma_mul_nonneg_le(a: int, b: int, c: int)
    requires
        0 <= a <= b,
        0 <= c,
    ensures
        a * c <= b * c,
{
    assert(a * c <= b * c) by (nonlinear_arith)
        requires
            0 <= a <= b,
            0 <= c,
    ;
}

/// The chosen window never exceeds 1920 x 1080.
pub proof fn law_auto_scale_fits_1080p(monitor: Option<(u32, u32)>)
    ensures
        320 * auto_scale_spec(monitor) <= 1920,
        180 * auto_scale_spec(monitor) <= 1080,
        1 <= auto_scale_spec(monitor),
{
}

/// On a surface at least as large as the frame, the frame's rectangle is
/// not clipped: it is the full 320 x 180 frame at the chosen scale, and it
/// fits the surface.
pub proof fn law_fit_covers_the_frame(sw: int, sh: int)
    requires
        sw >= 320,
        sh >= 180,
    ensures
        blit_rect(sw, sh).3 == 320 * blit_rect(sw, sh).0,
        blit_rect(sw, sh).4 == 180 * blit_rect(sw, sh).0,
        blit_rect(sw, sh).1 + blit_rect(sw, sh).3 <= sw,
        blit_rect(sw, sh).2 + blit_rect(sw, sh).4 <= sh,
{
    let a = sw / 320;
    let b = sh / 180;
    assert(320 * a <= sw) by (nonlinear_arith)
        requires
            a == sw / 320,
            sw >= 0,
    ;
    assert(180 * b <= sh) by (nonlinear_arith)
        requires
            b == sh / 180,
            sh >= 0,
    ;
    assert(a >= 1 && b >= 1);
}


/// A surface of exactly k times the frame's size shows the frame at scale
/// k with no border.
pub proof fn law_exact_fit_has_no_border(k: int)
    requires
        k >= 1,
    ensures
        blit_rect(320 * k, 180 * k) == (k, 0int, 0int, 320 * k, 180 * k),
{
    assert((320 * k) / 320 == k) by (nonlinear_arith)
        requires
            k >= 1,
    ;
    assert((180 * k) / 180 == k) by (nonlinear_arith)
        requires
            k >= 1,
    ;
}

} // verus!
