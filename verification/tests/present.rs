use vega68::present::{auto_scale, blit, centre, fit, FALLBACK_SCALE};
use vega68::vdp::{HEIGHT, WIDTH};

fn test_frame() -> Vec<u32> {
    (0..(WIDTH * HEIGHT) as u32).map(|i| i + 1).collect()
}

#[test]
fn fit_matches_the_worked_table() {
    let cases: [(usize, usize, usize, usize, usize); 7] = [
        (1280, 720, 4, 0, 0),
        (1600, 900, 5, 0, 0),
        (1700, 950, 5, 50, 25),
        (3440, 1440, 8, 440, 0),
        (900, 500, 2, 130, 70),
        (320, 180, 1, 0, 0),
        (200, 100, 1, 0, 0),
    ];

    for (sw, sh, scale, ox, oy) in cases {
        assert_eq!(fit(sw, sh), (scale, ox, oy), "surface {sw}x{sh}");
    }
}

#[test]
fn auto_scale_matches_the_worked_table() {
    let cases: [(u32, u32, usize); 9] = [
        (1366, 768, 4),
        (1920, 1080, 6),
        (2560, 1440, 6),
        (3440, 1440, 6),
        (3840, 2160, 6),
        (1280, 800, 4),
        (1024, 768, 3),
        (640, 480, 2),
        (320, 180, 1),
    ];

    for (w, h, scale) in cases {
        assert_eq!(auto_scale(Some((w, h))), scale, "monitor {w}x{h}");
    }

    assert_eq!(auto_scale(None), FALLBACK_SCALE, "no monitor");
}

#[test]
fn auto_scale_never_exceeds_1920x1080() {
    for w in (320..=3840).step_by(16) {
        for h in (180..=2160).step_by(18) {
            let s = auto_scale(Some((w, h)));

            assert!(WIDTH * s <= 1920, "{w}x{h} chose {s}x, too wide");
            assert!(HEIGHT * s <= 1080, "{w}x{h} chose {s}x, too tall");
        }
    }
}

#[test]
fn blit_exact_fit_has_no_border() {
    let frame = test_frame();
    let (sw, sh) = (1280, 720);
    let mut out = vec![0u32; sw * sh];

    blit(&frame, &mut out, sw, sh);

    assert!(out.iter().all(|&px| px != 0));
    assert_eq!(out[0], frame[0]);
    assert_eq!(out[sw * sh - 1], frame[WIDTH * HEIGHT - 1]);
}

#[test]
fn blit_letterboxed_is_black_outside_the_rect() {
    let frame = test_frame();
    let (sw, sh) = (1700, 950);
    let sentinel = 0xdead_beefu32;
    let mut out = vec![sentinel; sw * sh];

    blit(&frame, &mut out, sw, sh);

    let (scale, ox, oy) = fit(sw, sh);
    let mid_y = sh / 2;
    let mid_x = sw / 2;
    let right = ox + WIDTH * scale;
    let bottom = oy + HEIGHT * scale;

    assert_eq!(out[mid_y * sw + (ox - 1)], 0, "just outside left edge");
    assert_eq!(out[mid_y * sw + right], 0, "just outside right edge");
    assert_eq!(out[(oy - 1) * sw + mid_x], 0, "just outside top edge");
    assert_eq!(out[bottom * sw + mid_x], 0, "just outside bottom edge");

    for y in 0..HEIGHT * scale {
        for x in 0..WIDTH * scale {
            let expected = frame[(y / scale) * WIDTH + x / scale];
            assert_eq!(
                out[(oy + y) * sw + (ox + x)],
                expected,
                "interior pixel ({x}, {y})"
            );
        }
    }
}

#[test]
fn blit_clips_an_undersized_surface() {
    let frame = test_frame();
    let (sw, sh) = (200, 100);
    let mut out = vec![0u32; sw * sh];

    blit(&frame, &mut out, sw, sh);

    assert_eq!(out[0], frame[0]);
    assert_eq!(out[sh * sw - 1], frame[(sh - 1) * WIDTH + (sw - 1)]);
}

#[test]
fn blit_zero_sized_surface_does_not_panic() {
    let frame = test_frame();
    let mut out: Vec<u32> = vec![];

    blit(&frame, &mut out, 0, 0);
    blit(&frame, &mut out, 0, 5);
    blit(&frame, &mut out, 5, 0);
}

#[test]
fn blit_blacks_the_border_around_a_centred_frame() {
    let frame = test_frame();
    let (sw, sh) = (330, 185);
    let mut out = vec![9u32; sw * sh];

    blit(&frame, &mut out, sw, sh);

    assert_eq!(fit(sw, sh), (1, 5, 2));
    assert_eq!(out[2 * sw + 5], frame[0]);
    assert_eq!(out[2 * sw + 4], 0);
    assert_eq!(out[2 * sw + 325], 0);
    assert_eq!(out[sw + 10], 0);
}

#[test]
fn centre_splits_the_slack_rounding_toward_zero() {
    assert_eq!(centre((0, 0), (1920, 1080), (1280, 720)), (320, 180));
    assert_eq!(centre((100, -50), (1921, 1081), (1280, 720)), (420, 130));
    assert_eq!(centre((0, 0), (1280, 720), (1921, 1081)), (-320, -180));
}
