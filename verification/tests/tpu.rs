use vega68::bus::TPU_RAM_BASE;
use vega68::tpu::{
    run, Tpu, FILL_COLOR, FILL_Z, TRI_BLEND, TRI_ZGREATER, TRI_ZTEST_OFF, TRI_ZWRITE_OFF,
};


const BLEND: u32 = 0x1_0000;
const CMAP: u32 = 0x4000;
const COLOR: u32 = 0x1000;
const RING: u32 = 0x100;
const TEX: u32 = 0x3000;
const Z: u32 = 0x2000;

const TEX_DESC: u32 = (TEX >> 3) << 12 | 0x001;
const TEX_MIP: u32 = (TEX >> 3) << 12 | 0x334;
const TEX_WIDE: u32 = (TEX >> 3) << 12 | 0x501;

const UVQ_1: [[i32; 3]; 3] = [[0, 0, 0x0001_0000]; 3];

fn fill(flags: u8, x0: u16, y0: u16, x1: u16, y1: u16, color: u8, z: u16) -> [u32; 5] {
    [
        0x0200_0000 | flags as u32,
        (x0 as u32) << 16 | y0 as u32,
        (x1 as u32) << 16 | y1 as u32,
        color as u32,
        z as u32,
    ]
}

fn ring_with(ring_words: u32, cmds: &[u32]) -> Vec<u8> {
    let mut m = vec![0u8; TPU_RAM_BASE as usize + 0x2_0000];

    put32(&mut m, 0, RING);
    put32(&mut m, 4, ring_words);
    put32(&mut m, 8, COLOR);
    put32(&mut m, 12, Z);
    put16(&mut m, 16, 16);
    put16(&mut m, 18, 16);

    for (i, &w) in cmds.iter().enumerate() {
        put_ring_word(&mut m, ring_words, i as u32, w);
    }

    m
}

fn tri(flags: u8, vs: [(i32, i32, u16, i32); 3]) -> Vec<u32> {
    tri_uv(flags, 0, TEX_DESC, 0, vs, UVQ_1)
}

fn tri_uv(
    flags: u8,
    bias: i8,
    desc: u32,
    blend: u32,
    vs: [(i32, i32, u16, i32); 3],
    uvq: [[i32; 3]; 3],
) -> Vec<u32> {
    let w0 = 0x0100_0000 | (bias as u8 as u32) << 8 | flags as u32;
    let mut w = vec![w0, desc, CMAP, blend];

    for (i, (x, y, z, shade)) in vs.into_iter().enumerate() {
        w.extend([
            (x << 16) as u32,
            (y << 16) as u32,
            (z as u32) << 16,
            uvq[i][0] as u32,
            uvq[i][1] as u32,
            uvq[i][2] as u32,
            (shade << 16) as u32,
        ]);
    }

    w
}

fn tri_ram(ring_words: u32, cmds: &[u32]) -> Vec<u8> {
    let mut m = ring_with(ring_words, cmds);

    put8(&mut m, TEX, 1);
    for r in 0..64u32 {
        put8(&mut m, CMAP + r * 256 + 1, (r + 1) as u8);
    }

    m
}

fn put8(m: &mut [u8], off: u32, v: u8) {
    m[TPU_RAM_BASE as usize + off as usize] = v;
}

fn put16(m: &mut [u8], off: u32, v: u16) {
    let a = TPU_RAM_BASE as usize + off as usize;
    m[a..a + 2].copy_from_slice(&v.to_be_bytes());
}

fn put32(m: &mut [u8], off: u32, v: u32) {
    let a = TPU_RAM_BASE as usize + off as usize;
    m[a..a + 4].copy_from_slice(&v.to_be_bytes());
}

fn put_ring_word(m: &mut [u8], ring_words: u32, raw_index: u32, w: u32) {
    let idx = raw_index % ring_words;
    put32(m, RING + idx * 4, w);
}

fn color_at(mem: &[u8], x: u32, y: u32) -> u8 {
    mem[TPU_RAM_BASE as usize + COLOR as usize + (y * 16 + x) as usize]
}

fn z_at(mem: &[u8], x: u32, y: u32) -> u16 {
    let a = TPU_RAM_BASE as usize + Z as usize + (y * 16 + x) as usize * 2;
    u16::from_be_bytes([mem[a], mem[a + 1]])
}

#[test]
fn fill_writes_color_and_z_half_open() {
    let cmd = fill(FILL_COLOR | FILL_Z, 1, 1, 3, 3, 7, 0x00FF);
    let mut mem = ring_with(8, &cmd);
    let mut t = Tpu::new();
    t.tail = 5;

    run(&mut t, &mut mem);

    for y in 1..3 {
        for x in 1..3 {
            assert_eq!(color_at(&mem, x, y), 7, "color at ({x},{y})");
            assert_eq!(z_at(&mem, x, y), 0x00FF, "z at ({x},{y})");
        }
    }
    assert_eq!(
        color_at(&mem, 0, 0),
        0,
        "fill wrote left of its half-open rect"
    );
    assert_eq!(
        color_at(&mem, 3, 3),
        0,
        "fill wrote at its exclusive far corner"
    );
    assert_eq!(t.head, t.tail, "head must reach tail after a full drain");
}

#[test]
fn fill_costs_quarter_pixels_rounded_up() {
    let cmd = fill(FILL_COLOR, 0, 0, 3, 3, 1, 0);
    let mut mem = ring_with(8, &cmd);
    let mut t = Tpu::new();
    t.tail = 5;

    run(&mut t, &mut mem);

    assert_eq!(t.pixels, 3, "ceil(9/4) must be 3");
}

#[test]
fn ring_words_that_is_not_a_power_of_two_drains_nothing() {
    let cmd = fill(FILL_COLOR, 0, 0, 3, 3, 7, 0);
    let mut mem = ring_with(10, &cmd);
    let mut t = Tpu::new();
    t.tail = 5;

    run(&mut t, &mut mem);

    assert_eq!(
        t.head, t.tail,
        "an invalid ring must snap head straight to tail"
    );
    assert_eq!(
        color_at(&mem, 0, 0),
        0,
        "an invalid ring must not execute any command"
    );
}

#[test]
fn unknown_opcode_advances_head_by_one_word_and_executes_nothing() {
    let mut mem = ring_with(8, &[0x00FF_FFFF]);
    let mut t = Tpu::new();
    t.tail = 1;

    run(&mut t, &mut mem);

    assert_eq!(
        t.head, 1,
        "unknown opcode must advance head by exactly one word"
    );
    assert_eq!(t.pixels, 0, "unknown opcode must cost nothing");
    assert_eq!(color_at(&mem, 0, 0), 0, "unknown opcode must not paint");
}

#[test]
fn misaligned_tail_terminates_instead_of_spinning() {
    const RING_WORDS: u32 = 8;
    let mut mem = ring_with(RING_WORDS, &[]);
    put_ring_word(&mut mem, RING_WORDS, 6, 0x0200_0000);

    let mut t = Tpu::new();
    t.tail = 7;

    run(&mut t, &mut mem);

    assert_eq!(
        t.head, t.tail,
        "a misaligned/corrupt ring must still terminate with head == tail"
    );
}

#[test]
fn fill_command_words_straddling_the_ring_wrap_execute_correctly() {
    const RING_WORDS: u32 = 8;
    let cmd = fill(FILL_COLOR, 0, 0, 2, 2, 6, 0);
    let mut mem = ring_with(RING_WORDS, &[]);

    for (j, &w) in cmd.iter().enumerate() {
        put_ring_word(&mut mem, RING_WORDS, 6 + j as u32, w);
    }

    let mut t = Tpu::new();
    t.head = 6;
    t.tail = 11;

    run(&mut t, &mut mem);

    assert_eq!(
        t.head, t.tail,
        "head must land on tail after a wrap-straddling command"
    );
    assert_eq!(
        color_at(&mem, 0, 0),
        6,
        "the wrapped command must have executed"
    );
    assert_eq!(
        t.pixels, 1,
        "cost must be charged for a command that straddles the wrap"
    );
}

#[test]
fn drain_survives_multiple_ring_wraps_without_rerunning_stale_commands() {
    const RING_WORDS: u32 = 8;
    let mut mem = ring_with(RING_WORDS, &[]);
    let mut t = Tpu::new();

    for (i, &color) in [11u8, 22, 33, 44].iter().enumerate() {
        let cmd = fill(FILL_COLOR, 0, 0, 1, 1, color, 0);
        let base = i as u32 * 5;

        for (j, &w) in cmd.iter().enumerate() {
            put_ring_word(&mut mem, RING_WORDS, base + j as u32, w);
        }

        t.tail = t.tail.wrapping_add(5);
        run(&mut t, &mut mem);

        assert_eq!(
            t.head, t.tail,
            "tail write {i}: head must land exactly on tail"
        );
        assert_eq!(
            color_at(&mem, 0, 0),
            color,
            "tail write {i}: a stale command re-ran instead"
        );
    }
}

#[test]
fn budget_lets_a_command_finish_then_stops_and_carries() {
    let cmd1 = fill(FILL_COLOR, 0, 0, 16, 16, 5, 0);
    let cmd2 = fill(FILL_COLOR, 0, 0, 2, 2, 9, 0);
    let cmds: Vec<u32> = cmd1.into_iter().chain(cmd2).collect();
    let mut mem = ring_with(16, &cmds);
    let mut t = Tpu::new();
    t.tail = 10;
    t.budget = 10;

    run(&mut t, &mut mem);

    assert_eq!(
        t.head, 5,
        "command 1 must complete and advance head past it"
    );
    assert_ne!(t.head, t.tail, "command 2 must not run in this drain");
    assert_eq!(t.deficit, 54, "overshoot (64 - 10) must carry as deficit");
    assert_eq!(
        color_at(&mem, 0, 0),
        5,
        "command 1 must have written despite overshooting"
    );

    t.frame_start(&mut mem);

    assert_eq!(
        t.head, t.tail,
        "frame_start must re-drain the deferred command"
    );
    assert_eq!(
        color_at(&mem, 0, 0),
        9,
        "deferred command 2 must have run after frame_start"
    );
    assert_eq!(t.deficit, 0, "deficit clears once granted to the new frame");
}

#[test]
fn right_triangle_covers_the_textbook_six_pixels() {
    let cmd = tri(TRI_ZTEST_OFF, [(0, 0, 0, 0), (4, 0, 0, 0), (0, 4, 0, 0)]);
    let mut mem = tri_ram(32, &cmd);
    let mut t = Tpu::new();
    t.tail = 25;

    run(&mut t, &mut mem);

    let want = [(0, 0), (1, 0), (2, 0), (0, 1), (1, 1), (0, 2)];
    for y in 0..16 {
        for x in 0..16 {
            let expect = u8::from(want.contains(&(x, y)));
            assert_eq!(color_at(&mem, x, y), expect, "coverage at ({x},{y})");
        }
    }
    assert_eq!(t.pixels, 6, "exactly six fragments may be charged");
}

#[test]
fn reversed_winding_covers_the_same_six_pixels() {
    let cmd = tri(TRI_ZTEST_OFF, [(0, 0, 0, 0), (0, 4, 0, 0), (4, 0, 0, 0)]);
    let mut mem = tri_ram(32, &cmd);
    let mut t = Tpu::new();
    t.tail = 25;

    run(&mut t, &mut mem);

    let want = [(0, 0), (1, 0), (2, 0), (0, 1), (1, 1), (0, 2)];
    for y in 0..16 {
        for x in 0..16 {
            let expect = u8::from(want.contains(&(x, y)));
            assert_eq!(color_at(&mem, x, y), expect, "coverage at ({x},{y})");
        }
    }
    assert_eq!(
        t.pixels, 6,
        "winding normalisation must not change the covered set"
    );
}

#[test]
fn degenerate_triangle_is_skipped_at_zero_cost() {
    let cmd = tri(TRI_ZTEST_OFF, [(0, 0, 0, 0), (4, 0, 0, 0), (8, 0, 0, 0)]);
    let mut mem = tri_ram(32, &cmd);
    let mut t = Tpu::new();
    t.tail = 25;

    run(&mut t, &mut mem);

    assert_eq!(t.pixels, 0, "a zero-area triangle has no fragments");
    assert_eq!(
        color_at(&mem, 0, 0),
        0,
        "a zero-area triangle must paint nothing"
    );
    assert_eq!(
        t.head, t.tail,
        "a skipped triangle still advances head past its 25 words"
    );
}

#[test]
fn shared_edge_paints_every_pixel_exactly_once() {
    let mut cmds = tri(TRI_ZTEST_OFF, [(0, 0, 0, 0), (4, 0, 0, 0), (4, 4, 0, 0)]);
    cmds.extend(tri(
        TRI_ZTEST_OFF,
        [(0, 0, 0, 1), (4, 4, 0, 1), (0, 4, 0, 1)],
    ));
    let mut mem = tri_ram(64, &cmds);
    let mut t = Tpu::new();
    t.tail = 50;

    run(&mut t, &mut mem);

    for y in 0..4 {
        for x in 0..4 {
            let expect = if x >= y { 1 } else { 2 };
            assert_eq!(color_at(&mem, x, y), expect, "quad pixel ({x},{y})");
        }
    }
    assert_eq!(
        t.pixels, 16,
        "a gap or a double-paint would move this off 16"
    );
    assert_eq!(
        color_at(&mem, 4, 4),
        0,
        "the quad must not paint outside 4x4"
    );
}

#[test]
fn fragments_outside_the_scissor_are_not_fragments() {
    let cmd = tri(TRI_ZTEST_OFF, [(14, 0, 0, 0), (18, 0, 0, 0), (14, 4, 0, 0)]);
    let mut mem = tri_ram(32, &cmd);
    let mut t = Tpu::new();
    t.tail = 25;

    run(&mut t, &mut mem);

    assert_eq!(
        t.pixels, 5,
        "only the five in-scissor fragments may be charged"
    );
    assert_eq!(
        color_at(&mem, 14, 0),
        1,
        "the in-scissor part must still paint"
    );
    assert_eq!(
        color_at(&mem, 0, 1),
        0,
        "an out-of-scissor fragment wrapped onto row 1"
    );
}

#[test]
fn z_less_rejects_and_zgreater_flips() {
    let verts = |z, shade| [(0, 0, z, shade), (4, 0, z, shade), (0, 4, z, shade)];
    let mut cmds = fill(FILL_Z, 0, 0, 16, 16, 0, 0x0100).to_vec();
    cmds.extend(tri(0, verts(0x0200, 4)));
    cmds.extend(tri(TRI_ZGREATER, verts(0x0200, 9)));
    cmds.extend(tri(TRI_ZGREATER, verts(0x0200, 20)));
    cmds.extend(tri(TRI_ZGREATER | TRI_ZWRITE_OFF, verts(0x0300, 30)));
    let mut mem = tri_ram(128, &cmds);
    let mut t = Tpu::new();

    t.tail = 30;
    run(&mut t, &mut mem);
    assert_eq!(
        color_at(&mem, 0, 0),
        0,
        "0x0200 < 0x0100 is false: pass 1 must reject"
    );
    assert_eq!(
        z_at(&mem, 0, 0),
        0x0100,
        "a rejected fragment must not write z"
    );
    assert_eq!(t.pixels, 70, "64 for the FILL plus 6 z-failed fragments");

    t.tail = 55;
    run(&mut t, &mut mem);
    assert_eq!(
        color_at(&mem, 0, 0),
        10,
        "ZGREATER must accept 0x0200 > 0x0100"
    );
    assert_eq!(
        z_at(&mem, 0, 0),
        0x0200,
        "an accepted fragment writes its z"
    );
    assert_eq!(t.pixels, 76, "six more fragments");

    t.tail = 80;
    run(&mut t, &mut mem);
    assert_eq!(
        color_at(&mem, 0, 0),
        10,
        "a tie must fail under ZGREATER too"
    );
    assert_eq!(t.pixels, 82, "a z-failed fragment still costs one pixel");

    t.tail = 105;
    run(&mut t, &mut mem);
    assert_eq!(color_at(&mem, 0, 0), 31, "pass 4 passes the depth test");
    assert_eq!(
        z_at(&mem, 0, 0),
        0x0200,
        "ZWRITE_OFF must leave the z-buffer alone"
    );
}

#[test]
fn shades_interpolate_and_dither_between_colormap_rows() {
    const WANT: [(u32, u32, u8); 6] = [
        (0, 0, 13),
        (1, 0, 21),
        (2, 0, 29),
        (0, 1, 28),
        (1, 1, 37),
        (0, 2, 45),
    ];

    let cmd = tri(TRI_ZTEST_OFF, [(0, 0, 0, 0), (4, 0, 0, 32), (0, 4, 0, 63)]);
    let mut mem = tri_ram(32, &cmd);
    let mut t = Tpu::new();
    t.tail = 25;

    run(&mut t, &mut mem);

    for (x, y, color) in WANT {
        assert_eq!(color_at(&mem, x, y), color, "dithered shade at ({x},{y})");
    }
}

#[test]
fn z_interpolates_across_the_vertex_gradient() {
    const WANT: [(u32, u32, u16); 6] = [
        (0, 0, 1536),
        (1, 0, 2560),
        (2, 0, 3584),
        (0, 1, 3584),
        (1, 1, 4608),
        (0, 2, 5632),
    ];

    let cmd = tri(
        TRI_ZTEST_OFF,
        [(0, 0, 0, 0), (4, 0, 4096, 0), (0, 4, 8192, 0)],
    );
    let mut mem = tri_ram(32, &cmd);
    let mut t = Tpu::new();
    t.tail = 25;

    run(&mut t, &mut mem);

    for (x, y, z) in WANT {
        assert_eq!(z_at(&mem, x, y), z, "interpolated z at ({x},{y})");
    }
}

#[test]
fn perspective_divide_is_exact_at_subspan_boundaries() {
    const UQ: i32 = 16 << 16;
    const WANT: [u8; 16] = [16, 15, 14, 13, 13, 12, 11, 11, 10, 10, 9, 9, 9, 8, 8, 8];

    let cmd = tri_uv(
        TRI_ZTEST_OFF,
        0,
        TEX_WIDE,
        0,
        [(0, 0, 0, 0), (20, 0, 0, 0), (0, 20, 0, 0)],
        [[UQ, 0, 63488], [UQ, 0, 145408], [UQ, 0, 63488]],
    );
    let mut mem = ring_with(32, &cmd);

    for i in 0..32u32 {
        put8(&mut mem, TEX + i, i as u8);
        put8(&mut mem, CMAP + i, i as u8);
    }

    let mut t = Tpu::new();
    t.tail = 25;

    run(&mut t, &mut mem);

    for (x, want) in WANT.into_iter().enumerate() {
        assert_eq!(
            color_at(&mem, x as u32, 0),
            want,
            "perspective texel at x={x}"
        );
    }
}

#[test]
fn mip_level_follows_uv_step_and_lod_bias() {
    const VS: [(i32, i32, u16, i32); 3] = [(0, 0, 0, 0), (20, 0, 0, 0), (0, 20, 0, 0)];
    const MIPS: [(u32, u32, u8); 4] = [(0, 64, 1), (64, 16, 2), (80, 4, 3), (84, 1, 4)];

    let uvq = |uq: i32| {
        [
            [0, 0, 0x0001_0000],
            [uq, 0, 0x0001_0000],
            [0, 0, 0x0001_0000],
        ]
    };
    let mut cmds = tri_uv(TRI_ZTEST_OFF, 0, TEX_MIP, 0, VS, uvq(80 << 16));
    cmds.extend(tri_uv(TRI_ZTEST_OFF, 0x10, TEX_MIP, 0, VS, uvq(80 << 16)));
    cmds.extend(tri_uv(TRI_ZTEST_OFF, 0, TEX_MIP, 0, VS, uvq(120 << 16)));
    let mut mem = ring_with(128, &cmds);

    for (off, len, tag) in MIPS {
        for i in 0..len {
            put8(&mut mem, TEX + off + i, tag);
        }
    }
    for i in 0..8u32 {
        put8(&mut mem, CMAP + i, i as u8);
    }

    let mut t = Tpu::new();

    t.tail = 25;
    run(&mut t, &mut mem);
    for x in 0..16 {
        assert_eq!(
            color_at(&mem, x, 0),
            3,
            "4:1 minification must fetch level 2 at x={x}"
        );
    }

    t.tail = 50;
    run(&mut t, &mut mem);
    for x in 0..16 {
        assert_eq!(
            color_at(&mem, x, 0),
            4,
            "a +1.0 bias must fetch level 3 at x={x}"
        );
    }

    t.tail = 75;
    run(&mut t, &mut mem);
    for x in 0..16 {
        let want = if x % 2 == 0 { 4 } else { 3 };
        assert_eq!(color_at(&mem, x, 0), want, "dithered lod fraction at x={x}");
    }
}

#[test]
fn blend_flag_routes_through_the_table() {
    let mut cmds = tri(
        TRI_ZTEST_OFF,
        [(0, 0, 0x0100, 9), (4, 0, 0x0100, 9), (0, 4, 0x0100, 9)],
    );
    cmds.extend(tri_uv(
        TRI_ZTEST_OFF | TRI_BLEND | TRI_ZWRITE_OFF,
        0,
        TEX_DESC,
        BLEND,
        [(0, 0, 0x0300, 19), (3, 0, 0x0300, 19), (0, 3, 0x0300, 19)],
        UVQ_1,
    ));
    cmds.extend(tri(
        TRI_ZTEST_OFF,
        [(8, 0, 0, 63), (12, 0, 0, 63), (8, 4, 0, 63)],
    ));
    cmds.extend(tri_uv(
        TRI_ZTEST_OFF | TRI_BLEND,
        0,
        TEX_DESC,
        BLEND,
        [(8, 0, 0, 19), (11, 0, 0, 19), (8, 3, 0, 19)],
        UVQ_1,
    ));
    let mut mem = tri_ram(128, &cmds);

    put8(&mut mem, CMAP + 63 * 256 + 1, 250);
    for d in 0..256u32 {
        for s in 0..256u32 {
            put8(&mut mem, BLEND + d * 256 + s, (d + 2 * s).min(255) as u8);
        }
    }

    let mut t = Tpu::new();
    t.tail = 100;

    run(&mut t, &mut mem);

    assert_eq!(
        color_at(&mem, 0, 0),
        50,
        "BLEND must route the colormap output through the table"
    );
    assert_eq!(
        color_at(&mem, 1, 0),
        50,
        "every pixel of the blending triangle goes through it"
    );
    assert_eq!(
        color_at(&mem, 2, 0),
        10,
        "a pixel the blending triangle misses keeps its colour"
    );
    assert_eq!(
        z_at(&mem, 0, 0),
        0x0100,
        "ZWRITE_OFF must still hold under BLEND"
    );
    assert_eq!(
        color_at(&mem, 8, 0),
        255,
        "the table's saturation must show through"
    );
    assert_eq!(
        color_at(&mem, 10, 0),
        250,
        "only the blending triangle's pixels change"
    );
}

#[test]
fn row_clamps_to_the_colormap_range() {
    let mut cmds = tri(
        TRI_ZTEST_OFF,
        [(0, 0, 0, 100), (4, 0, 0, 100), (0, 4, 0, 100)],
    );
    cmds.extend(tri(
        TRI_ZTEST_OFF,
        [(8, 0, 0, -5), (12, 0, 0, -5), (8, 4, 0, -5)],
    ));
    let mut mem = tri_ram(64, &cmds);
    let mut t = Tpu::new();
    t.tail = 50;

    run(&mut t, &mut mem);

    assert_eq!(
        color_at(&mem, 0, 0),
        64,
        "a row above 63 must clamp to row 63"
    );
    assert_eq!(
        color_at(&mem, 8, 0),
        1,
        "a negative row must clamp to row 0"
    );
}

