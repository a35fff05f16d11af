use vega68::cpu::Cpu;
use vega68::psg::lfsr_next;
use vega68::fm::{algorithm, eg_tick, ssg_mode, Eg, Phase};
use vega68::fnv1a64;
use vega68::tpu::{Tpu, PIXEL_BUDGET};
use vega68::watch::Watch;

#[test]
fn fnv1a64_of_nothing_is_the_offset_basis() {
    assert_eq!(fnv1a64(&[]), 0xcbf2_9ce4_8422_2325);
}

#[test]
fn fnv1a64_matches_the_reference_vectors() {
    assert_eq!(fnv1a64(b"a"), 0xaf63_dc4c_8601_ec8c);
    assert_eq!(fnv1a64(b"foobar"), 0x8594_4171_f739_67e8);
}

#[test]
fn ssg_mode_splits_the_three_low_bits() {
    assert_eq!(ssg_mode(0), (false, false, false));
    assert_eq!(ssg_mode(5), (true, false, true));
    assert_eq!(ssg_mode(0xFB), (false, true, true));
}

#[test]
fn algorithm_routes_match_the_table() {
    assert_eq!(algorithm(0, 3), (vec![2], true));
    assert_eq!(algorithm(1, 2), (vec![0, 1], false));
    assert_eq!(algorithm(2, 3), (vec![0, 2], true));
    assert_eq!(algorithm(3, 3), (vec![1, 2], true));
    assert_eq!(algorithm(5, 2), (vec![0], true));
    assert_eq!(algorithm(7, 0), (vec![], true));
    assert_eq!(algorithm(8, 0), (vec![], false));
    assert_eq!(algorithm(0, 4), (vec![], false));
}

#[test]
fn attack_falls_to_zero_and_enters_decay() {
    let mut e = Eg { att: 1023, phase: Phase::Attack, ssg_held: false, ssg_inv: false };

    e.apply(1, 500);
    assert_eq!(e.att, 1023 - 64);
    assert_eq!(e.phase, Phase::Attack);

    e.apply(100, 500);
    assert_eq!(e.att, 0);
    assert_eq!(e.phase, Phase::Decay);
    assert!(e.audible());
}

#[test]
fn decay_reaches_sustain_and_release_saturates_at_silence() {
    let mut e = Eg { att: 10, phase: Phase::Decay, ssg_held: false, ssg_inv: false };

    e.apply(5, 16);
    assert_eq!((e.att, e.phase), (15, Phase::Decay));
    e.apply(5, 16);
    assert_eq!((e.att, e.phase), (20, Phase::Sustain));

    e.phase = Phase::Release;
    e.apply(2000, 16);
    assert_eq!(e.att, 1023);
    assert!(!e.audible());
}

#[test]
fn a_resting_envelope_is_silent_and_released() {
    let e = Eg::default();

    assert_eq!((e.att, e.phase, e.ssg_held, e.ssg_inv), (1023, Phase::Release, false, false));
    assert!(!e.audible());
}

#[test]
fn tpu_starts_idle_with_a_full_budget() {
    let t = Tpu::new();

    assert_eq!((t.head, t.tail, t.pixels, t.deficit, t.budget), (0, 0, 0, 0, PIXEL_BUDGET));
}

#[test]
fn tpu_reset_forgets_everything() {
    let mut t = Tpu::new();

    t.head = 5;
    t.deficit = 7;
    t.reset();

    assert_eq!((t.head, t.tail, t.pixels, t.deficit, t.budget), (0, 0, 0, 0, PIXEL_BUDGET));
}

#[test]
fn watch_acts_once_per_new_modification_time() {
    let mut w = Watch::new("cart.v68".to_string(), vec![1, 2, 3], Some(10));

    assert!(!w.observe(None), "a missing file is no change");
    assert!(!w.observe(Some(10)), "the same time is no change");
    assert!(w.observe(Some(11)));
    assert!(!w.observe(Some(11)), "a change is acted on once");
    assert!(w.observe(Some(-5)), "times before the epoch count too");
}

#[test]
fn watch_reloads_only_new_contents() {
    let mut w = Watch::new("cart.v68".to_string(), vec![1, 2, 3], None);

    assert!(!w.is_new(&[1, 2, 3]));
    assert!(w.is_new(&[1, 2]));
    assert!(w.is_new(&[1, 2, 4]));

    w.reloaded(vec![1, 2, 4]);
    assert!(!w.is_new(&[1, 2, 4]));
    assert!(w.is_new(&[1, 2, 3]));
}

#[test]
fn cpu_keeps_its_interrupt_level_and_counts_retired_instructions() {
    let mut c = Cpu::with_context(vec![0; 4]);

    assert_eq!((c.irq, c.retired), (0, 0));

    c.set_irq(6);
    c.account(100, 250);
    c.account(250, 251);

    assert_eq!((c.irq, c.retired), (6, 151));
    assert_eq!(c.ctx.len(), 4);
}

#[test]
fn eg_tick_advances_the_counter_and_runs_a_fast_attack_to_zero() {

    let mut regs = vec![0u8; 0x200];
    regs[2] = 0x1F;
    let mut envs = vec![Eg::default(); 32];
    envs[0].phase = Phase::Attack;

    let next = eg_tick(&regs, 7, &mut envs);

    assert_eq!(next, 8);
    assert_eq!((envs[0].att, envs[0].phase), (0, Phase::Decay));
    assert_eq!((envs[1].att, envs[1].phase), (1023, Phase::Release));
    assert_eq!(eg_tick(&regs, u32::MAX, &mut envs), 0);
}

#[test]
fn eg_tick_wraps_an_ssg_loop_back_below_the_threshold() {

    let mut regs = vec![0u8; 0x200];
    regs[3] = 0x1F;
    regs[6] = 0x08;
    let mut envs = vec![Eg::default(); 32];
    envs[0] = Eg { att: 0x1FF, phase: Phase::Decay, ssg_held: false, ssg_inv: false };

    eg_tick(&regs, 0, &mut envs);

    assert_eq!((envs[0].att, envs[0].phase, envs[0].ssg_inv, envs[0].ssg_held), (383, Phase::Sustain, false, false));
}

#[test]
fn eg_tick_slow_rates_wait_for_their_turn() {

    let regs = vec![0u8; 0x200];
    let mut envs = vec![Eg { att: 100, phase: Phase::Release, ssg_held: false, ssg_inv: false }; 32];

    eg_tick(&regs, 0, &mut envs);
    assert_eq!(envs[5].att, 100, "rate 2 moves once every 2048 ticks");

    eg_tick(&regs, 2047, &mut envs);
    assert_eq!(envs[5].att, 106);
}

#[test]
fn white_noise_taps_bits_zero_and_three_from_the_reset_value() {
    let want = vec![0, 0, 0, 0, 0, 0, 0, 0, 0, 0, 0, 0, 0, 0, 1, 0];
    let mut lfsr = 0x8000u16;
    let mut got = Vec::new();

    for _ in 0..16 {
        lfsr = lfsr_next(lfsr, true);
        got.push(lfsr & 1);
    }

    assert_eq!(got, want);
}

#[test]
fn periodic_noise_rotates_back_after_16_shifts() {
    let mut lfsr = 0x8000u16;
    let mut ones = 0;

    for _ in 0..32 {
        lfsr = lfsr_next(lfsr, false);
        ones += lfsr & 1;
    }

    assert_eq!(lfsr, 0x8000);
    assert_eq!(ones, 2, "exactly one high bit per 16");
}


#[test]
fn a_default_tpu_is_a_new_one() {
    let t = Tpu::default();

    assert_eq!((t.head, t.tail, t.pixels, t.deficit, t.budget), (0, 0, 0, 0, PIXEL_BUDGET));
}
