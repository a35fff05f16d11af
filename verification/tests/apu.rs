use vega68::apu::{ApuRegs, PcmKey, KEYON, REGS, STATUS};
use vega68::fm::Phase;

const PAN_OFF: [u32; 14] = [
    0x1F, 0x1F, 0x1F, 0x1F, 0x1F, 0x1F, 0x1F, 0x1F, 0x03, 0x03, 0x03, 0x03, 0x0F, 0x0F,
];

fn status(a: &ApuRegs) -> u16 {
    ((a.read(STATUS) as u16) << 8) | a.read(STATUS + 1) as u16
}

#[test]
fn registers_read_back_byte_granular() {
    let mut a = ApuRegs::new();

    a.write(0x00, 0x71);
    a.write(0x1C, 0x23);
    a.write(0x1D, 0xAB);

    assert_eq!(a.read(0x00), 0x71);
    assert_eq!(a.read(0x1C), 0x23);
    assert_eq!(a.read(0x1D), 0xAB);
}

#[test]
fn reset_defaults_are_silent_until_keyed_audible_when_keyed() {
    let a = ApuRegs::new();

    for ch in 0..14u32 {
        assert_eq!(a.read(ch * 0x40 + PAN_OFF[ch as usize]), 0xC0, "ch {ch} pan");
    }

    for ch in 8..12u32 {
        assert_eq!(a.read(ch * 0x40 + 0x02), 15, "PSG ch {ch} atten");
    }

    assert_eq!(a.read(12 * 0x40 + 0x0E), 255, "PCM vol");
    assert_eq!(a.read(0x00), 0, "FM regs zero");
}

#[test]
fn reserved_pages_ignore_writes_and_read_zero() {
    let mut a = ApuRegs::new();

    assert_eq!(a.write(14 * 0x40, 0xFF), None);
    a.write(15 * 0x40 + 0x3F, 0xFF);

    assert_eq!(a.read(14 * 0x40), 0);
    assert_eq!(a.read(15 * 0x40 + 0x3F), 0);
}

#[test]
fn read_out_of_range_offset_returns_zero_instead_of_panicking() {
    let a = ApuRegs::new();

    assert_eq!(a.read(REGS as u32), 0);
    assert_eq!(a.read(REGS as u32 + 1000), 0);
}

#[test]
fn status_starts_silent_and_tracks_square_attenuation() {
    let mut a = ApuRegs::new();

    assert_eq!(status(&a), 0);

    a.write(8 * 0x40 + 2, 3);
    assert_eq!(status(&a), 1 << 8);

    a.write(11 * 0x40 + 2, 14);
    assert_eq!(status(&a), 1 << 8 | 1 << 11);
}

#[test]
fn keyon_attacks_the_masked_operators_and_releases_the_rest() {
    let mut a = ApuRegs::new();

    a.write(2 * 0x40 + 0x07 + 6, 0x0C);

    assert_eq!(a.write(KEYON, 0x32), None);

    let e0 = a.env(2, 0);
    let e1 = a.env(2, 1);
    let e2 = a.env(2, 2);

    assert_eq!((e0.att, e0.phase, e0.ssg_inv), (1023, Phase::Attack, false));
    assert_eq!((e1.att, e1.phase, e1.ssg_inv), (1023, Phase::Attack, true), "SSG invert keys inverted");
    assert_eq!(e2.phase, Phase::Release);
    assert_eq!(status(&a), 1 << 2, "an attacking operator is audible");
    assert_eq!(a.read(KEYON), 0, "the key-on register reads 0");

    a.write(KEYON, 0x02);
    assert_eq!(a.env(2, 0).phase, Phase::Release);
    assert_eq!(status(&a), 0, "released at full attenuation is silent");
}

#[test]
fn pcm_keyon_starts_and_keyoff_stops() {
    let mut a = ApuRegs::new();

    assert_eq!(a.write(KEYON, 0x1C), Some(PcmKey { index: 0, playing: true }));
    assert!(a.pcm_playing(0));
    assert_eq!(status(&a), 1 << 12);

    assert_eq!(a.write(KEYON, 0x0D), Some(PcmKey { index: 1, playing: false }));
    assert_eq!(a.write(KEYON, 0x0C), Some(PcmKey { index: 0, playing: false }));
    assert!(!a.pcm_playing(0));

    a.write(KEYON, 0x1D);
    a.stop_pcm(1);
    assert_eq!(status(&a), 0);
}

#[test]
fn writing_the_noise_control_register_reloads_the_shift_register() {
    let mut a = ApuRegs::new();

    a.set_lfsr(0x1234);
    a.write(11 * 0x40 + 1, 0);
    assert_eq!(a.lfsr(), 0x1234);

    a.write(11 * 0x40, 0b100);
    assert_eq!(a.lfsr(), 0x8000);
}

#[test]
fn envelope_ticks_advance_the_counter_and_the_keyed_attack() {
    let mut a = ApuRegs::new();

    a.write(2, 0x1F);
    a.write(KEYON, 0x10);

    assert_eq!(a.tick_envelopes(41), 42);
    assert_eq!((a.env(0, 0).att, a.env(0, 0).phase), (0, Phase::Decay));
}
