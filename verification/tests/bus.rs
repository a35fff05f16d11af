use vega68::bus::{
    printable, Bus, AUDIO_BASE, AUDIO_END, BIOS_SIZE, BRIGHTNESS, CART_BASE, DEBUG_OUT_CAP,
    DEBUG_PUTC, IRQ_ACK, IRQ_ENABLE, LINE_COMPARE, LINE_INTERVAL, MEM_END, MOUSE_X, MOUSE_Y,
    PAD_1, PAD_2, RAM_BASE, RESET_REASON, VDP_STATUS, FB_BASE, TPU_RAM_BASE, TPU_TAIL, VDP_MODE,
};
use vega68::apu::{PcmKey, KEYON};
use vega68::cart::{test_bios, test_cart, test_header, CartError};

trait Access {
    fn read_byte(&self, a: u32) -> u8;
    fn read_word(&self, a: u32) -> u16;
    fn write_byte(&mut self, a: u32, v: u8);
    fn write_word(&mut self, a: u32, v: u16);
}

impl Access for Bus {
    fn read_byte(&self, a: u32) -> u8 {
        self.read(a, 1) as u8
    }

    fn read_word(&self, a: u32) -> u16 {
        self.read(a, 2) as u16
    }

    fn write_byte(&mut self, a: u32, v: u8) {
        self.write(a, v as u32, 1);
    }

    fn write_word(&mut self, a: u32, v: u16) {
        self.write(a, v as u32, 2);
    }
}

fn bus() -> Bus {
    Bus::new(vec![0; 8])
}

#[test]
fn status_reflects_line_and_vblank() {
    let mut b = bus();

    b.line = 42;
    assert_eq!(b.read_word(VDP_STATUS), 42);

    b.line = 185;
    assert_eq!(b.read_word(VDP_STATUS), 0x8000 | 185);
}

#[test]
fn pads_and_brightness_read_back() {
    let mut b = bus();

    b.pads = [0x0123, 0x0800];

    assert_eq!(b.read_word(PAD_1), 0x0123);
    assert_eq!(b.read_word(PAD_2), 0x0800);

    b.write_word(BRIGHTNESS, 0x77);

    assert_eq!(b.read_word(BRIGHTNESS), 0x77);
}

#[test]
fn irq_enable_and_line_regs_read_back() {
    let mut b = bus();

    b.write_word(IRQ_ENABLE, 0b11);
    assert_eq!(b.read_word(IRQ_ENABLE), 0b11, "IRQ_ENABLE did not read back");

    b.write_word(IRQ_ENABLE, 0xFF);
    assert_eq!(
        b.read_word(IRQ_ENABLE),
        0b11,
        "IRQ_ENABLE did not mask writes to its two live bits"
    );

    b.write_word(LINE_COMPARE, 0x1234);
    assert_eq!(b.read_word(LINE_COMPARE), 0x1234, "LINE_COMPARE did not read back");

    b.write_word(LINE_INTERVAL, 0x0005);
    assert_eq!(b.read_word(LINE_INTERVAL), 0x0005, "LINE_INTERVAL did not read back");
}

#[test]
fn only_printable_bytes_reach_the_host_terminal() {
    for b in [b'\n', 0x20, b'A', 0x7E] {
        assert!(printable(b), "{b:#04x} should reach the terminal");
    }

    for b in [0x00, 0x04, 0x07, 0x08, 0x1B, b'\r', 0x7F, 0x9B, 0xFF] {
        assert!(!printable(b), "{b:#04x} must not reach the terminal");
    }
}

#[test]
fn debug_putc_is_captured() {
    let mut b = bus();

    for c in b"hi!" {
        b.write_word(DEBUG_PUTC, *c as u16);
    }

    assert_eq!(b.debug_out, b"hi!");
}

#[test]
fn debug_out_stops_at_cap() {
    let mut b = bus();

    for _ in 0..DEBUG_OUT_CAP + 10 {
        b.write_word(DEBUG_PUTC, b'x' as u16);
    }

    assert_eq!(b.debug_out.len(), DEBUG_OUT_CAP);
}

#[test]
fn mouse_deltas_read_back_signed() {
    let mut b = bus();

    b.mouse = [-3, 7];

    assert_eq!(b.read_word(MOUSE_X), 0xFFFD);
    assert_eq!(b.read_word(MOUSE_Y), 7);
}

#[test]
fn irq_ack_clears_pending() {
    let mut b = bus();

    b.irq_pending = 0b11;
    b.write_word(IRQ_ACK, 0b01);

    assert_eq!(b.irq_pending, 0b10);
    assert_eq!(b.read_word(IRQ_ACK), 0b10);
}

#[test]
fn audio_range_is_byte_granular_through_the_bus() {
    let mut b = bus();

    b.write_byte(AUDIO_BASE + 0x1D, 0xAB);
    b.write_word(AUDIO_BASE, 0x7101);

    assert_eq!(b.read_byte(AUDIO_BASE + 0x1D), 0xAB);
    assert_eq!(b.read_byte(AUDIO_BASE), 0x71);
    assert_eq!(b.read_byte(AUDIO_BASE + 1), 0x01);
    assert_eq!(b.read_word(AUDIO_BASE), 0x7101);
}

#[test]
fn a_write_straddling_into_the_audio_range_still_reaches_the_apu() {
    let mut b = bus();

    b.write_word(AUDIO_BASE - 1, 0xAB71);

    assert_eq!(
        b.read_byte(AUDIO_BASE),
        0x71,
        "the straddled byte never reached the APU"
    );
}

#[test]
fn audio_bytes_past_the_block_are_dropped() {
    let mut b = bus();

    let w = b.write(AUDIO_END - 2, 0x1122_3344, 4);

    assert!(w.pcm.is_empty());
    assert_eq!(w.echo, None);
    assert_eq!(b.read(AUDIO_END - 2, 2), 0x1122);
    assert_eq!(b.read(AUDIO_END, 2), 0);
}

#[test]
fn a_pcm_key_on_through_the_bus_is_reported() {
    let mut b = bus();

    let w = b.write(AUDIO_BASE + KEYON, 0x1D, 1);

    assert_eq!(w.pcm, vec![PcmKey { index: 1, playing: true }]);
    assert_eq!(b.read(AUDIO_BASE + 0x402, 2), 1 << 13, "status shows PCM channel 13 playing");
}

#[test]
fn debug_putc_echoes_only_printable_bytes() {
    let mut b = bus();

    assert_eq!(b.write(DEBUG_PUTC, b'A' as u32, 2).echo, Some(b'A'));
    assert_eq!(b.write(DEBUG_PUTC, 0x1B, 2).echo, None);
    assert_eq!(b.debug_out, vec![b'A', 0x1B]);
}

#[test]
fn memory_reads_back_big_endian_and_registers_read_their_high_half() {
    let mut b = bus();

    b.write(RAM_BASE, 0xDEAD_BEEF, 4);

    assert_eq!(b.read(RAM_BASE, 4), 0xDEAD_BEEF);
    assert_eq!(b.read(RAM_BASE, 2), 0xDEAD);
    assert_eq!(b.read_byte(RAM_BASE + 3), 0xEF);

    b.write_word(LINE_COMPARE, 0x1234);
    assert_eq!(b.read(LINE_COMPARE, 4), 0x1234_0000);
    assert_eq!(b.read_byte(LINE_COMPARE + 1), 0x34);
}

#[test]
fn reads_past_memory_are_zero_and_writes_there_are_dropped() {
    let mut b = bus();

    b.write(MEM_END, 0xFFFF_FFFF, 4);
    assert_eq!(b.read(MEM_END, 4), 0);
    assert_eq!(b.read(MEM_END - 1, 2), 0);
}

#[test]
fn reset_reason_register_reads_back() {
    let mut b = bus();

    b.write_word(RESET_REASON, 7);
    assert_eq!(b.read_word(RESET_REASON), 7);
}

#[test]
fn new_bus_maps_the_bios_at_zero() {
    let bios = test_bios();
    let b = Bus::new(bios.clone());

    assert_eq!(b.mem.len(), MEM_END as usize);
    assert_eq!(&b.mem[..bios.len()], &bios[..]);
    assert_eq!(b.brightness, 255);
    assert!(b.mem[bios.len()..].iter().all(|&x| x == 0));
    assert!(bios.len() as u32 <= BIOS_SIZE);
}

#[test]
fn load_cart_copies_the_payload_to_the_cart_window() {
    let mut b = Bus::new(test_bios());
    let cart = test_cart(b"\x60\xfe\0\0");

    assert_eq!(b.load_cart(&cart), Ok(()));
    assert_eq!(&b.mem[CART_BASE as usize..CART_BASE as usize + cart.len()], &cart[..]);
}

#[test]
fn load_cart_rejects_a_malformed_image_and_changes_nothing() {
    let mut b = Bus::new(test_bios());
    b.mem[RAM_BASE as usize] = 0x5A;

    assert_eq!(b.load_cart(&test_header(0, &[0x60, 0xfe])), Err(CartError::Empty));
    assert_eq!(b.mem[RAM_BASE as usize], 0x5A);
    assert!(b.mem[CART_BASE as usize..CART_BASE as usize + 64].iter().all(|&x| x == 0));
}

#[test]
fn reset_devices_restores_power_on_registers() {
    let mut b = Bus::new(test_bios());

    b.irq_enable = 3;
    b.irq_pending = 2;
    b.line_compare = 9;
    b.line_interval = 4;
    b.brightness = 0x10;
    b.tpu.head = 40;
    b.tpu.tail = 80;
    b.tpu.pixels = 12345;
    b.tpu.deficit = 999;
    b.write(VDP_MODE, 0x0003, 2);
    b.write(FB_BASE, 0x1234_5678, 4);
    b.mem[RAM_BASE as usize] = 0x77;
    b.write(AUDIO_BASE, 0xFF, 1);
    b.reset_devices();

    assert_eq!(
        (b.irq_enable, b.irq_pending, b.line_compare, b.line_interval, b.brightness, b.reset_reason),
        (0, 0, 0, 0, 255, 2)
    );
    assert_eq!((b.tpu.head, b.tpu.tail, b.tpu.pixels, b.tpu.deficit), (0, 0, 0, 0));
    assert_eq!(b.read(VDP_MODE, 2), 0, "VDP_MODE not reset");
    assert_eq!(b.read(FB_BASE, 4), 0, "FB_BASE not reset");
    assert_eq!(b.read(AUDIO_BASE, 1), 0, "apu register not reset");
    assert_eq!(b.mem[RAM_BASE as usize], 0x77);
}

#[test]
fn writing_the_tpu_tail_drains_the_ring_within_the_budget() {
    const RING: u32 = 0x40;
    const COLOR: u32 = 0x1000;
    const SIDE: u16 = 1900;

    let fill = |x1: u32, y1: u32, color: u32| -> [u32; 5] {
        [0x0200_0001, 0, x1 << 16 | y1, color, 0]
    };

    let mut b = Bus::new(test_bios());

    b.write(TPU_RAM_BASE, RING, 4);
    b.write(TPU_RAM_BASE + 4, 16, 4);
    b.write(TPU_RAM_BASE + 8, COLOR, 4);
    b.write(TPU_RAM_BASE + 12, 0, 4);
    b.write(TPU_RAM_BASE + 16, SIDE as u32, 2);
    b.write(TPU_RAM_BASE + 18, SIDE as u32, 2);

    let cmds = fill(SIDE as u32, SIDE as u32, 5).into_iter().chain(fill(2, 2, 9));
    for (i, w) in cmds.enumerate() {
        b.write(TPU_RAM_BASE + RING + i as u32 * 4, w, 4);
    }

    b.write(TPU_TAIL, 10, 2);

    assert_eq!(b.tpu.tail, 10);
    assert_ne!(b.tpu.head, b.tpu.tail, "the second command waits for the next frame's budget");
    assert_eq!(b.mem[(TPU_RAM_BASE + COLOR) as usize], 5);

    b.tpu.frame_start(&mut b.mem);

    assert_eq!(b.tpu.head, b.tpu.tail);
    assert_eq!(b.mem[(TPU_RAM_BASE + COLOR) as usize], 9);
    assert_eq!(b.tpu.pixels, 1);
}
