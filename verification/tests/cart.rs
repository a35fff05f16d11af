use vega68::bus::{CART_BASE, CART_SIZE};
use vega68::cart::{bundled, parse, test_cart, test_header, CartError, BUNDLE_MAGIC, HEADER_LEN};

fn bundle(exe: &[u8], cart: &[u8]) -> Vec<u8> {
    let mut f = exe.to_vec();

    f.extend_from_slice(cart);
    f.extend_from_slice(&(cart.len() as u64).to_be_bytes());
    f.extend_from_slice(&BUNDLE_MAGIC);

    f
}

fn native_with_entry(entry: u32) -> Vec<u8> {
    let mut f = test_cart(&[0x60, 0xfe]);

    f[8..12].copy_from_slice(&entry.to_be_bytes());

    f
}

#[test]
fn accepts_entry_at_payload_start() {
    assert_eq!(
        parse(&native_with_entry(CART_BASE + HEADER_LEN as u32)).unwrap(),
        CART_BASE + HEADER_LEN as u32
    );
}

#[test]
fn bundle_magic_matches_xtask() {
    assert_eq!(BUNDLE_MAGIC, *b"V68BNDL\0");
}

#[test]
fn bundled_ignores_a_plain_binary() {
    assert_eq!(
        bundled(b"no footer here, just plain trailing bytes"),
        Ok(None)
    );
    assert_eq!(bundled(b"short"), Ok(None));
    assert_eq!(bundled(b""), Ok(None));
}

#[test]
fn bundled_recovers_the_appended_cart() {
    assert_eq!(
        bundled(&bundle(b"an executable image", b"cart bytes")),
        Ok(Some(&b"cart bytes"[..]))
    );
    assert_eq!(bundled(&bundle(b"exe", b"")), Ok(Some(&b""[..])));
}

#[test]
fn bundled_rejects_a_length_past_the_file_start() {
    let mut f = b"tiny".to_vec();

    f.extend_from_slice(&100u64.to_be_bytes());
    f.extend_from_slice(&BUNDLE_MAGIC);

    assert_eq!(bundled(&f).err(), Some(CartError::BadFooter));
}

#[test]
fn parses_a_cart_header() {
    assert_eq!(
        parse(&test_cart(&[0x60, 0xfe])).unwrap(),
        CART_BASE + HEADER_LEN as u32
    );
}

#[test]
fn rejects_bad_magic() {
    let mut f = test_cart(&[0x60, 0xfe]);

    f[0] = b'X';

    assert_eq!(parse(&f).err(), Some(CartError::BadMagic));
}

#[test]
fn rejects_empty_cart() {
    assert_eq!(
        parse(&test_header(0, &[0x60, 0xfe])).err(),
        Some(CartError::Empty)
    );
}

#[test]
fn rejects_entry_far_outside_the_payload() {
    for entry in [1u32, CART_BASE - 1, CART_BASE + CART_SIZE, u32::MAX] {
        assert_eq!(
            parse(&native_with_entry(entry)).err(),
            Some(CartError::BadEntry(entry))
        );
    }
}

#[test]
fn rejects_entry_outside_payload() {
    for entry in [
        CART_BASE,
        CART_BASE + 4,
        CART_BASE + 8,
        CART_BASE + 12,
        CART_BASE + 64,
    ] {
        assert_eq!(
            parse(&native_with_entry(entry)).err(),
            Some(CartError::BadEntry(entry))
        );
    }
}

#[test]
fn rejects_odd_entry() {
    let entry = CART_BASE + HEADER_LEN as u32 + 1;

    assert_eq!(
        parse(&native_with_entry(entry)).err(),
        Some(CartError::OddEntry(entry))
    );
}

#[test]
fn rejects_truncated_payload() {
    assert_eq!(parse(b"V68\0").err(), Some(CartError::Truncated));
    assert_eq!(parse(b"").err(), Some(CartError::Truncated));
    assert_eq!(
        parse(&test_cart(&[0x60, 0xfe])[..HEADER_LEN - 1]).err(),
        Some(CartError::Truncated)
    );
}

#[test]
fn rejects_wrong_version() {
    let mut f = test_cart(&[0x60, 0xfe]);

    f[7] = 1;

    assert_eq!(parse(&f).err(), Some(CartError::BadVersion(1)));
}

#[test]
fn rejects_an_image_over_the_cart_window() {
    let f = test_cart(&vec![0u8; CART_SIZE as usize]);

    assert_eq!(
        parse(&f).err(),
        Some(CartError::TooLarge(CART_SIZE as usize + HEADER_LEN))
    );
}

#[test]
fn an_image_exactly_filling_the_window_parses() {
    let f = test_cart(&vec![0u8; CART_SIZE as usize - HEADER_LEN]);

    assert_eq!(parse(&f), Ok(CART_BASE + HEADER_LEN as u32));
}

#[test]
fn bundled_finds_a_bundled_cart_that_parses() {
    let cart = test_cart(&[0x60, 0xfe]);
    let exe = bundle(b"\x7fELF some executable", &cart);
    let found = bundled(&exe).unwrap().unwrap();

    assert_eq!(found, &cart[..]);
    assert_eq!(parse(found), Ok(CART_BASE + HEADER_LEN as u32));
}

#[test]
fn test_header_lays_out_magic_version_entry_and_payload() {
    let f = test_header(0x0102_0304, &[9, 8]);

    assert_eq!(
        f,
        vec![b'V', b'6', b'8', 0, 0, 0, 0, 0, 1, 2, 3, 4, 0, 0, 0, 0, 9, 8]
    );
}
