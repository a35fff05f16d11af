//! The cart image format and the cart bundled into an executable.
//!
//! A cart image starts with a 16-byte header: the magic `V68\0`, a
//! big-endian format version (0), the big-endian entry address, and a
//! reserved word; the whole image is mapped at `CART_BASE`. A bundled
//! executable ends with the cart bytes, their length as a big-endian u64,
//! and the bundle magic `V68BNDL\0`.

use vstd::prelude::*;
use crate::bus::{CART_BASE, CART_SIZE, STACK_TOP};

verus! {

pub const BUNDLE_MAGIC: [u8; 8] = [0x56, 0x36, 0x38, 0x42, 0x4E, 0x44, 0x4C, 0x00];
pub const HEADER_LEN: usize = 16;
pub const MAGIC: [u8; 4] = [0x56, 0x36, 0x38, 0x00];
pub const VERSION: u32 = 0;

/// Why an image is not a loadable cart.
#[derive(Debug, PartialEq, Eq, Structural, Clone, Copy)]
pub enum CartError {
    BadEntry(u32),
    BadFooter,
    BadMagic,
    BadVersion(u32),
    Empty,
    OddEntry(u32),
    TooLarge(usize),
    Truncated,
}

pub open spec fn bundle_magic() -> Seq<u8> {
    seq![0x56u8, 0x36u8, 0x38u8, 0x42u8, 0x4Eu8, 0x44u8, 0x4Cu8, 0x00u8]
}

pub open spec fn cart_magic() -> Seq<u8> {
    seq![0x56u8, 0x36u8, 0x38u8, 0x00u8]
}

pub open spec fn be32_at(f: Seq<u8>, o: int) -> u32 {
    (f[o] as int * 0x100_0000 + f[o + 1] as int * 0x1_0000 + f[o + 2] as int * 0x100 + f[o + 3] as int) as u32
}

pub open spec fn be64_at(f: Seq<u8>, o: int) -> int {
    be32_at(f, o) as int * 0x1_0000_0000 + be32_at(f, o + 4) as int
}

/// Where the bundled cart lies in an executable image: `Ok(None)` when the
/// image does not end in a bundle footer, `Err(BadFooter)` when the length
/// it records runs past the start of the image, else the byte range of the
/// cart, just before the footer.
pub open spec fn bundle_span(exe: Seq<u8>) -> Result<Option<(int, int)>, CartError> {
    if exe.len() < 16 {
        Ok(None)
    } else {
        let foot = exe.len() - 16;
        if exe.subrange(foot + 8, exe.len() as int) != bundle_magic() {
            Ok(None)
        } else {
            let len = be64_at(exe, foot);
            if len > foot {
                Err(CartError::BadFooter)
            } else {
                Ok(Some((foot - len, foot)))
            }
        }
    }
}

/// The outcome of checking a cart image: its entry address, or the first
/// rule it breaks, in this order: a header must be present, the magic
/// must match, the image must fit the cart window, the version must be
/// 0, the entry must be nonzero, must point into the image past the
/// header, and must be even.
pub open spec fn parse_spec(f: Seq<u8>) -> Result<u32, CartError> {
    if f.len() < HEADER_LEN {
        Err(CartError::Truncated)
    } else if f.subrange(0, 4) != cart_magic() {
        Err(CartError::BadMagic)
    } else if f.len() > CART_SIZE {
        Err(CartError::TooLarge(f.len() as usize))
    } else if be32_at(f, 4) != VERSION {
        Err(CartError::BadVersion(be32_at(f, 4)))
    } else if be32_at(f, 8) == 0 {
        Err(CartError::Empty)
    } else if !(be32_at(f, 8) >= CART_BASE && HEADER_LEN <= be32_at(f, 8) - CART_BASE < f.len()) {
        Err(CartError::BadEntry(be32_at(f, 8)))
    } else if be32_at(f, 8) % 2 != 0 {
        Err(CartError::OddEntry(be32_at(f, 8)))
    } else {
        Ok(be32_at(f, 8))
    }
}

fn be32(f: &[u8], o: usize) -> (r: u32)
    requires
        o + 4 <= f.len(),
    ensures
        r == be32_at(f@, o as int),
{
    f[o] as u32 * 0x100_0000 + f[o + 1] as u32 * 0x1_0000 + f[o + 2] as u32 * 0x100 + f[o + 3] as u32
}

/// Whether `f[at..at + want.len()]` holds exactly the bytes of `want`.
fn bytes_match(f: &[u8], at: usize, want: &[u8]) -> (r: bool)
    requires
        at + want.len() <= f.len(),
    ensures
        r == (f@.subrange(at as int, at + want.len()) == want@),
{
    let mut i: usize = 0;
    while i < want.len()
        invariant
            at + want.len() <= f.len(),
            i <= want.len(),
            forall|j: int| 0 <= j < i ==> f@[at + j] == want@[j],
        decreases want.len() - i,
    {
        if f[at + i] != want[i] {
            assert(f@.subrange(at as int, at + want.len())[i as int] != want@[i as int]);
            return false;
        }
        i = i + 1;
    }
    assert(f@.subrange(at as int, at + want.len()) =~= want@);
    true
}

/// Finds the cart bundled at the end of an executable image.
pub fn bundled(exe: &[u8]) -> (r: Result<Option<&[u8]>, CartError>)
    ensures
        match (r, bundle_span(exe@)) {
            (Ok(None), Ok(None)) => true,
            (Ok(Some(s)), Ok(Some((a, b)))) => s@ == exe@.subrange(a, b),
            (Err(e1), Err(e2)) => e1 == e2,
            _ => false,
        },
{
    if exe.len() < 16 {
        return Ok(None);
    }
    let foot = exe.len() - 16;
    let magic = BUNDLE_MAGIC;
    assert(magic@ == bundle_magic());
    if !bytes_match(exe, foot + 8, magic.as_slice()) {
        return Ok(None);
    }
    let hi = be32(exe, foot) as u64;
    let lo = be32(exe, foot + 4) as u64;
    let len = hi * 0x1_0000_0000 + lo;
    if len > foot as u64 {
        return Err(CartError::BadFooter);
    }
    let start = foot - len as usize;
    Ok(Some(&exe[start..foot]))
}

/// Checks a cart image and returns its entry address.
pub fn parse(file: &[u8]) -> (r: Result<u32, CartError>)
    ensures
        r == parse_spec(file@),
{
    if file.len() < HEADER_LEN {
        return Err(CartError::Truncated);
    }
    let magic = MAGIC;
    assert(magic@ == cart_magic());
    if !bytes_match(file, 0, magic.as_slice()) {
        return Err(CartError::BadMagic);
    }
    if file.len() > CART_SIZE as usize {
        return Err(CartError::TooLarge(file.len()));
    }
    let version = be32(file, 4);
    if version != VERSION {
        return Err(CartError::BadVersion(version));
    }
    let entry = be32(file, 8);
    if entry == 0 {
        return Err(CartError::Empty);
    }
    if !(entry >= CART_BASE && HEADER_LEN <= (entry - CART_BASE) as usize && ((entry - CART_BASE) as usize) < file.len()) {
        return Err(CartError::BadEntry(entry));
    }
    if entry % 2 != 0 {
        return Err(CartError::OddEntry(entry));
    }
    Ok(entry)
}

/// The big-endian bytes of a 32-bit value.
pub open spec fn be32_bytes(v: u32) -> Seq<u8> {
    seq![(v >> 24) as u8, (v >> 16) as u8, (v >> 8) as u8, v as u8]
}

/// A cart image: the header with `entry`, then `payload`.
pub open spec fn image(entry: u32, payload: Seq<u8>) -> Seq<u8> {
    cart_magic() + be32_bytes(VERSION) + be32_bytes(entry) + be32_bytes(0) + payload
}

proof fn lemma_be32_bytes(v: u32)
    ensures
        be32_at(be32_bytes(v), 0) == v,
{
    let b = be32_bytes(v);
    assert((((v >> 24) as u8) as int * 0x100_0000 + ((v >> 16) as u8) as int * 0x1_0000 + ((v >> 8) as u8) as int
        * 0x100 + (v as u8) as int) == v) by (bit_vector);
}

fn push_be32(f: &mut Vec<u8>, v: u32)
    ensures
        final(f)@ == old(f)@ + be32_bytes(v),
{
    f.push((v >> 24) as u8);
    f.push((v >> 16) as u8);
    f.push((v >> 8) as u8);
    f.push(v as u8);
}

/// Builds a cart image with the given entry address and payload.
pub fn test_header(entry: u32, payload: &[u8]) -> (r: Vec<u8>)
    requires
        payload@.len() + HEADER_LEN <= usize::MAX,
    ensures
        r@ == image(entry, payload@),
{
    let mut f: Vec<u8> = Vec::new();
    f.push(0x56);
    f.push(0x36);
    f.push(0x38);
    f.push(0x00);
    assert(f@ == cart_magic());
    push_be32(&mut f, VERSION);
    push_be32(&mut f, entry);
    push_be32(&mut f, 0);
    let ghost h = f@;
    let mut i: usize = 0;
    while i < payload.len()
        invariant
            i <= payload@.len(),
            f@ == h + payload@.subrange(0, i as int),
        decreases payload@.len() - i,
    {
        f.push(payload[i]);
        i = i + 1;
        assert(f@ == h + payload@.subrange(0, i as int));
    }
    assert(payload@.subrange(0, payload@.len() as int) == payload@);
    f
}

/// A cart image whose code starts right after the header.
pub fn test_cart(code: &[u8]) -> (r: Vec<u8>)
    requires
        code@.len() + HEADER_LEN <= usize::MAX,
    ensures
        r@ == image((CART_BASE + HEADER_LEN) as u32, code@),
{
    test_header(CART_BASE + HEADER_LEN as u32, code)
}

/// A minimal BIOS image: its reset vectors point the stack at
/// `STACK_TOP` and execution at address 8, where it sets the brightness to
/// 0x7F and jumps to the entry of a cart built by `test_cart`.
pub fn test_bios() -> (r: Vec<u8>)
    ensures
        r@ == be32_bytes(STACK_TOP) + be32_bytes(8) + seq![0x23u8, 0xfc, 0x00, 0x00, 0x00, 0x7f, 0xff, 0x00, 0x00, 0x10, 0x4e, 0xf9]
            + be32_bytes((CART_BASE + HEADER_LEN) as u32),
{
    let mut b: Vec<u8> = Vec::new();
    push_be32(&mut b, STACK_TOP);
    push_be32(&mut b, 8);
    let ghost h = b@;
    b.push(0x23);
    b.push(0xfc);
    b.push(0x00);
    b.push(0x00);
    b.push(0x00);
    b.push(0x7f);
    b.push(0xff);
    b.push(0x00);
    b.push(0x00);
    b.push(0x10);
    b.push(0x4e);
    b.push(0xf9);
    let ghost h2 = b@;
    assert(h2 == h + seq![0x23u8, 0xfc, 0x00, 0x00, 0x00, 0x7f, 0xff, 0x00, 0x00, 0x10, 0x4e, 0xf9]);
    push_be32(&mut b, CART_BASE + HEADER_LEN as u32);
    b
}

/// A cart image that is built with a header, whose entry is even and points
/// into its payload, and that fits the cart window, parses back to its
/// entry address.
pub proof fn law_image_parses_to_its_entry(entry: u32, payload: Seq<u8>)
    requires
        CART_BASE + HEADER_LEN <= entry < CART_BASE + HEADER_LEN + payload.len(),
        entry % 2 == 0,
        HEADER_LEN + payload.len() <= CART_SIZE,
    ensures
        parse_spec(image(entry, payload)) == Ok::<u32, CartError>(entry),
{
    let f = image(entry, payload);
    lemma_be32_bytes(VERSION);
    lemma_be32_bytes(entry);
    assert(f.subrange(0, 4) == cart_magic());
    assert(f.subrange(4, 8) == be32_bytes(VERSION));
    assert(f.subrange(8, 12) == be32_bytes(entry));
    assert(be32_at(f, 4) == be32_at(be32_bytes(VERSION), 0));
    assert(be32_at(f, 8) == be32_at(be32_bytes(entry), 0));
}

/// The big-endian bytes of a 64-bit value.
pub open spec fn be64_bytes(v: u64) -> Seq<u8> {
    be32_bytes((v >> 32) as u32) + be32_bytes(v as u32)
}

/// An executable with a cart bundled onto its end: the cart, its length as
/// a big-endian u64, and the bundle magic.
pub open spec fn bundle(exe: Seq<u8>, cart: Seq<u8>) -> Seq<u8> {
    exe + cart + be64_bytes(cart.len() as u64) + bundle_magic()
}

/// Bundling round-trips: the cart bundled onto any executable is found
/// again, exactly, just before the footer.
pub proof fn law_bundle_round_trip(exe: Seq<u8>, cart: Seq<u8>)
    requires
        cart.len() <= u64::MAX,
    ensures
        bundle_span(bundle(exe, cart)) == Ok::<Option<(int, int)>, CartError>(
            Some((exe.len() as int, (exe.len() + cart.len()) as int)),
        ),
{
    let f = bundle(exe, cart);
    let n = cart.len() as u64;
    let foot: int = (exe.len() + cart.len()) as int;
    assert(f.len() == foot + 16);
    assert(f.subrange(foot + 8, f.len() as int) == bundle_magic());
    lemma_be32_bytes((n >> 32) as u32);
    lemma_be32_bytes(n as u32);
    assert(be32_at(f, foot) == be32_at(be32_bytes((n >> 32) as u32), 0));
    assert(be32_at(f, foot + 4) == be32_at(be32_bytes(n as u32), 0));
    assert(((n >> 32) as u32) as int * 0x1_0000_0000 + (n as u32) as int == n) by (bit_vector);
}


/// An image that parses has its entry inside its payload, past the header,
/// at an even address, and fits the cart window.
pub proof fn law_parsed_entry_lies_in_the_payload(f: Seq<u8>, entry: u32)
    requires
        parse_spec(f) == Ok::<u32, CartError>(entry),
    ensures
        CART_BASE + HEADER_LEN <= entry < CART_BASE + f.len(),
        entry % 2 == 0,
        f.len() <= CART_SIZE,
{
}

} // verus!
