//! Checks on the BIOS build's outputs: finding a section of its
//! big-endian ELF32 image, and the vector table padding of its binary.

use vstd::prelude::*;

verus! {

/// Why a section could not be found in an image.
#[derive(Debug, PartialEq, Eq, Structural, Clone, Copy)]
pub enum ElfError {
    /// The image is not a big-endian ELF32 file.
    NotElf,
    /// A field at this offset lies past the end of the image.
    Truncated(u64),
    /// No section header carries the name.
    NoSection,
}

/// The big-endian number in `img[at..at + len]`.
pub open spec fn be_value(img: Seq<u8>, at: int, len: nat) -> int
    decreases len,
{
    if len == 0 {
        0
    } else {
        be_value(img, at, (len - 1) as nat) * 256 + img[at + len - 1] as int
    }
}

/// A field of the image, or the offset it was sought at when it runs past
/// the end.
pub open spec fn field(img: Seq<u8>, at: int, len: nat) -> Result<u32, ElfError> {
    if at + len <= img.len() {
        Ok(be_value(img, at, len) as u32)
    } else {
        Err(ElfError::Truncated(at as u64))
    }
}

pub open spec fn elf_magic() -> Seq<u8> {
    seq![0x7Fu8, 0x45u8, 0x4Cu8, 0x46u8, 0x01u8, 0x02u8]
}

/// The index of the first NUL in `s` at or after `k`, if any.
pub open spec fn first_nul(s: Seq<u8>, k: int) -> Option<int>
    decreases s.len() - k,
{
    if k < 0 || k >= s.len() {
        None
    } else if s[k] == 0 {
        Some(k)
    } else {
        first_nul(s, k + 1)
    }
}

/// The NUL-terminated name at `start`: empty when `start` lies past the
/// end or no NUL follows it.
pub open spec fn name_at(img: Seq<u8>, start: int) -> Seq<u8> {
    let tail = if 0 <= start <= img.len() { img.subrange(start, img.len() as int) } else { Seq::empty() };
    match first_nul(tail, 0) {
        Some(end) => tail.subrange(0, end),
        None => Seq::empty(),
    }
}

/// The section headers from `i` on, looking for `name`: its (address,
/// type, size), the header words at 12, 4 and 20.
pub open spec fn find_section(img: Seq<u8>, shoff: int, shentsize: int, names: int, name: Seq<u8>, i: int, shnum: int) -> Result<(u32, u32, u32), ElfError>
    decreases shnum - i,
{
    if i >= shnum {
        Err(ElfError::NoSection)
    } else {
        let h = shoff + i * shentsize;
        match field(img, h, 4) {
            Err(e) => Err(e),
            Ok(off) => if name_at(img, names + off) == name {
                match (field(img, h + 12, 4), field(img, h + 4, 4), field(img, h + 20, 4)) {
                    (Err(e), _, _) => Err(e),
                    (Ok(_), Err(e), _) => Err(e),
                    (Ok(_), Ok(_), Err(e)) => Err(e),
                    (Ok(a), Ok(s), Ok(al)) => Ok((a, s, al)),
                }
            } else {
                find_section(img, shoff, shentsize, names, name, i + 1, shnum)
            },
        }
    }
}

/// The placement of section `name`: the image must start with the
/// big-endian ELF32 identification; the section header table's offset,
/// entry size, count and name-table index are read from the header, then
/// the name table's offset, then each header in turn.
pub open spec fn section_spec(img: Seq<u8>, name: Seq<u8>) -> Result<(u32, u32, u32), ElfError> {
    if img.len() < 6 || img.subrange(0, 6) != elf_magic() {
        Err(ElfError::NotElf)
    } else {
        match (field(img, 0x20, 4), field(img, 0x2e, 2), field(img, 0x30, 2), field(img, 0x32, 2)) {
            (Err(e), _, _, _) => Err(e),
            (Ok(_), Err(e), _, _) => Err(e),
            (Ok(_), Ok(_), Err(e), _) => Err(e),
            (Ok(_), Ok(_), Ok(_), Err(e)) => Err(e),
            (Ok(shoff), Ok(ent), Ok(num), Ok(strndx)) => match field(
                img,
                shoff + strndx * ent + 16,
                4,
            ) {
                Err(e) => Err(e),
                Ok(names) => find_section(img, shoff as int, ent as int, names as int, name, 0, num as int),
            },
        }
    }
}

spec fn place(k: nat) -> int {
    if k == 0 { 1 } else if k == 1 { 0x100 } else if k == 2 { 0x1_0000 } else if k == 3 { 0x100_0000 } else { 0x1_0000_0000 }
}

fn read_field(img: &[u8], at: u64, len: u64) -> (r: Result<u32, ElfError>)
    requires
        len <= 4,
        at < 0x1_0000_0000_0000,
    ensures
        r == field(img@, at as int, len as nat),
{
    if at + len > img.len() as u64 {
        return Err(ElfError::Truncated(at));
    }
    let mut v: u64 = 0;
    let mut k: u64 = 0;
    while k < len
        invariant
            len <= 4,
            at + len <= img@.len(),
            k <= len,
            at < 0x1_0000_0000_0000,
            v == be_value(img@, at as int, k as nat),
            v < place(k as nat),
        decreases len - k,
    {
        v = v * 256 + img[(at + k) as usize] as u64;
        k = k + 1;
    }
    Ok(v as u32)
}

/// The NUL-terminated name at `start` equals `name`.
fn name_is(img: &[u8], start: u64, name: &[u8]) -> (r: bool)
    ensures
        r == (name_at(img@, start as int) == name@),
{
    let len = img.len();
    if start > len as u64 {
        assert(name_at(img@, start as int) == Seq::<u8>::empty());
        assert(name@.len() == 0 ==> name@ =~= Seq::<u8>::empty());
        return name.len() == 0;
    }
    let s = start as usize;
    let ghost tail = img@.subrange(s as int, img@.len() as int);
    let mut k: usize = s;
    while k < len && img[k] != 0
        invariant
            len == img@.len(),
            s <= k <= len,
            tail == img@.subrange(s as int, img@.len() as int),
            forall|j: int| s <= j < k ==> img@[j] != 0,
            first_nul(tail, 0) == first_nul(tail, (k - s) as int),
        decreases len - k,
    {
        k = k + 1;
    }
    if k == len {
        assert(first_nul(tail, (k - s) as int) == None::<int>);
        assert(name_at(img@, start as int) == Seq::<u8>::empty());
        assert(name@.len() == 0 ==> name@ =~= Seq::<u8>::empty());
        return name.len() == 0;
    }
    assert(first_nul(tail, (k - s) as int) == Some((k - s) as int));
    let n = k - s;
    assert(name_at(img@, start as int) == tail.subrange(0, n as int));
    if n != name.len() {
        assert(name_at(img@, start as int).len() != name@.len());
        assert(!(name_at(img@, start as int) =~= name@));
        return false;
    }
    let mut i: usize = 0;
    while i < n
        invariant
            n == name@.len(),
            len == img@.len(),
            s + n <= len,
            tail == img@.subrange(s as int, img@.len() as int),
            name_at(img@, start as int) == tail.subrange(0, n as int),
            i <= n,
            forall|j: int| 0 <= j < i ==> img@[s + j] == name@[j],
        decreases n - i,
    {
        if img[s + i] != name[i] {
            assert(tail.subrange(0, n as int)[i as int] != name@[i as int]);
            return false;
        }
        i = i + 1;
    }
    assert(tail.subrange(0, n as int) =~= name@);
    true
}

/// Finds section `name` in a big-endian ELF32 image and returns its
/// (address, type, size).
pub fn elf_section(img: &[u8], name: &[u8]) -> (r: Result<(u32, u32, u32), ElfError>)
    ensures
        r == section_spec(img@, name@),
{
    if img.len() < 6 || img[0] != 0x7F || img[1] != 0x45 || img[2] != 0x4C || img[3] != 0x46 || img[4]
        != 0x01 || img[5] != 0x02 {
        proof {
            if img@.len() >= 6 {
                let k: int = if img@[0] != 0x7F { 0 } else if img@[1] != 0x45 { 1 } else if img@[2] != 0x4C {
                    2
                } else if img@[3] != 0x46 { 3 } else if img@[4] != 0x01 { 4 } else { 5 };
                assert(img@.subrange(0, 6)[k] != elf_magic()[k]);
            }
        }
        return Err(ElfError::NotElf);
    }
    assert(img@.subrange(0, 6) =~= elf_magic());
    let shoff = match read_field(img, 0x20, 4) {
        Err(e) => {
            return Err(e);
        },
        Ok(v) => v as u64,
    };
    let ent = match read_field(img, 0x2e, 2) {
        Err(e) => {
            return Err(e);
        },
        Ok(v) => v as u64,
    };
    let num = match read_field(img, 0x30, 2) {
        Err(e) => {
            return Err(e);
        },
        Ok(v) => v as u64,
    };
    let strndx = match read_field(img, 0x32, 2) {
        Err(e) => {
            return Err(e);
        },
        Ok(v) => v as u64,
    };
    proof {
        vstd::arithmetic::power2::lemma2_to64();
        reveal_with_fuel(be_value, 3);
    }
    assert(ent < 0x1_0000 && num < 0x1_0000 && strndx < 0x1_0000);
    assert(strndx * ent <= 0xFFFF * 0xFFFF) by (nonlinear_arith)
        requires
            strndx < 0x1_0000,
            ent < 0x1_0000,
    ;
    let names = match read_field(img, shoff + strndx * ent + 16, 4) {
        Err(e) => {
            return Err(e);
        },
        Ok(v) => v as u64,
    };
    let mut i: u64 = 0;
    while i < num
        invariant
            shoff < 0x1_0000_0000,
            ent < 0x1_0000,
            num < 0x1_0000,
            names < 0x1_0000_0000,
            i <= num,
            section_spec(img@, name@) == find_section(img@, shoff as int, ent as int, names as int, name@, i as int, num as int),
        decreases num - i,
    {
        assert(i * ent <= 0xFFFF * 0xFFFF) by (nonlinear_arith)
            requires
                i < 0x1_0000,
                ent < 0x1_0000,
        ;
        let h = shoff + i * ent;
        let off = match read_field(img, h, 4) {
            Err(e) => {
                return Err(e);
            },
            Ok(v) => v as u64,
        };
        if name_is(img, names + off, name) {
            let a = match read_field(img, h + 12, 4) {
                Err(e) => {
                    return Err(e);
                },
                Ok(v) => v,
            };
            let s = match read_field(img, h + 4, 4) {
                Err(e) => {
                    return Err(e);
                },
                Ok(v) => v,
            };
            let al = match read_field(img, h + 20, 4) {
                Err(e) => {
                    return Err(e);
                },
                Ok(v) => v,
            };
            return Ok((a, s, al));
        }
        i = i + 1;
    }
    Err(ElfError::NoSection)
}


/// Whether the vector table's padding, bytes 0x80..0x400 of a BIOS image,
/// is present and all zero: code placed there would overlap it.
pub open spec fn vector_pad_clear(image: Seq<u8>) -> bool {
    image.len() >= 0x400 && forall|i: int| 0x80 <= i < 0x400 ==> image[i] == 0
}

/// Checks that a BIOS image leaves the vector table's padding clear.
pub fn check_vector_pad(image: &[u8]) -> (r: bool)
    ensures
        r == vector_pad_clear(image@),
{
    if image.len() < 0x400 {
        return false;
    }
    let mut i: usize = 0x80;
    while i < 0x400
        invariant
            0x80 <= i <= 0x400,
            image@.len() >= 0x400,
            forall|j: int| 0x80 <= j < i ==> image@[j] == 0,
        decreases 0x400 - i,
    {
        if image[i] != 0 {
            return false;
        }
        i = i + 1;
    }
    true
}

} // verus!
