use vega68::elf::{check_vector_pad, elf_section, ElfError};
use vega68::exports::bios_sym_lines;
use vega68::linkmap::{find_symbol, map_symbols};

fn put32(v: &mut [u8], at: usize, x: u32) {
    v[at..at + 4].copy_from_slice(&x.to_be_bytes());
}

fn put16(v: &mut [u8], at: usize, x: u16) {
    v[at..at + 2].copy_from_slice(&x.to_be_bytes());
}

/// A big-endian ELF32 image with a null section, `.text` and `.shstrtab`.
fn image() -> Vec<u8> {
    let mut v = vec![0u8; 0x180];

    v[..6].copy_from_slice(&[0x7f, b'E', b'L', b'F', 1, 2]);
    put32(&mut v, 0x20, 0x40);
    put16(&mut v, 0x2e, 40);
    put16(&mut v, 0x30, 3);
    put16(&mut v, 0x32, 2);

    let names = b"\0.text\0.shstrtab\0";
    v[0x140..0x140 + names.len()].copy_from_slice(names);

    let text = 0x40 + 40;
    put32(&mut v, text, 1);
    put32(&mut v, text + 4, 1);
    put32(&mut v, text + 12, 0x0000_0400);
    put32(&mut v, text + 20, 0x1234);

    let strtab = 0x40 + 80;
    put32(&mut v, strtab, 7);
    put32(&mut v, strtab + 4, 3);
    put32(&mut v, strtab + 16, 0x140);
    put32(&mut v, strtab + 20, names.len() as u32);

    v
}

#[test]
fn elf_section_reads_address_type_and_size() {
    assert_eq!(elf_section(&image(), b".text"), Ok((0x400, 1, 0x1234)));
    assert_eq!(elf_section(&image(), b".shstrtab"), Ok((0, 3, 17)));
}

#[test]
fn elf_section_reports_a_missing_section() {
    assert_eq!(elf_section(&image(), b".data"), Err(ElfError::NoSection));
    assert_eq!(elf_section(&image(), b".tex"), Err(ElfError::NoSection));
}

#[test]
fn elf_section_rejects_other_files() {
    let mut v = image();
    v[5] = 1;

    assert_eq!(elf_section(&v, b".text"), Err(ElfError::NotElf));
    assert_eq!(elf_section(b"\x7fEL", b".text"), Err(ElfError::NotElf));
}

#[test]
fn elf_section_reports_where_the_image_runs_out() {
    let v = image();

    assert_eq!(elf_section(&v[..0x22], b".text"), Err(ElfError::Truncated(0x20)));

    let mut far = v.clone();
    put32(&mut far, 0x20, 0x1000);
    assert_eq!(elf_section(&far, b".text"), Err(ElfError::Truncated(0x1000 + 80 + 16)));
}

#[test]
fn map_symbols_takes_address_and_name_lines() {
    let text = b"  0x00001000  v68_reset\n 0x00002000 v68_monitor = .\n0x3000 not_a_symbol extra\n junk\n 0xZZ bad\n0x100000000 too_big\n 0x+1F plus\r\n";

    let syms: Vec<(u32, Vec<u8>)> = map_symbols(text);

    assert_eq!(
        syms,
        vec![
            (0x1000, b"v68_reset".to_vec()),
            (0x2000, b"v68_monitor".to_vec()),
            (0x1F, b"plus".to_vec()),
        ]
    );
}

#[test]
fn map_symbols_of_an_empty_map_is_empty() {
    assert!(map_symbols(b"").is_empty());
    assert!(map_symbols(b"\n\n  \n").is_empty());
}

#[test]
fn find_symbol_takes_the_first_definition() {
    let text = b"0x10 a\n0x20 b\n0x30 a\n";

    assert_eq!(find_symbol(text, b"a"), Some(0x10));
    assert_eq!(find_symbol(text, b"b"), Some(0x20));
    assert_eq!(find_symbol(text, b"c"), None);
}

#[test]
fn map_symbols_splits_on_unicode_white_space() {
    let text = "0x10\u{a0}nbsp_name\n0x20\u{3000}wide\u{2003}=\n0x30 a\u{85}b\n\u{2028}0x40\u{1680}caf\u{e9}\u{205f}\n";

    let syms = map_symbols(text.as_bytes());

    assert_eq!(
        syms,
        vec![
            (0x10, b"nbsp_name".to_vec()),
            (0x20, b"wide".to_vec()),
            (0x40, "caf\u{e9}".as_bytes().to_vec()),
        ]
    );
}

#[test]
fn map_symbols_keeps_other_non_ascii_bytes_in_names() {
    let text = "0x50 \u{e0}\u{2000}\n0x60 \u{202f}x\u{2029}y\n";

    assert_eq!(
        map_symbols(text.as_bytes()),
        vec![(0x50, "\u{e0}".as_bytes().to_vec())]
    );
}

#[test]
fn vector_pad_must_be_present_and_zero() {
    let mut image = vec![0u8; 0x400];
    image[..0x80].fill(0xAA);
    assert!(check_vector_pad(&image));

    image.extend_from_slice(&[1, 2, 3]);
    assert!(check_vector_pad(&image));

    image[0x3FF] = 1;
    assert!(!check_vector_pad(&image));

    image[0x3FF] = 0;
    image[0x80] = 0x4E;
    assert!(!check_vector_pad(&image));

    assert!(!check_vector_pad(&[0u8; 0x3FF]));
    assert!(!check_vector_pad(&[]));
}

fn joined(lines: &[Vec<u8>]) -> String {
    let parts: Vec<String> = lines
        .iter()
        .map(|l| String::from_utf8(l.clone()).unwrap())
        .collect();
    parts.join("\n")
}

#[test]
fn bios_sym_lists_each_export_once_in_order() {
    let text = b" .text 0x00000000 0x200\n 0x000001f0  v68_reset\n 0x00000100  v68_monitor\n 0x00000200 other\n 0x000001f0 v68_reset = .\n";

    let lines = bios_sym_lines(text).unwrap();

    assert_eq!(
        joined(&lines),
        "PROVIDE(v68_monitor = 0x00000100);\nPROVIDE(v68_reset = 0x000001f0);"
    );
}

#[test]
fn bios_sym_keeps_two_addresses_of_one_export() {
    let text = b"0xABCDEF01 v68_reset\n0x2 v68_monitor\n0x10 v68_reset\n";

    let lines = bios_sym_lines(text).unwrap();

    assert_eq!(
        joined(&lines),
        "PROVIDE(v68_monitor = 0x00000002);\nPROVIDE(v68_reset = 0x00000010);\nPROVIDE(v68_reset = 0xabcdef01);"
    );
}

#[test]
fn bios_sym_names_the_missing_exports() {
    assert_eq!(
        bios_sym_lines(b"0x100 v68_monitor\n"),
        Err(vec![b"v68_reset".to_vec()])
    );
    assert_eq!(
        bios_sym_lines(b"0x100 v68_monitor_x\n0x200 main\n"),
        Err(vec![b"v68_monitor".to_vec(), b"v68_reset".to_vec()])
    );
    assert_eq!(
        bios_sym_lines(b""),
        Err(vec![b"v68_monitor".to_vec(), b"v68_reset".to_vec()])
    );
}
