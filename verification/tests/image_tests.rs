use binbased_tracing::elf::{new, symbol_tables, SegmentEntry};
use binbased_tracing::error::ElfError;

fn u16le(b: &mut Vec<u8>, v: u16) {
    b.extend_from_slice(&v.to_le_bytes());
}
fn u32le(b: &mut Vec<u8>, v: u32) {
    b.extend_from_slice(&v.to_le_bytes());
}
fn u64le(b: &mut Vec<u8>, v: u64) {
    b.extend_from_slice(&v.to_le_bytes());
}

fn section(b: &mut Vec<u8>, name: u32, kind: u32, offset: u64, size: u64, link: u32, entsize: u64) {
    u32le(b, name);
    u32le(b, kind);
    u64le(b, 0);
    u64le(b, 0);
    u64le(b, offset);
    u64le(b, size);
    u32le(b, link);
    u32le(b, 0);
    u64le(b, 1);
    u64le(b, entsize);
}

fn symbol(b: &mut Vec<u8>, name: u32, value: u64, size: u64) {
    u32le(b, name);
    b.push(0x12);
    b.push(0);
    u16le(b, 1);
    u64le(b, value);
    u64le(b, size);
}

/// A small aarch64 executable: one loadable segment at 0x400000 holding the
/// whole file, and a symbol table with `main.handler` and `main.main`.
fn image() -> Vec<u8> {
    let strtab = b"\0main.handler\0main.main\0";
    let shstrtab = b"\0.symtab\0.strtab\0.shstrtab\0";
    let strtab_off = 0x78u64;
    let shstrtab_off = strtab_off + strtab.len() as u64;
    let symtab_off = (shstrtab_off + shstrtab.len() as u64 + 7) / 8 * 8;
    let symtab_size = 3 * 24u64;
    let shoff = symtab_off + symtab_size;
    let total = shoff + 4 * 64;

    let mut b = vec![0x7f, b'E', b'L', b'F', 2, 1, 1, 0];
    b.extend_from_slice(&[0; 8]);
    u16le(&mut b, 2);
    u16le(&mut b, 0xb7);
    u32le(&mut b, 1);
    u64le(&mut b, 0x400100);
    u64le(&mut b, 0x40);
    u64le(&mut b, shoff);
    u32le(&mut b, 0);
    u16le(&mut b, 64);
    u16le(&mut b, 56);
    u16le(&mut b, 1);
    u16le(&mut b, 64);
    u16le(&mut b, 4);
    u16le(&mut b, 3);
    assert_eq!(b.len(), 0x40);

    u32le(&mut b, 1);
    u32le(&mut b, 5);
    u64le(&mut b, 0);
    u64le(&mut b, 0x400000);
    u64le(&mut b, 0x400000);
    u64le(&mut b, total);
    u64le(&mut b, total);
    u64le(&mut b, 0x1000);
    assert_eq!(b.len() as u64, strtab_off);

    b.extend_from_slice(strtab);
    b.extend_from_slice(shstrtab);
    while (b.len() as u64) < symtab_off {
        b.push(0);
    }
    symbol(&mut b, 0, 0, 0);
    symbol(&mut b, 1, 0x400100, 0x20);
    symbol(&mut b, 14, 0x400180, 0x40);
    assert_eq!(b.len() as u64, shoff);

    section(&mut b, 0, 0, 0, 0, 0, 0);
    section(&mut b, 1, 2, symtab_off, symtab_size, 2, 24);
    section(&mut b, 9, 3, strtab_off, strtab.len() as u64, 0, 0);
    section(&mut b, 17, 3, shstrtab_off, shstrtab.len() as u64, 0, 0);
    assert_eq!(b.len() as u64, total);
    b
}

#[test]
fn symbol_tables_of_an_image() {
    let bytes = image();
    let parsed = goblin::elf::Elf::parse(&bytes).unwrap();
    let (symbols, segments) = symbol_tables(&parsed);
    let names: Vec<&str> = symbols.iter().map(|s| s.name.as_str()).collect();
    assert_eq!(names, vec!["", "main.handler", "main.main"]);
    assert_eq!(symbols[1].value, 0x400100);
    assert_eq!(symbols[1].size, 0x20);
    assert_eq!(segments.len(), 1);
    let SegmentEntry { offset, vaddr, filesz } = segments[0];
    assert_eq!((offset, vaddr, filesz), (0, 0x400000, bytes.len() as u64));
}

#[test]
fn symbols_of_an_image_are_found() {
    let bytes = image();
    let e = new(&bytes).unwrap();
    assert_eq!(e.get_symbol("main.handler").unwrap(), (0x100, 0x20));
    assert_eq!(e.get_symbol("main.main").unwrap(), (0x180, 0x40));
    assert!(matches!(e.get_symbol("main.missing"), Err(ElfError::NotFound)));
}

#[test]
fn truncated_image_is_not_read() {
    let mut bytes = image();
    bytes.truncate(0x50);
    let e = new(&bytes).unwrap();
    assert!(matches!(e.get_symbol("main.handler"), Err(ElfError::ReadError)));
}
