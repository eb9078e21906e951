use binbased_tracing::dwarf::RuntimeOffsets;
use binbased_tracing::error::DwarfError;

fn u16le(b: &mut Vec<u8>, v: u16) {
    b.extend_from_slice(&v.to_le_bytes());
}
fn u32le(b: &mut Vec<u8>, v: u32) {
    b.extend_from_slice(&v.to_le_bytes());
}
fn u64le(b: &mut Vec<u8>, v: u64) {
    b.extend_from_slice(&v.to_le_bytes());
}

fn section_header(b: &mut Vec<u8>, name: u32, kind: u32, offset: u64, size: u64) {
    u32le(b, name);
    u32le(b, kind);
    u64le(b, 0);
    u64le(b, 0);
    u64le(b, offset);
    u64le(b, size);
    u32le(b, 0);
    u32le(b, 0);
    u64le(b, 1);
    u64le(b, 0);
}

/// Abbreviations: a compile unit and a structure with children and a name;
/// a member with a name and a one-byte location.
fn abbrevs() -> Vec<u8> {
    vec![
        1, 0x11, 1, 0x03, 0x08, 0, 0, 2, 0x13, 1, 0x03, 0x08, 0, 0, 3, 0x0d, 0, 0x03, 0x08, 0x38, 0x0b, 0, 0, 0,
    ]
}

fn cstr(b: &mut Vec<u8>, s: &str) {
    b.extend_from_slice(s.as_bytes());
    b.push(0);
}

/// One unit: a compile unit holding the structure `name` with the members
/// `(field, offset)`.
fn unit(name: &str, members: &[(&str, u8)]) -> Vec<u8> {
    let mut dies = Vec::new();
    dies.push(1);
    cstr(&mut dies, "runtime");
    dies.push(2);
    cstr(&mut dies, name);
    for (field, offset) in members {
        dies.push(3);
        cstr(&mut dies, field);
        dies.push(*offset);
    }
    dies.push(0);
    dies.push(0);
    let mut u = Vec::new();
    u32le(&mut u, (2 + 4 + 1 + dies.len()) as u32);
    u16le(&mut u, 4);
    u32le(&mut u, 0);
    u.push(8);
    u.extend_from_slice(&dies);
    u
}

/// An aarch64 ELF image whose sections are `sections` (name, contents).
fn image(sections: &[(&str, Vec<u8>)]) -> Vec<u8> {
    let mut shstrtab = vec![0u8];
    let mut names = Vec::new();
    for (name, _) in sections {
        names.push(shstrtab.len() as u32);
        cstr(&mut shstrtab, name);
    }
    let shstrtab_name = shstrtab.len() as u32;
    cstr(&mut shstrtab, ".shstrtab");

    let mut data = Vec::new();
    let mut offsets = Vec::new();
    for (_, contents) in sections {
        offsets.push(0x40 + data.len() as u64);
        data.extend_from_slice(contents);
    }
    let shstrtab_off = 0x40 + data.len() as u64;
    data.extend_from_slice(&shstrtab);
    while data.len() % 8 != 0 {
        data.push(0);
    }
    let shoff = 0x40 + data.len() as u64;
    let shnum = sections.len() as u16 + 2;

    let mut b = vec![0x7f, b'E', b'L', b'F', 2, 1, 1, 0];
    b.extend_from_slice(&[0; 8]);
    u16le(&mut b, 2);
    u16le(&mut b, 0xb7);
    u32le(&mut b, 1);
    u64le(&mut b, 0);
    u64le(&mut b, 0);
    u64le(&mut b, shoff);
    u32le(&mut b, 0);
    u16le(&mut b, 64);
    u16le(&mut b, 56);
    u16le(&mut b, 0);
    u16le(&mut b, 64);
    u16le(&mut b, shnum);
    u16le(&mut b, shnum - 1);
    b.extend_from_slice(&data);
    section_header(&mut b, 0, 0, 0, 0);
    for (k, (_, contents)) in sections.iter().enumerate() {
        section_header(&mut b, names[k], 1, offsets[k], contents.len() as u64);
    }
    section_header(&mut b, shstrtab_name, 3, shstrtab_off, shstrtab.len() as u64);
    b
}

#[test]
fn goid_offset_is_read_from_the_image() {
    let mut info = unit("runtime.m", &[("goid", 8)]);
    info.extend(unit("runtime.g", &[("stack", 0), ("goid", 152)]));
    let bytes = image(&[(".debug_abbrev", abbrevs()), (".debug_info", info)]);
    assert_eq!(RuntimeOffsets::from_elf(&bytes).unwrap().goid, 152);
}

#[test]
fn missing_goid_member_is_reported() {
    let bytes = image(&[(".debug_abbrev", abbrevs()), (".debug_info", unit("runtime.g", &[("stack", 0)]))]);
    match RuntimeOffsets::from_elf(&bytes) {
        Err(DwarfError::FieldNotFound { struct_name, field }) => {
            assert_eq!(struct_name, "runtime.g");
            assert_eq!(field, "goid");
        },
        other => panic!("unexpected {:?}", other.map(|o| o.goid)),
    }
}

#[test]
fn image_without_debugging_information_has_no_runtime_g() {
    let bytes = image(&[(".text", vec![0xc0, 0x03, 0x5f, 0xd6])]);
    assert!(matches!(RuntimeOffsets::from_elf(&bytes), Err(DwarfError::StructNotFound(n)) if n == "runtime.g"));
}

#[test]
fn bytes_that_are_no_object_file_have_no_dwarf() {
    assert!(matches!(RuntimeOffsets::from_elf(b"not an object file"), Err(DwarfError::NoDwarfInfo)));
}

#[test]
fn truncated_unit_is_a_read_error() {
    let mut info = unit("runtime.g", &[("goid", 152)]);
    info.truncate(info.len() - 6);
    let bytes = image(&[(".debug_abbrev", abbrevs()), (".debug_info", info)]);
    assert!(matches!(RuntimeOffsets::from_elf(&bytes), Err(DwarfError::GimliError(_))));
}
