use vstd::prelude::*;

use crate::error::ElfError;
use crate::text::str_eq;

verus! {

/// The ELF magic: `\x7fELF`.
pub open spec fn has_elf_magic(b: Seq<u8>) -> bool {
    b.len() >= 4 && b[0] == 0x7f && b[1] == 0x45 && b[2] == 0x4c && b[3] == 0x46
}

/// What `goblin::peek_bytes` reports for 16 bytes: `Ok(true)` for an ELF hint,
/// `Ok(false)` for another format, `Err(())` when it fails.
pub uninterp spec fn peek_outcome(bytes: Seq<u8>) -> Result<bool, ()>;

/// Calls `goblin::peek_bytes` on exactly 16 bytes. Its source returns the ELF
/// hint exactly when the bytes start with the ELF magic; for other bytes it
/// may report another format or fail (Mach-O context parsing), which is left
/// to the name `peek_outcome`.
#[verifier::external_body]
fn goblin_peek(bytes: &[u8]) -> (r: Result<bool, ()>)
    requires
        bytes@.len() == 16,
    ensures
        r == peek_outcome(bytes@),
        (r matches Ok(true)) == has_elf_magic(bytes@),
{
    let arr: &[u8; 16] = bytes.try_into().unwrap();
    match goblin::peek_bytes(arr) {
        Ok(goblin::Hint::Elf(_)) => Ok(true),
        Ok(_) => Ok(false),
        Err(_) => Err(()),
    }
}

/// An ELF image.
pub struct ELF<'a> {
    file: &'a [u8],
}

impl<'a> ELF<'a> {
    pub closed spec fn bytes(&self) -> Seq<u8> {
        self.file@
    }
}

/// The verdict on a file from the format hint of its first 16 bytes.
pub fn check_hint(hint: Result<bool, ()>) -> (r: Result<(), ElfError>)
    ensures
        (hint matches Ok(true)) ==> r is Ok,
        (hint matches Ok(false)) ==> r matches Err(ElfError::NotAnElfFile),
        hint is Err ==> r matches Err(ElfError::ReadError),
{
    match hint {
        Ok(true) => Ok(()),
        Ok(false) => Err(ElfError::NotAnElfFile),
        Err(()) => Err(ElfError::ReadError),
    }
}

/// Accepts `file` when it is at least 16 bytes long and its format hint is ELF.
pub fn new<'a>(file: &'a [u8]) -> (r: Result<ELF<'a>, ElfError>)
    ensures
        file@.len() < 16 ==> r matches Err(ElfError::ReadError),
        file@.len() >= 16 ==> {
            let h = peek_outcome(file@.subrange(0, 16));
            &&& (r is Ok <==> h matches Ok(true))
            &&& (r is Ok <==> has_elf_magic(file@))
            &&& (h matches Ok(false) ==> r matches Err(ElfError::NotAnElfFile))
            &&& (h is Err ==> r matches Err(ElfError::ReadError))
        },
        r matches Ok(e) ==> e.bytes() == file@,
{
    if file.len() < 16 {
        return Err(ElfError::ReadError);
    }
    let head = file.split_at(16).0;
    let hint = goblin_peek(head);
    match check_hint(hint) {
        Ok(()) => Ok(ELF { file }),
        Err(e) => Err(e),
    }
}

/// An entry of an image's symbol table.
pub struct SymbolEntry {
    pub name: String,
    pub value: u64,
    pub size: u64,
}

/// A loadable segment of an image: its file offset, virtual address and
/// size in the file.
#[derive(Clone, Copy)]
pub struct SegmentEntry {
    pub offset: u64,
    pub vaddr: u64,
    pub filesz: u64,
}

/// The index of the first symbol from `i` on named `name`, or the length.
pub open spec fn symbol_index(symbols: Seq<SymbolEntry>, name: Seq<char>, i: int) -> int
    decreases symbols.len() - i,
{
    if i < 0 || i >= symbols.len() {
        symbols.len() as int
    } else if symbols[i].name@ == name {
        i
    } else {
        symbol_index(symbols, name, i + 1)
    }
}

/// The segment holds the address `addr` in the file.
pub open spec fn segment_holds(s: SegmentEntry, addr: u64) -> bool {
    s.vaddr <= addr < s.vaddr + s.filesz
}

/// The index of the first segment from `i` on that holds `addr`, or the length.
pub open spec fn segment_index(segments: Seq<SegmentEntry>, addr: u64, i: int) -> int
    decreases segments.len() - i,
{
    if i < 0 || i >= segments.len() {
        segments.len() as int
    } else if segment_holds(segments[i], addr) {
        i
    } else {
        segment_index(segments, addr, i + 1)
    }
}

/// The file offset and size of code at address `value` with size `size`:
/// the address translated through the first loadable segment that holds it
/// in the file.
pub open spec fn place(segments: Seq<SegmentEntry>, value: u64, size: u64) -> Result<(u64, u64), ElfError> {
    let j = segment_index(segments, value, 0);
    if j >= segments.len() || segments[j].offset + (value - segments[j].vaddr) > u64::MAX {
        Err(ElfError::NotFound)
    } else {
        Ok(((segments[j].offset + (value - segments[j].vaddr)) as u64, size))
    }
}

/// The file offset and size of the first symbol named `name`, its address
/// translated through the first loadable segment that holds it in the file.
pub open spec fn symbol_location(symbols: Seq<SymbolEntry>, segments: Seq<SegmentEntry>, name: Seq<char>) -> Result<
    (u64, u64),
    ElfError,
> {
    let i = symbol_index(symbols, name, 0);
    if i >= symbols.len() {
        Err(ElfError::NotFound)
    } else {
        place(segments, symbols[i].value, symbols[i].size)
    }
}

fn symbol_position(symbols: &Vec<SymbolEntry>, name: &str) -> (r: usize)
    ensures
        r == symbol_index(symbols@, name@, 0),
{
    let mut i: usize = 0;
    while i < symbols.len()
        invariant
            i <= symbols@.len(),
            symbol_index(symbols@, name@, i as int) == symbol_index(symbols@, name@, 0),
        decreases symbols@.len() - i,
    {
        if str_eq(symbols[i].name.as_str(), name) {
            return i;
        }
        i += 1;
    }
    i
}

fn segment_position(segments: &Vec<SegmentEntry>, addr: u64) -> (r: usize)
    ensures
        r == segment_index(segments@, addr, 0),
{
    let mut j: usize = 0;
    while j < segments.len()
        invariant
            j <= segments@.len(),
            segment_index(segments@, addr, j as int) == segment_index(segments@, addr, 0),
        decreases segments@.len() - j,
    {
        let s = segments[j];
        if s.vaddr <= addr && addr - s.vaddr < s.filesz {
            return j;
        }
        j += 1;
    }
    j
}

proof fn lemma_symbol_index(symbols: Seq<SymbolEntry>, name: Seq<char>, i: int)
    requires
        0 <= i <= symbols.len(),
    ensures
        i <= symbol_index(symbols, name, i) <= symbols.len(),
    decreases symbols.len() - i,
{
    if i < symbols.len() {
        lemma_symbol_index(symbols, name, i + 1);
    }
}

proof fn lemma_segment_index(segments: Seq<SegmentEntry>, addr: u64, i: int)
    requires
        0 <= i <= segments.len(),
    ensures
        i <= segment_index(segments, addr, i) <= segments.len(),
        segment_index(segments, addr, i) < segments.len() ==> segment_holds(
            segments[segment_index(segments, addr, i)],
            addr,
        ),
    decreases segments.len() - i,
{
    if i < segments.len() {
        lemma_segment_index(segments, addr, i + 1);
    }
}

/// Finds where the code of the symbol `name` lies in the image file: its file
/// offset and its size.
pub fn find_symbol(symbols: &Vec<SymbolEntry>, segments: &Vec<SegmentEntry>, name: &str) -> (r: Result<(u64, u64), ElfError>)
    ensures
        r == symbol_location(symbols@, segments@, name@),
{
    let i = symbol_position(symbols, name);
    if i >= symbols.len() {
        return Err(ElfError::NotFound);
    }
    let value = symbols[i].value;
    let j = segment_position(segments, value);
    proof {
        lemma_symbol_index(symbols@, name@, 0);
        lemma_segment_index(segments@, value, 0);
    }
    if j >= segments.len() {
        return Err(ElfError::NotFound);
    }
    let s = segments[j];
    let delta = value - s.vaddr;
    if s.offset > u64::MAX - delta {
        return Err(ElfError::NotFound);
    }
    Ok((s.offset + delta, symbols[i].size))
}

/// goblin's parsed ELF image, carried through as it is.
#[verifier::external_type_specification]
#[verifier::external_body]
pub struct ExImage<'a>(goblin::elf::Elf<'a>);

/// goblin's error type.
#[verifier::external_type_specification]
#[verifier::external_body]
pub struct ExGoblinError(goblin::error::Error);

/// The symbol table of a parsed image: for each entry, the offset of its name
/// in the string table, its value and its size.
pub uninterp spec fn image_symbols(image: goblin::elf::Elf) -> Seq<(usize, u64, u64)>;

/// The string table of a parsed image: the string found at each offset that
/// has one.
pub uninterp spec fn image_strings(image: goblin::elf::Elf) -> Map<usize, Seq<char>>;

/// The program headers of a parsed image: type, file offset, virtual address
/// and size in the file.
pub uninterp spec fn image_segments(image: goblin::elf::Elf) -> Seq<(u32, u64, u64, u64)>;

/// What goblin's ELF parser makes of a file: `None` when it fails, else the
/// symbol table, the string table and the program headers it reads, as
/// `image_symbols`, `image_strings` and `image_segments` give them.
pub uninterp spec fn parsed_elf(bytes: Seq<u8>) -> Option<
    (Seq<(usize, u64, u64)>, Map<usize, Seq<char>>, Seq<(u32, u64, u64, u64)>),
>;

/// The tables of a parsed image, in the shape of `parsed_elf`.
pub open spec fn image_tables(image: goblin::elf::Elf) -> (
    Seq<(usize, u64, u64)>,
    Map<usize, Seq<char>>,
    Seq<(u32, u64, u64, u64)>,
) {
    (image_symbols(image), image_strings(image), image_segments(image))
}

/// `PT_LOAD`: a loadable segment.
pub const PT_LOAD: u32 = 1;

/// Parses an ELF image with `goblin::elf::Elf::parse`. The parser reads the
/// bytes alone, so whether it succeeds and the tables of the image it builds
/// are a function of the bytes: the name `parsed_elf`.
#[verifier::external_body]
fn parse_image<'a>(bytes: &'a [u8]) -> (r: Result<goblin::elf::Elf<'a>, goblin::error::Error>)
    ensures
        r is Err ==> parsed_elf(bytes@) is None,
        r matches Ok(image) ==> parsed_elf(bytes@) == Some(image_tables(image)),
{
    goblin::elf::Elf::parse(bytes)
}

/// The number of symbols: `Symtab::len` of the image's `syms`.
#[verifier::external_body]
fn symbol_count(image: &goblin::elf::Elf) -> (r: usize)
    ensures
        r == image_symbols(*image).len(),
{
    image.syms.len()
}

/// Symbol `i` (`Symtab::get`), as its name offset, value and size; `None`
/// past the end.
#[verifier::external_body]
fn symbol_at(image: &goblin::elf::Elf, i: usize) -> (r: Option<(usize, u64, u64)>)
    ensures
        r == (if i < image_symbols(*image).len() { Some(image_symbols(*image)[i as int]) } else { None }),
{
    image.syms.get(i).map(|s| (s.st_name, s.st_value, s.st_size))
}

/// The string at `offset` of the image's string table (`Strtab::get_at`).
#[verifier::external_body]
fn string_at(image: &goblin::elf::Elf, offset: usize) -> (r: Option<String>)
    ensures
        match r {
            Some(s) => image_strings(*image).contains_key(offset) && image_strings(*image)[offset] == s@,
            None => !image_strings(*image).contains_key(offset),
        },
{
    image.strtab.get_at(offset).map(|s| s.to_string())
}

/// The number of program headers of the image.
#[verifier::external_body]
fn segment_count(image: &goblin::elf::Elf) -> (r: usize)
    ensures
        r == image_segments(*image).len(),
{
    image.program_headers.len()
}

/// Program header `i` of the image, as its type, file offset, virtual
/// address and size in the file.
#[verifier::external_body]
fn segment_at(image: &goblin::elf::Elf, i: usize) -> (r: (u32, u64, u64, u64))
    requires
        i < image_segments(*image).len(),
    ensures
        r == image_segments(*image)[i as int],
{
    let p = &image.program_headers[i];
    (p.p_type, p.p_offset, p.p_vaddr, p.p_filesz)
}

/// The name of symbol table entry `e`: its string in `strings`, or empty
/// when the string table has none at its offset.
pub open spec fn entry_name(strings: Map<usize, Seq<char>>, e: (usize, u64, u64)) -> Seq<char> {
    if strings.contains_key(e.0) {
        strings[e.0]
    } else {
        Seq::empty()
    }
}

/// The index of the first entry from `i` on whose name is `name`, or the
/// length.
pub open spec fn entry_index(entries: Seq<(usize, u64, u64)>, strings: Map<usize, Seq<char>>, name: Seq<char>, i: int) -> int
    decreases entries.len() - i,
{
    if i < 0 || i >= entries.len() {
        entries.len() as int
    } else if entry_name(strings, entries[i]) == name {
        i
    } else {
        entry_index(entries, strings, name, i + 1)
    }
}

/// Where the code of the symbol `name` lies in a file whose parse gave
/// `tables`: `ReadError` when it did not parse; else the file offset and size
/// of the first symbol table entry named `name`, its value translated through
/// the first loadable program header that holds it in the file; `NotFound`
/// when there is none.
pub open spec fn file_symbol_location(
    tables: Option<(Seq<(usize, u64, u64)>, Map<usize, Seq<char>>, Seq<(u32, u64, u64, u64)>)>,
    name: Seq<char>,
) -> Result<(u64, u64), ElfError> {
    match tables {
        None => Err(ElfError::ReadError),
        Some(t) => {
            let i = entry_index(t.0, t.1, name, 0);
            if i >= t.0.len() {
                Err(ElfError::NotFound)
            } else {
                place(loadable(t.2), t.0[i].1, t.0[i].2)
            }
        },
    }
}

/// A symbol list read from `entries` and `strings` is searched as the
/// entries themselves are.
proof fn lemma_entry_index(
    symbols: Seq<SymbolEntry>,
    entries: Seq<(usize, u64, u64)>,
    strings: Map<usize, Seq<char>>,
    name: Seq<char>,
    i: int,
)
    requires
        symbols.len() == entries.len(),
        forall|k: int| 0 <= k < symbols.len() ==> (#[trigger] symbols[k]).name@ == entry_name(strings, entries[k]),
    ensures
        symbol_index(symbols, name, i) == entry_index(entries, strings, name, i),
    decreases symbols.len() - i,
{
    if 0 <= i < symbols.len() {
        lemma_entry_index(symbols, entries, strings, name, i + 1);
    }
}

/// The loadable segments among `hs`, in order.
pub open spec fn loadable(hs: Seq<(u32, u64, u64, u64)>) -> Seq<SegmentEntry>
    decreases hs.len(),
{
    if hs.len() == 0 {
        Seq::empty()
    } else {
        let rest = loadable(hs.drop_last());
        let h = hs.last();
        if h.0 == PT_LOAD {
            rest.push(SegmentEntry { offset: h.1, vaddr: h.2, filesz: h.3 })
        } else {
            rest
        }
    }
}

/// The image's symbols with their names, and its loadable segments.
pub fn symbol_tables(image: &goblin::elf::Elf) -> (r: (Vec<SymbolEntry>, Vec<SegmentEntry>))
    ensures
        r.0@.len() == image_symbols(*image).len(),
        forall|k: int| 0 <= k < r.0@.len() ==> {
            let e = image_symbols(*image)[k];
            &&& (#[trigger] r.0@[k]).name@ == entry_name(image_strings(*image), e)
            &&& r.0@[k].value == e.1
            &&& r.0@[k].size == e.2
        },
        r.1@ == loadable(image_segments(*image)),
{
    let n = symbol_count(image);
    let mut symbols: Vec<SymbolEntry> = Vec::new();
    let mut i: usize = 0;
    while i < n
        invariant
            n == image_symbols(*image).len(),
            i <= n,
            symbols@.len() == i,
            forall|k: int| 0 <= k < i ==> {
                let e = image_symbols(*image)[k];
                &&& (#[trigger] symbols@[k]).name@ == entry_name(image_strings(*image), e)
                &&& symbols@[k].value == e.1
                &&& symbols@[k].size == e.2
            },
        decreases n - i,
    {
        let (name_offset, value, size) = symbol_at(image, i).unwrap();
        let name = match string_at(image, name_offset) {
            Some(s) => s,
            None => String::new(),
        };
        symbols.push(SymbolEntry { name, value, size });
        i += 1;
    }
    let m = segment_count(image);
    let mut segments: Vec<SegmentEntry> = Vec::new();
    let mut j: usize = 0;
    while j < m
        invariant
            m == image_segments(*image).len(),
            j <= m,
            segments@ == loadable(image_segments(*image).subrange(0, j as int)),
        decreases m - j,
    {
        let (p_type, offset, vaddr, filesz) = segment_at(image, j);
        let ghost hs = image_segments(*image).subrange(0, j + 1);
        assert(hs.drop_last() == image_segments(*image).subrange(0, j as int));
        if p_type == PT_LOAD {
            segments.push(SegmentEntry { offset, vaddr, filesz });
        }
        j += 1;
    }
    assert(image_segments(*image).subrange(0, m as int) == image_segments(*image));
    (symbols, segments)
}

impl<'a> ELF<'a> {
    /// Where the code of the symbol `name` lies in the image file: its file
    /// offset and its size. `ReadError` when goblin cannot parse the image;
    /// otherwise `find_symbol` on its `symbol_tables`, which is
    /// `file_symbol_location` over the tables the parser read.
    pub fn get_symbol(&self, name: &str) -> (r: Result<(u64, u64), ElfError>)
        ensures
            r == file_symbol_location(parsed_elf(self.bytes()), name@),
    {
        match parse_image(self.file) {
            Ok(image) => {
                let (symbols, segments) = symbol_tables(&image);
                proof {
                    lemma_entry_index(symbols@, image_symbols(image), image_strings(image), name@, 0);
                    lemma_symbol_index(symbols@, name@, 0);
                }
                find_symbol(&symbols, &segments, name)
            },
            Err(_) => Err(ElfError::ReadError),
        }
    }
}

} // verus!
