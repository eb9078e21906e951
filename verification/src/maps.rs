use vstd::prelude::*;

use crate::error::MapsError;
use crate::text::{
    chars_of, digit_value, hex_digits, lemma_parse_hex_round_trip, lemma_parse_round_trip, lines_of, parse_radix, pow16,
    radix_digits, radix_pow, split_lines, parse_u64_radix, split_whitespace, split_whitespace_of, IntErrorKind,
};

verus! {

/// One line of `/proc/<pid>/maps`.
#[derive(Debug)]
pub struct MemMap {
    pub address: (u64, u64),
    pub _readable: bool,
    pub _writable: bool,
    pub executable: bool,
    pub _shared: bool,
    pub _private: bool,
    pub _offset: u64,
    pub _device: (u64, u64),
    pub _inode: u64,
    pub _pathname: Option<String>,
}

/// A mapping as plain values.
pub struct MemMapView {
    pub address: (u64, u64),
    pub readable: bool,
    pub writable: bool,
    pub executable: bool,
    pub shared: bool,
    pub private: bool,
    pub offset: u64,
    pub device: (u64, u64),
    pub inode: u64,
    pub pathname: Option<Seq<char>>,
}

impl View for MemMap {
    type V = MemMapView;

    open spec fn view(&self) -> MemMapView {
        MemMapView {
            address: self.address,
            readable: self._readable,
            writable: self._writable,
            executable: self.executable,
            shared: self._shared,
            private: self._private,
            offset: self._offset,
            device: self._device,
            inode: self._inode,
            pathname: match self._pathname {
                Some(p) => Some(p@),
                None => None,
            },
        }
    }
}

/// The first index at or after `i` where `s` holds `c`, or the length.
pub open spec fn find_char(s: Seq<char>, c: char, i: int) -> int
    decreases s.len() - i,
{
    if i < 0 || i >= s.len() {
        s.len() as int
    } else if s[i] == c {
        i
    } else {
        find_char(s, c, i + 1)
    }
}

/// The first piece of `s` split at `sep`.
pub open spec fn first_piece(s: Seq<char>, sep: char) -> Seq<char> {
    s.subrange(0, find_char(s, sep, 0))
}

/// The second piece of `s` split at `sep`, if `sep` occurs.
pub open spec fn second_piece(s: Seq<char>, sep: char) -> Option<Seq<char>> {
    let p = find_char(s, sep, 0);
    if p >= s.len() {
        None
    } else {
        Some(s.subrange(p + 1, find_char(s, sep, p + 1)))
    }
}

/// A hexadecimal number, or the error the maps parser reports for it.
pub open spec fn parse_field(s: Seq<char>, radix: u32) -> Result<u64, MapsError> {
    match parse_radix(s, radix) {
        Ok(v) => Ok(v),
        Err(k) => Err(MapsError::FailedToParse(k)),
    }
}

/// Two hexadecimal numbers separated by `sep`, such as `start-end` or
/// `major:minor`; text after a second separator is ignored.
pub open spec fn parse_pair(s: Seq<char>, sep: char) -> Result<(u64, u64), MapsError> {
    match parse_field(first_piece(s, sep), 16) {
        Err(e) => Err(e),
        Ok(a) => match second_piece(s, sep) {
            None => Err(MapsError::ParseError),
            Some(p) => match parse_field(p, 16) {
                Err(e) => Err(e),
                Ok(b) => Ok((a, b)),
            },
        },
    }
}

/// The meaning of a maps line: at least five whitespace-separated fields
/// (address range, permissions, offset, device, inode) and an optional
/// pathname; fields are checked in that order.
pub open spec fn parse_memmap(line: Seq<char>) -> Result<MemMapView, MapsError> {
    let parts = split_whitespace(line);
    if parts.len() < 5 {
        Err(MapsError::ParseError)
    } else {
        match parse_pair(parts[0], '-') {
            Err(e) => Err(e),
            Ok(address) => match parse_field(parts[2], 16) {
                Err(e) => Err(e),
                Ok(offset) => match parse_pair(parts[3], ':') {
                    Err(e) => Err(e),
                    Ok(device) => match parse_field(parts[4], 10) {
                        Err(e) => Err(e),
                        Ok(inode) => Ok(
                            MemMapView {
                                address,
                                readable: parts[1].contains('r'),
                                writable: parts[1].contains('w'),
                                executable: parts[1].contains('x'),
                                shared: parts[1].contains('s'),
                                private: parts[1].contains('p'),
                                offset,
                                device,
                                inode,
                                pathname: if parts.len() >= 6 {
                                    Some(parts[5])
                                } else {
                                    None
                                },
                            },
                        ),
                    },
                },
            },
        }
    }
}

/// The offset field of a maps line is hexadecimal: when the third field is
/// `v` written with `k` hexadecimal digits (leading zeros allowed) and the
/// other fields are well formed, the line parses and its offset is `v`,
/// whatever `v` is.
pub proof fn lemma_offset_is_hex(line: Seq<char>, v: u64, k: nat)
    requires
        split_whitespace(line).len() >= 5,
        1 <= k,
        v < pow16(k),
        split_whitespace(line)[2] == hex_digits(v as nat, k),
        parse_pair(split_whitespace(line)[0], '-') is Ok,
        parse_pair(split_whitespace(line)[3], ':') is Ok,
        parse_field(split_whitespace(line)[4], 10) is Ok,
    ensures
        parse_memmap(line) is Ok,
        parse_memmap(line)->Ok_0.offset == v,
{
    lemma_parse_hex_round_trip(v, k);
}

proof fn lemma_find_char_at(s: Seq<char>, c: char, i: int, p: int)
    requires
        0 <= i <= p <= s.len(),
        p < s.len() ==> s[p] == c,
        forall|j: int| i <= j < p ==> s[j] != c,
    ensures
        find_char(s, c, i) == p,
    decreases p - i,
{
    if i < p {
        lemma_find_char_at(s, c, i + 1, p);
    }
}

/// Two hexadecimal numbers joined by `sep` read back as the pair.
proof fn lemma_pair_round_trip(a: u64, ka: nat, b: u64, kb: nat, sep: char)
    requires
        1 <= ka,
        1 <= kb,
        a < pow16(ka),
        b < pow16(kb),
        digit_value(sep, 16) is None,
    ensures
        parse_pair(hex_digits(a as nat, ka) + seq![sep] + hex_digits(b as nat, kb), sep) == Ok::<(u64, u64), MapsError>((a, b)),
{
    lemma_parse_round_trip(a, ka, 16);
    lemma_parse_round_trip(b, kb, 16);
    let x = hex_digits(a as nat, ka);
    let y = hex_digits(b as nat, kb);
    let s = x + seq![sep] + y;
    let n = ka as int;
    assert(s[n] == sep);
    assert forall|j: int| 0 <= j < n implies s[j] != sep by {
        assert(s[j] == x[j]);
        assert(digit_value(x[j], 16) is Some);
    }
    lemma_find_char_at(s, sep, 0, n);
    assert forall|j: int| n + 1 <= j < s.len() implies s[j] != sep by {
        assert(s[j] == y[j - n - 1]);
        assert(digit_value(y[j - n - 1], 16) is Some);
    }
    lemma_find_char_at(s, sep, n + 1, s.len() as int);
    assert(s.subrange(0, n) =~= x);
    assert(s.subrange(n + 1, s.len() as int) =~= y);
}

/// A maps line in the kernel's format reads back as its fields: when its
/// whitespace-separated fields are `start-end`, the permissions, the
/// offset, `major:minor` (all hexadecimal, any number of digits, leading
/// zeros allowed) and the inode in decimal, the line parses to exactly
/// those numbers, the permissions' letters and the path if there is one.
pub proof fn lemma_maps_line_fields(
    line: Seq<char>,
    start: u64,
    end: u64,
    offset: u64,
    major: u64,
    minor: u64,
    inode: u64,
    k: Seq<nat>,
)
    requires
        k.len() == 6,
        forall|i: int| 0 <= i < 6 ==> 1 <= #[trigger] k[i],
        start < pow16(k[0]),
        end < pow16(k[1]),
        offset < pow16(k[2]),
        major < pow16(k[3]),
        minor < pow16(k[4]),
        inode < radix_pow(10, k[5]),
        split_whitespace(line).len() >= 5,
        split_whitespace(line)[0] == hex_digits(start as nat, k[0]) + seq!['-'] + hex_digits(end as nat, k[1]),
        split_whitespace(line)[2] == hex_digits(offset as nat, k[2]),
        split_whitespace(line)[3] == hex_digits(major as nat, k[3]) + seq![':'] + hex_digits(minor as nat, k[4]),
        split_whitespace(line)[4] == radix_digits(inode as nat, k[5], 10),
    ensures
        ({
            let parts = split_whitespace(line);
            &&& parse_memmap(line) is Ok
            &&& parse_memmap(line)->Ok_0.address == (start, end)
            &&& parse_memmap(line)->Ok_0.offset == offset
            &&& parse_memmap(line)->Ok_0.device == (major, minor)
            &&& parse_memmap(line)->Ok_0.inode == inode
            &&& parse_memmap(line)->Ok_0.readable == parts[1].contains('r')
            &&& parse_memmap(line)->Ok_0.writable == parts[1].contains('w')
            &&& parse_memmap(line)->Ok_0.executable == parts[1].contains('x')
            &&& parse_memmap(line)->Ok_0.shared == parts[1].contains('s')
            &&& parse_memmap(line)->Ok_0.private == parts[1].contains('p')
            &&& parse_memmap(line)->Ok_0.pathname == (if parts.len() >= 6 { Some(parts[5]) } else { None })
        }),
{
    assert(1 <= k[0] && 1 <= k[1] && 1 <= k[2] && 1 <= k[3] && 1 <= k[4] && 1 <= k[5]);
    lemma_pair_round_trip(start, k[0], end, k[1], '-');
    lemma_parse_hex_round_trip(offset, k[2]);
    lemma_pair_round_trip(major, k[3], minor, k[4], ':');
    lemma_parse_round_trip(inode, k[5], 10);
}

/// A parse result as plain values.
pub open spec fn result_view(r: Result<MemMap, MapsError>) -> Result<MemMapView, MapsError> {
    match r {
        Ok(m) => Ok(m@),
        Err(e) => Err(e),
    }
}

fn find_char_from(s: &Vec<char>, c: char, i: usize) -> (r: usize)
    requires
        i <= s@.len(),
    ensures
        r == find_char(s@, c, i as int),
    decreases s@.len() - i,
{
    let mut j = i;
    while j < s.len()
        invariant
            i <= j <= s@.len(),
            find_char(s@, c, j as int) == find_char(s@, c, i as int),
        decreases s@.len() - j,
    {
        if s[j] == c {
            return j;
        }
        j += 1;
    }
    j
}

fn contains_char(s: &Vec<char>, c: char) -> (r: bool)
    ensures
        r == s@.contains(c),
{
    let mut j: usize = 0;
    while j < s.len()
        invariant
            j <= s@.len(),
            forall|k: int| 0 <= k < j ==> s@[k] != c,
        decreases s@.len() - j,
    {
        if s[j] == c {
            assert(s@[j as int] == c);
            return true;
        }
        j += 1;
    }
    false
}

fn sub_chars(s: &Vec<char>, from: usize, to: usize) -> (r: Vec<char>)
    requires
        from <= to <= s@.len(),
    ensures
        r@ == s@.subrange(from as int, to as int),
{
    let mut out: Vec<char> = Vec::new();
    let mut j = from;
    while j < to
        invariant
            from <= j <= to <= s@.len(),
            out@ == s@.subrange(from as int, j as int),
        decreases to - j,
    {
        out.push(s[j]);
        j += 1;
        assert(s@.subrange(from as int, j as int) == s@.subrange(from as int, j - 1).push(s@[j - 1]));
    }
    out
}

fn parse_number(s: &Vec<char>, radix: u32) -> (r: Result<u64, MapsError>)
    requires
        2 <= radix <= 36,
    ensures
        r == parse_field(s@, radix),
{
    match parse_u64_radix(s.as_slice(), radix) {
        Ok(v) => Ok(v),
        Err(k) => Err(MapsError::FailedToParse(k)),
    }
}

fn parse_number_pair(s: &Vec<char>, sep: char) -> (r: Result<(u64, u64), MapsError>)
    ensures
        r == parse_pair(s@, sep),
{
    let p = find_char_from(s, sep, 0);
    proof {
        lemma_find_char_bound(s@, sep, 0);
    }
    let first = sub_chars(s, 0, p);
    let a = parse_number(&first, 16)?;
    if p >= s.len() {
        return Err(MapsError::ParseError);
    }
    let q = find_char_from(s, sep, p + 1);
    proof {
        lemma_find_char_bound(s@, sep, p + 1);
    }
    let second = sub_chars(s, p + 1, q);
    let b = parse_number(&second, 16)?;
    Ok((a, b))
}

proof fn lemma_find_char_bound(s: Seq<char>, c: char, i: int)
    requires
        0 <= i <= s.len(),
    ensures
        i <= find_char(s, c, i) <= s.len(),
    decreases s.len() - i,
{
    if i < s.len() && s[i] != c {
        lemma_find_char_bound(s, c, i + 1);
    }
}

fn copy_string(s: &Vec<char>) -> (r: String)
    ensures
        r@ == s@,
{
    let mut out = String::new();
    let mut j: usize = 0;
    while j < s.len()
        invariant
            j <= s@.len(),
            out@ == s@.subrange(0, j as int),
        decreases s@.len() - j,
    {
        crate::text::push_char(&mut out, s[j]);
        j += 1;
        assert(s@.subrange(0, j as int) == s@.subrange(0, j - 1).push(s@[j - 1]));
    }
    assert(s@.subrange(0, s@.len() as int) == s@);
    out
}

/// Parses one maps line given as characters.
pub fn parse_line(line: &Vec<char>) -> (r: Result<MemMap, MapsError>)
    ensures
        result_view(r) == parse_memmap(line@),
{
    let parts = split_whitespace_of(line);
    if parts.len() >= 5 {
        let address = parse_number_pair(&parts[0], '-')?;
        let readable = contains_char(&parts[1], 'r');
        let writable = contains_char(&parts[1], 'w');
        let executable = contains_char(&parts[1], 'x');
        let shared = contains_char(&parts[1], 's');
        let private = contains_char(&parts[1], 'p');
        let offset = parse_number(&parts[2], 16)?;
        let device = parse_number_pair(&parts[3], ':')?;
        let inode = parse_number(&parts[4], 10)?;
        let pathname = if parts.len() >= 6 {
            Some(copy_string(&parts[5]))
        } else {
            None
        };
        let m = MemMap {
            address,
            _readable: readable,
            _writable: writable,
            executable,
            _shared: shared,
            _private: private,
            _offset: offset,
            _device: device,
            _inode: inode,
            _pathname: pathname,
        };
        return Ok(m);
    }
    Err(MapsError::ParseError)
}

} // verus!

verus! {

impl<'a> TryFrom<&'a str> for MemMap {
    type Error = MapsError;

    fn try_from(value: &'a str) -> (r: Result<Self, Self::Error>)
        ensures
            result_view(r) == parse_memmap(value@),
    {
        parse_line(&chars_of(value))
    }
}

/// `try_from` states its result through views, since a `MemMap` holds a
/// `String`; no spec-level value of the conversion is claimed here.
impl<'a> vstd::std_specs::convert::TryFromSpecImpl<&'a str> for MemMap {
    open spec fn obeys_try_from_spec() -> bool {
        false
    }

    open spec fn try_from_spec(v: &'a str) -> Result<Self, Self::Error> {
        Err(MapsError::ParseError)
    }
}

/// The start of the first executable mapping among `lines`.
pub open spec fn exec_base_of(lines: Seq<Seq<char>>) -> Result<u64, MapsError>
    decreases lines.len(),
{
    if lines.len() == 0 {
        Err(MapsError::NotFound)
    } else {
        match parse_memmap(lines[0]) {
            Ok(m) if m.executable => Ok(m.address.0),
            _ => exec_base_of(lines.drop_first()),
        }
    }
}

/// The base address of the first executable mapping in the text of a maps
/// file; lines that do not parse are skipped.
pub fn get_exec_base(buf: &str) -> (r: Result<u64, MapsError>)
    ensures
        r == exec_base_of(split_lines(buf@)),
{
    let lines = lines_of(buf);
    let n = lines.len();
    let ghost all = split_lines(buf@);
    let mut i: usize = 0;
    assert(all.subrange(0, n as int) == all);
    while i < n
        invariant
            n == lines@.len(),
            n == all.len(),
            all == split_lines(buf@),
            forall|k: int| 0 <= k < n ==> #[trigger] lines@[k]@ == all[k],
            i <= n,
            exec_base_of(all.subrange(i as int, n as int)) == exec_base_of(all),
        decreases n - i,
    {
        let ghost rest = all.subrange(i as int, n as int);
        assert(rest[0] == all[i as int]);
        assert(rest.drop_first() == all.subrange(i + 1, n as int));
        if let Ok(m) = parse_line(&lines[i]) {
            if m.executable {
                return Ok(m.address.0);
            }
        }
        i += 1;
    }
    Err(MapsError::NotFound)
}

/// The start of the first executable mapping of `ms`.
pub open spec fn first_exec_start(ms: Seq<MemMap>) -> Option<u64>
    decreases ms.len(),
{
    if ms.len() == 0 {
        None
    } else if ms[0].executable {
        Some(ms[0].address.0)
    } else {
        first_exec_start(ms.drop_first())
    }
}

/// The start of the first executable mapping, where the image's code is
/// loaded.
pub fn exec_start(maps: &Vec<MemMap>) -> (r: Option<u64>)
    ensures
        r == first_exec_start(maps@),
{
    let mut i: usize = 0;
    assert(maps@.subrange(0, maps@.len() as int) == maps@);
    while i < maps.len()
        invariant
            i <= maps@.len(),
            first_exec_start(maps@.subrange(i as int, maps@.len() as int)) == first_exec_start(maps@),
        decreases maps@.len() - i,
    {
        let ghost rest = maps@.subrange(i as int, maps@.len() as int);
        assert(rest[0] == maps@[i as int]);
        assert(rest.drop_first() == maps@.subrange(i + 1, maps@.len() as int));
        if maps[i].executable {
            return Some(maps[i].address.0);
        }
        i += 1;
    }
    assert(maps@.subrange(i as int, maps@.len() as int) == Seq::<MemMap>::empty());
    None
}

/// The address ranges of the mappings, in order.
pub fn map_ranges(maps: &Vec<MemMap>) -> (r: Vec<(u64, u64)>)
    ensures
        r@.len() == maps@.len(),
        forall|k: int| 0 <= k < r@.len() ==> #[trigger] r@[k] == maps@[k].address,
{
    let mut out: Vec<(u64, u64)> = Vec::new();
    let mut i: usize = 0;
    while i < maps.len()
        invariant
            i <= maps@.len(),
            out@.len() == i,
            forall|k: int| 0 <= k < i ==> #[trigger] out@[k] == maps@[k].address,
        decreases maps@.len() - i,
    {
        out.push(maps[i].address);
        i += 1;
    }
    out
}

/// The mappings among `lines` that parse, in order.
pub open spec fn parsed_maps(lines: Seq<Seq<char>>) -> Seq<MemMapView>
    decreases lines.len(),
{
    if lines.len() == 0 {
        Seq::empty()
    } else {
        match parse_memmap(lines[0]) {
            Ok(m) => seq![m] + parsed_maps(lines.drop_first()),
            Err(_) => parsed_maps(lines.drop_first()),
        }
    }
}

/// The mappings of the text of a maps file that parse, in order; the others
/// are skipped.
pub fn parse_maps(text: &str) -> (r: Vec<MemMap>)
    ensures
        r@.len() == parsed_maps(split_lines(text@)).len(),
        forall|k: int| 0 <= k < r@.len() ==> #[trigger] r@[k]@ == parsed_maps(split_lines(text@))[k],
{
    let lines = lines_of(text);
    let n = lines.len();
    let ghost all = split_lines(text@);
    let ghost mut got: Seq<MemMapView> = Seq::empty();
    let mut out: Vec<MemMap> = Vec::new();
    let mut i: usize = 0;
    assert(all.subrange(0, n as int) == all);
    while i < n
        invariant
            n == lines@.len(),
            n == all.len(),
            forall|k: int| 0 <= k < n ==> #[trigger] lines@[k]@ == all[k],
            i <= n,
            out@.len() == got.len(),
            forall|k: int| 0 <= k < out@.len() ==> #[trigger] out@[k]@ == got[k],
            got + parsed_maps(all.subrange(i as int, n as int)) == parsed_maps(all),
        decreases n - i,
    {
        let ghost rest = all.subrange(i as int, n as int);
        assert(rest[0] == all[i as int]);
        assert(rest.drop_first() == all.subrange(i + 1, n as int));
        match parse_line(&lines[i]) {
            Ok(m) => {
                proof {
                    assert(got + parsed_maps(rest) == got.push(m@) + parsed_maps(rest.drop_first()));
                    got = got.push(m@);
                }
                out.push(m);
            },
            Err(_) => {},
        }
        i += 1;
    }
    assert(all.subrange(n as int, n as int) == Seq::<Seq<char>>::empty());
    assert(got == parsed_maps(all));
    out
}

} // verus!

verus! {

/// The page size used to align trampoline regions.
pub const PAGE_SIZE: u64 = 0x1000;

/// The first index at or after `i` whose region starts after `key`, or the length.
pub open spec fn insert_pos(s: Seq<(u64, u64)>, key: u64, i: int) -> int
    decreases s.len() - i,
{
    if i < 0 || i >= s.len() {
        s.len() as int
    } else if s[i].0 > key {
        i
    } else {
        insert_pos(s, key, i + 1)
    }
}

/// `s` with `x` inserted after every region starting no later than it.
pub open spec fn insert_sorted(s: Seq<(u64, u64)>, x: (u64, u64)) -> Seq<(u64, u64)> {
    let p = insert_pos(s, x.0, 0);
    s.subrange(0, p) + seq![x] + s.subrange(p, s.len() as int)
}

/// The first `n` regions of `s`, stably sorted by start address.
pub open spec fn sort_prefix(s: Seq<(u64, u64)>, n: int) -> Seq<(u64, u64)>
    decreases n,
{
    if n <= 0 || n > s.len() {
        Seq::empty()
    } else {
        insert_sorted(sort_prefix(s, n - 1), s[n - 1])
    }
}

/// `s` stably sorted by start address.
pub open spec fn sort_by_start(s: Seq<(u64, u64)>) -> Seq<(u64, u64)> {
    sort_prefix(s, s.len() as int)
}

/// The regions are in order of start address.
pub open spec fn sorted_by_start(s: Seq<(u64, u64)>) -> bool {
    forall|a: int, b: int| 0 <= a <= b < s.len() ==> s[a].0 <= s[b].0
}

/// `x` rounded up to a multiple of the page size.
pub open spec fn align_up(x: int) -> int {
    ((x + 0xfff) / 0x1000) * 0x1000
}

/// The candidate after scanning the sorted regions `rs` from `i`: it moves
/// past each region that the candidate region would overlap, and stops at the
/// first region that starts after it.
pub open spec fn scan_regions(rs: Seq<(u64, u64)>, i: int, cand: int, size: u64) -> int
    decreases rs.len() - i,
{
    if i < 0 || i >= rs.len() {
        cand
    } else if cand + size <= rs[i].0 {
        cand
    } else {
        scan_regions(rs, i + 1, if rs[i].1 > cand { align_up(rs[i].1 as int) } else { cand }, size)
    }
}

/// The scan stays within `u64`.
pub open spec fn scan_fits(rs: Seq<(u64, u64)>, i: int, cand: int, size: u64) -> bool
    decreases rs.len() - i,
{
    &&& cand + size <= u64::MAX
    &&& (i < 0 || i >= rs.len() || cand + size <= rs[i].0 || {
        &&& (rs[i].1 > cand ==> rs[i].1 + 0xfff <= u64::MAX)
        &&& scan_fits(rs, i + 1, if rs[i].1 > cand { align_up(rs[i].1 as int) } else { cand }, size)
    })
}

/// `find_free_region` stays within `u64` on these arguments.
pub open spec fn free_region_fits(regions: Seq<(u64, u64)>, hint_addr: u64, size: u64) -> bool {
    &&& hint_addr + 0xfff <= u64::MAX
    &&& scan_fits(sort_by_start(regions), 0, align_up(hint_addr as int), size)
}

/// The start of the region `find_free_region` picks.
pub open spec fn free_region_start(regions: Seq<(u64, u64)>, hint_addr: u64, size: u64) -> int {
    scan_regions(sort_by_start(regions), 0, align_up(hint_addr as int), size)
}

proof fn lemma_align(x: u64)
    by (bit_vector)
    requires
        x + 0xfff <= 0xffff_ffff_ffff_ffff,
    ensures
        ((x + 0xfff) as u64) & !0xfffu64 == (((x + 0xfff) / 0x1000) * 0x1000) as u64,
        ((x + 0xfff) / 0x1000) * 0x1000 <= 0xffff_ffff_ffff_ffff,
{
}

fn insert_position(s: &Vec<(u64, u64)>, key: u64) -> (r: usize)
    ensures
        r == insert_pos(s@, key, 0),
{
    let mut j: usize = 0;
    while j < s.len()
        invariant
            j <= s@.len(),
            insert_pos(s@, key, j as int) == insert_pos(s@, key, 0),
        decreases s@.len() - j,
    {
        if s[j].0 > key {
            return j;
        }
        j += 1;
    }
    j
}

proof fn lemma_insert_pos_bound(s: Seq<(u64, u64)>, key: u64, i: int)
    requires
        0 <= i <= s.len(),
    ensures
        i <= insert_pos(s, key, i) <= s.len(),
    decreases s.len() - i,
{
    if i < s.len() && s[i].0 <= key {
        lemma_insert_pos_bound(s, key, i + 1);
    }
}

/// Sorts the regions by start address, keeping regions with equal starts in
/// their order.
fn sort_regions_by_start(regions: &mut Vec<(u64, u64)>)
    ensures
        final(regions)@ == sort_by_start(old(regions)@),
{
    let mut sorted: Vec<(u64, u64)> = Vec::new();
    let n = regions.len();
    let mut i: usize = 0;
    while i < n
        invariant
            n == regions@.len(),
            i <= n,
            sorted@ == sort_prefix(regions@, i as int),
            sorted@.len() == i,
        decreases n - i,
    {
        let x = regions[i];
        let p = insert_position(&sorted, x.0);
        proof {
            lemma_insert_pos_bound(sorted@, x.0, 0);
        }
        sorted.insert(p, x);
        assert(sorted@ =~= insert_sorted(sort_prefix(regions@, i as int), x));
        i += 1;
    }
    *regions = sorted;
}

/// Whether `find_free_region` can run on these arguments without leaving
/// `u64`.
pub fn free_region_available(regions: &Vec<(u64, u64)>, hint_addr: u64, size: u64) -> (r: bool)
    ensures
        r == free_region_fits(regions@, hint_addr, size),
{
    if hint_addr > u64::MAX - 0xfff {
        return false;
    }
    let mut rs: Vec<(u64, u64)> = Vec::new();
    let mut k: usize = 0;
    while k < regions.len()
        invariant
            k <= regions@.len(),
            rs@ == regions@.subrange(0, k as int),
        decreases regions@.len() - k,
    {
        rs.push(regions[k]);
        k += 1;
    }
    assert(rs@ == regions@);
    let ghost orig = rs@;
    sort_regions_by_start(&mut rs);
    let ghost srt = rs@;
    assert(srt == sort_by_start(regions@));
    proof {
        lemma_align(hint_addr);
    }
    let mut candidate = (hint_addr + 0xfff) & !0xfffu64;
    let n = rs.len();
    let mut i: usize = 0;
    while i < n
        invariant
            n == srt.len(),
            srt == rs@,
            srt == sort_by_start(regions@),
            hint_addr + 0xfff <= u64::MAX,
            i <= n,
            scan_fits(srt, i as int, candidate as int, size) == scan_fits(srt, 0, align_up(hint_addr as int), size),
        decreases n - i,
    {
        if candidate > u64::MAX - size {
            return false;
        }
        let (start, end) = rs[i];
        assert(srt[i as int].0 == start && srt[i as int].1 == end);
        if candidate + size <= start {
            return true;
        }
        if end > candidate {
            if end > u64::MAX - 0xfff {
                return false;
            }
            proof {
                lemma_align(end);
            }
            candidate = (end + 0xfff) & !0xfffu64;
        }
        i += 1;
    }
    candidate <= u64::MAX - size
}

/// Picks a page-aligned start at or above `hint_addr` for a region of `size`
/// bytes that overlaps none of `regions`, and records the new region. The
/// regions are left sorted by start address, the new one appended.
pub fn find_free_region(regions: &mut Vec<(u64, u64)>, hint_addr: u64, size: u64) -> (r: u64)
    requires
        free_region_fits(old(regions)@, hint_addr, size),
    ensures
        r == free_region_start(old(regions)@, hint_addr, size),
        final(regions)@ == sort_by_start(old(regions)@).push((r, (r + size) as u64)),
        sorted_by_start(final(regions)@.subrange(0, old(regions)@.len() as int)),
        final(regions)@.subrange(0, old(regions)@.len() as int).to_multiset() == old(regions)@.to_multiset(),
{
    proof {
        lemma_sort_by_start_sorted(old(regions)@);
        lemma_sort_by_start_contains(old(regions)@);
    }
    let page = 0x1000u64;
    sort_regions_by_start(regions);
    let ghost rs = regions@;
    proof {
        lemma_align(hint_addr);
    }
    let mut candidate = (hint_addr + (page - 1)) & !(page - 1);
    let n = regions.len();
    let mut i: usize = 0;
    while i < n
        invariant
            n == regions@.len(),
            rs == regions@,
            page == 0x1000,
            i <= n,
            scan_fits(rs, i as int, candidate as int, size),
            scan_regions(rs, i as int, candidate as int, size) == scan_regions(rs, 0, align_up(hint_addr as int), size),
        ensures
            candidate as int == scan_regions(rs, 0, align_up(hint_addr as int), size),
            candidate + size <= u64::MAX,
        decreases n - i,
    {
        let (start, end) = regions[i];
        assert(rs[i as int].0 == start && rs[i as int].1 == end);
        if candidate + size <= start {
            break;
        }
        if end > candidate {
            assert(end + 0xfff <= u64::MAX);
            proof {
                lemma_align(end);
            }
            candidate = (end + (page - 1)) & !(page - 1);
        }
        i += 1;
    }
    regions.push((candidate, candidate + size));
    assert(regions@.subrange(0, n as int) =~= rs);
    candidate
}

} // verus!

verus! {

proof fn lemma_insert_pos_props(s: Seq<(u64, u64)>, key: u64, i: int)
    requires
        0 <= i <= s.len(),
    ensures
        i <= insert_pos(s, key, i) <= s.len(),
        forall|k: int| i <= k < insert_pos(s, key, i) ==> s[k].0 <= key,
        insert_pos(s, key, i) < s.len() ==> s[insert_pos(s, key, i)].0 > key,
    decreases s.len() - i,
{
    if i < s.len() && s[i].0 <= key {
        lemma_insert_pos_props(s, key, i + 1);
    }
}

proof fn lemma_insert_sorted(s: Seq<(u64, u64)>, x: (u64, u64))
    requires
        sorted_by_start(s),
    ensures
        sorted_by_start(insert_sorted(s, x)),
        insert_sorted(s, x).len() == s.len() + 1,
        forall|y: (u64, u64)| #[trigger] insert_sorted(s, x).contains(y) <==> (s.contains(y) || y == x),
{
    let p = insert_pos(s, x.0, 0);
    lemma_insert_pos_props(s, x.0, 0);
    let t = insert_sorted(s, x);
    assert(t.len() == s.len() + 1);
    assert forall|k: int| 0 <= k < t.len() implies #[trigger] t[k] == (if k < p { s[k] } else if k == p { x } else { s[k - 1] }) by {}
    assert forall|a: int, b: int| 0 <= a <= b < t.len() implies t[a].0 <= t[b].0 by {
        if a < p && b > p {
            assert(s[a].0 <= x.0);
            assert(s[p].0 > x.0);
            assert(s[p].0 <= s[b - 1].0);
        } else if a == p && b > p {
            assert(s[p].0 <= s[b - 1].0);
        }
    }
    assert forall|y: (u64, u64)| #[trigger] t.contains(y) <==> (s.contains(y) || y == x) by {
        if t.contains(y) {
            let k = choose|k: int| 0 <= k < t.len() && t[k] == y;
            if k < p {
                assert(s[k] == y);
            } else if k > p {
                assert(s[k - 1] == y);
            }
        }
        if s.contains(y) {
            let k = choose|k: int| 0 <= k < s.len() && s[k] == y;
            if k < p {
                assert(t[k] == y);
            } else {
                assert(t[k + 1] == y);
            }
        }
        if y == x {
            assert(t[p] == y);
        }
    }
}

proof fn lemma_sort_prefix(s: Seq<(u64, u64)>, n: int)
    requires
        0 <= n <= s.len(),
    ensures
        sorted_by_start(sort_prefix(s, n)),
        sort_prefix(s, n).len() == n,
        forall|y: (u64, u64)| #[trigger] sort_prefix(s, n).contains(y) <==> s.subrange(0, n).contains(y),
    decreases n,
{
    if n > 0 {
        lemma_sort_prefix(s, n - 1);
        lemma_insert_sorted(sort_prefix(s, n - 1), s[n - 1]);
        assert forall|y: (u64, u64)| #[trigger] s.subrange(0, n).contains(y) <==> (s.subrange(0, n - 1).contains(y) || y == s[n - 1]) by {
            if s.subrange(0, n).contains(y) {
                let k = choose|k: int| 0 <= k < n && #[trigger] s.subrange(0, n)[k] == y;
                if k < n - 1 {
                    assert(s.subrange(0, n - 1)[k] == y);
                }
            }
            if s.subrange(0, n - 1).contains(y) {
                let k = choose|k: int| 0 <= k < n - 1 && #[trigger] s.subrange(0, n - 1)[k] == y;
                assert(s.subrange(0, n)[k] == y);
            }
            if y == s[n - 1] {
                assert(s.subrange(0, n)[n - 1] == y);
            }
        }
    } else {
        assert(s.subrange(0, 0) =~= Seq::<(u64, u64)>::empty());
    }
}

proof fn lemma_scan(rs: Seq<(u64, u64)>, i: int, cand: int, size: u64)
    requires
        sorted_by_start(rs),
        0 <= i <= rs.len(),
        cand % 0x1000 == 0,
        forall|j: int| 0 <= j < i ==> rs[j].1 <= cand,
    ensures
        scan_regions(rs, i, cand, size) >= cand,
        scan_regions(rs, i, cand, size) % 0x1000 == 0,
        forall|j: int| 0 <= j < rs.len() ==> scan_regions(rs, i, cand, size) + size <= #[trigger] rs[j].0
            || rs[j].1 <= scan_regions(rs, i, cand, size),
    decreases rs.len() - i,
{
    if i < rs.len() && cand + size > rs[i].0 {
        let next = if rs[i].1 > cand { align_up(rs[i].1 as int) } else { cand };
        assert(align_up(rs[i].1 as int) >= rs[i].1) by (nonlinear_arith)
            requires rs[i].1 >= 0;
        assert(align_up(rs[i].1 as int) % 0x1000 == 0) by (nonlinear_arith);
        lemma_scan(rs, i + 1, next, size);
    }
}

/// A region picked by `find_free_region` is page aligned, starts at or above
/// the hint, and overlaps none of the regions it was given.
pub proof fn lemma_free_region_disjoint(regions: Seq<(u64, u64)>, hint_addr: u64, size: u64)
    ensures
        free_region_start(regions, hint_addr, size) >= hint_addr,
        free_region_start(regions, hint_addr, size) % 0x1000 == 0,
        forall|r: (u64, u64)| #[trigger] regions.contains(r) ==> free_region_start(regions, hint_addr, size) + size <= r.0
            || r.1 <= free_region_start(regions, hint_addr, size),
{
    let rs = sort_by_start(regions);
    lemma_sort_prefix(regions, regions.len() as int);
    assert(regions.subrange(0, regions.len() as int) == regions);
    assert(align_up(hint_addr as int) >= hint_addr) by (nonlinear_arith);
    assert(align_up(hint_addr as int) % 0x1000 == 0) by (nonlinear_arith);
    lemma_scan(rs, 0, align_up(hint_addr as int), size);
    assert forall|r: (u64, u64)| #[trigger] regions.contains(r) implies free_region_start(regions, hint_addr, size) + size <= r.0
        || r.1 <= free_region_start(regions, hint_addr, size) by {
        assert(rs.contains(r));
        let j = choose|j: int| 0 <= j < rs.len() && rs[j] == r;
        assert(rs[j] == r);
    }
}

/// Sorting the regions keeps exactly the same regions.
pub proof fn lemma_sort_by_start_contains(s: Seq<(u64, u64)>)
    ensures
        sort_by_start(s).len() == s.len(),
        forall|y: (u64, u64)| #[trigger] sort_by_start(s).contains(y) <==> s.contains(y),
{
    lemma_sort_prefix(s, s.len() as int);
    assert(s.subrange(0, s.len() as int) == s);
}

proof fn lemma_sort_prefix_multiset(s: Seq<(u64, u64)>, n: int)
    requires
        0 <= n <= s.len(),
    ensures
        sort_prefix(s, n).to_multiset() == s.subrange(0, n).to_multiset(),
    decreases n,
{
    broadcast use vstd::seq_lib::to_multiset_insert, vstd::seq_lib::group_to_multiset_ensures;

    if n > 0 {
        lemma_sort_prefix_multiset(s, n - 1);
        let t = sort_prefix(s, n - 1);
        let x = s[n - 1];
        let p = insert_pos(t, x.0, 0);
        lemma_insert_pos_props(t, x.0, 0);
        assert(insert_sorted(t, x) =~= t.insert(p, x));
        assert(s.subrange(0, n) =~= s.subrange(0, n - 1).push(x));
    } else {
        assert(s.subrange(0, 0) =~= Seq::<(u64, u64)>::empty());
    }
}

/// Sorting the regions by start address puts them in ascending order of
/// start, and keeps each region exactly as often as it occurs: the regions
/// that `find_free_region` keeps before the new one are its given regions in
/// ascending start order.
pub proof fn lemma_sort_by_start_sorted(s: Seq<(u64, u64)>)
    ensures
        sorted_by_start(sort_by_start(s)),
        sort_by_start(s).to_multiset() == s.to_multiset(),
{
    lemma_sort_prefix(s, s.len() as int);
    lemma_sort_prefix_multiset(s, s.len() as int);
    assert(s.subrange(0, s.len() as int) == s);
}

proof fn lemma_below_align_up(a: int, e: int)
    requires
        a % 0x1000 == 0,
        0 <= a < align_up(e),
        e >= 0,
    ensures
        a < e,
{
    assert(a < e) by (nonlinear_arith)
        requires
            a % 0x1000 == 0,
            0 <= a,
            a < ((e + 0xfff) / 0x1000) * 0x1000,
            e >= 0,
    {
        assert(a == (a / 0x1000) * 0x1000);
        assert(a / 0x1000 < (e + 0xfff) / 0x1000);
        assert(a / 0x1000 + 1 <= (e + 0xfff) / 0x1000);
        assert((e + 0xfff) / 0x1000 * 0x1000 <= e + 0xfff);
    }
}

proof fn lemma_scan_lowest(rs: Seq<(u64, u64)>, i: int, cand: int, size: u64, a: int)
    requires
        0 <= i,
        0 <= cand <= a < scan_regions(rs, i, cand, size),
        a % 0x1000 == 0,
    ensures
        exists|j: int| i <= j < rs.len() && a + size > (#[trigger] rs[j]).0 && rs[j].1 > a,
    decreases rs.len() - i,
{
    if i < rs.len() && cand + size > rs[i].0 {
        let next = if rs[i].1 > cand { align_up(rs[i].1 as int) } else { cand };
        if a < next {
            lemma_below_align_up(a, rs[i].1 as int);
            assert(a + size > rs[i].0 && rs[i].1 > a);
        } else {
            assert(next >= 0) by (nonlinear_arith)
                requires
                    next == cand || next == ((rs[i].1 + 0xfff) / 0x1000) * 0x1000,
                    cand >= 0,
                    rs[i].1 >= 0;
            lemma_scan_lowest(rs, i + 1, next, size, a);
            let j = choose|j: int| i + 1 <= j < rs.len() && a + size > (#[trigger] rs[j]).0 && rs[j].1 > a;
            assert(i <= j < rs.len() && a + size > rs[j].0 && rs[j].1 > a);
        }
    }
}

/// The region picked by `find_free_region` is the lowest fit: every
/// page-aligned start from the rounded-up hint up to the one picked would
/// give a region of `size` bytes that overlaps one of the given regions.
pub proof fn lemma_free_region_lowest(regions: Seq<(u64, u64)>, hint_addr: u64, size: u64, a: int)
    requires
        align_up(hint_addr as int) <= a < free_region_start(regions, hint_addr, size),
        a % 0x1000 == 0,
    ensures
        exists|r: (u64, u64)| #[trigger] regions.contains(r) && a + size > r.0 && r.1 > a,
{
    let rs = sort_by_start(regions);
    assert(align_up(hint_addr as int) >= 0) by (nonlinear_arith);
    lemma_scan_lowest(rs, 0, align_up(hint_addr as int), size, a);
    lemma_sort_by_start_contains(regions);
    let j = choose|j: int| 0 <= j < rs.len() && a + size > (#[trigger] rs[j]).0 && rs[j].1 > a;
    assert(rs.contains(rs[j]));
    assert(regions.contains(rs[j]));
}

proof fn lemma_scan_fits_bound(rs: Seq<(u64, u64)>, i: int, cand: int, size: u64)
    requires
        scan_fits(rs, i, cand, size),
    ensures
        scan_regions(rs, i, cand, size) + size <= u64::MAX,
    decreases rs.len() - i,
{
    if 0 <= i < rs.len() && cand + size > rs[i].0 {
        lemma_scan_fits_bound(rs, i + 1, if rs[i].1 > cand { align_up(rs[i].1 as int) } else { cand }, size);
    }
}

/// When `find_free_region` can run, the region it picks ends within `u64`.
pub proof fn lemma_free_region_end(regions: Seq<(u64, u64)>, hint_addr: u64, size: u64)
    requires
        free_region_fits(regions, hint_addr, size),
    ensures
        free_region_start(regions, hint_addr, size) + size <= u64::MAX,
{
    lemma_scan_fits_bound(sort_by_start(regions), 0, align_up(hint_addr as int), size);
}

} // verus!
