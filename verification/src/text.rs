use vstd::prelude::*;

verus! {

/// The characters of `s`, in order.
pub fn chars_of(s: &str) -> (r: Vec<char>)
    ensures
        r@ == s@,
{
    let mut out: Vec<char> = Vec::new();
    for c in it: s.chars()
        invariant
            out@ == it.seq().take(it.index() as int),
    {
        out.push(c);
    }
    out
}

} // verus!

verus! {

/// Unicode White_Space, as `char::is_whitespace` tests it.
pub open spec fn is_whitespace(c: char) -> bool {
    ('\t' <= c && c <= '\r') || c == ' ' || c == '\u{85}' || c == '\u{a0}' || c == '\u{1680}'
        || ('\u{2000}' <= c && c <= '\u{200a}') || c == '\u{2028}' || c == '\u{2029}' || c == '\u{202f}'
        || c == '\u{205f}' || c == '\u{3000}'
}

pub fn char_is_whitespace(c: char) -> (r: bool)
    ensures
        r == is_whitespace(c),
{
    ('\t' <= c && c <= '\r') || c == ' ' || c == '\u{85}' || c == '\u{a0}' || c == '\u{1680}'
        || ('\u{2000}' <= c && c <= '\u{200a}') || c == '\u{2028}' || c == '\u{2029}' || c == '\u{202f}'
        || c == '\u{205f}' || c == '\u{3000}'
}

/// `acc` followed by `cur` if `cur` is a nonempty token.
pub open spec fn flush_token(acc: Seq<Seq<char>>, cur: Seq<char>) -> Seq<Seq<char>> {
    if cur.len() > 0 { acc.push(cur) } else { acc }
}

/// Splitting `s` from position `i`, with token `cur` in progress and the
/// tokens `acc` already complete.
pub open spec fn split_ws_from(s: Seq<char>, i: int, cur: Seq<char>, acc: Seq<Seq<char>>) -> Seq<Seq<char>>
    decreases s.len() - i,
{
    if i < 0 || i >= s.len() {
        flush_token(acc, cur)
    } else if is_whitespace(s[i]) {
        split_ws_from(s, i + 1, Seq::empty(), flush_token(acc, cur))
    } else {
        split_ws_from(s, i + 1, cur.push(s[i]), acc)
    }
}

/// The maximal runs of non-whitespace characters of `s`, in order
/// (`str::split_whitespace`).
pub open spec fn split_whitespace(s: Seq<char>) -> Seq<Seq<char>> {
    split_ws_from(s, 0, Seq::empty(), Seq::empty())
}

pub fn split_whitespace_of(s: &Vec<char>) -> (r: Vec<Vec<char>>)
    ensures
        r@.len() == split_whitespace(s@).len(),
        forall|k: int| 0 <= k < r@.len() ==> #[trigger] r@[k]@ == split_whitespace(s@)[k],
{
    let mut acc: Vec<Vec<char>> = Vec::new();
    let mut cur: Vec<char> = Vec::new();
    let ghost mut gacc: Seq<Seq<char>> = Seq::empty();
    let n = s.len();
    let mut i: usize = 0;
    while i < n
        invariant
            n == s@.len(),
            i <= n,
            acc@.len() == gacc.len(),
            forall|k: int| 0 <= k < acc@.len() ==> #[trigger] acc@[k]@ == gacc[k],
            split_ws_from(s@, i as int, cur@, gacc) == split_whitespace(s@),
        decreases n - i,
    {
        let c = s[i];
        if char_is_whitespace(c) {
            if cur.len() > 0 {
                proof {
                    gacc = gacc.push(cur@);
                }
                acc.push(cur);
            }
            cur = Vec::new();
        } else {
            cur.push(c);
        }
        i += 1;
    }
    if cur.len() > 0 {
        proof {
            gacc = gacc.push(cur@);
        }
        acc.push(cur);
    }
    acc
}

} // verus!

verus! {

/// Why a string is not an unsigned integer (the kinds of `ParseIntError` that
/// an unsigned parse can give).
#[derive(Debug, Clone, Copy, PartialEq, Eq)]
pub enum IntErrorKind {
    /// The string is empty.
    Empty,
    /// A character is not a digit of the radix (or a sign stands alone).
    InvalidDigit,
    /// The number does not fit.
    PosOverflow,
}

/// The value of `c` as a digit of `radix` (`char::to_digit`), for radix <= 36.
pub open spec fn digit_value(c: char, radix: u32) -> Option<u32> {
    let v: int = if '0' <= c && c <= '9' {
        c as int - '0' as int
    } else if 'a' <= c && c <= 'z' {
        c as int - 'a' as int + 10
    } else if 'A' <= c && c <= 'Z' {
        c as int - 'A' as int + 10
    } else {
        36
    };
    if v < radix { Some(v as u32) } else { None }
}

fn to_digit(c: char, radix: u32) -> (r: Option<u32>)
    requires
        2 <= radix <= 36,
    ensures
        r == digit_value(c, radix),
{
    let v: u32 = if '0' <= c && c <= '9' {
        (c as u32) - ('0' as u32)
    } else if 'a' <= c && c <= 'z' {
        (c as u32) - ('a' as u32) + 10
    } else if 'A' <= c && c <= 'Z' {
        (c as u32) - ('A' as u32) + 10
    } else {
        36
    };
    if v < radix { Some(v) } else { None }
}

/// Reading the digits `ds` after the value `acc`: the first non-digit is an
/// invalid digit, a value past `u64::MAX` an overflow.
pub open spec fn parse_digits(ds: Seq<char>, radix: u32, acc: int) -> Result<u64, IntErrorKind>
    decreases ds.len(),
{
    if ds.len() == 0 {
        Ok(acc as u64)
    } else {
        match digit_value(ds[0], radix) {
            None => Err(IntErrorKind::InvalidDigit),
            Some(d) => if acc * radix + d > u64::MAX {
                Err(IntErrorKind::PosOverflow)
            } else {
                parse_digits(ds.drop_first(), radix, acc * radix + d)
            },
        }
    }
}

/// `u64::from_str_radix(s, radix)`: an optional leading `+`, then at least one
/// digit.
pub open spec fn parse_radix(s: Seq<char>, radix: u32) -> Result<u64, IntErrorKind> {
    if s.len() == 0 {
        Err(IntErrorKind::Empty)
    } else if (s[0] == '+' || s[0] == '-') && s.len() == 1 {
        Err(IntErrorKind::InvalidDigit)
    } else if s[0] == '+' {
        parse_digits(s.drop_first(), radix, 0)
    } else {
        parse_digits(s, radix, 0)
    }
}

/// Parses the characters `s` as an unsigned integer in `radix`, as
/// `u64::from_str_radix` does.
pub fn parse_u64_radix(s: &[char], radix: u32) -> (r: Result<u64, IntErrorKind>)
    requires
        2 <= radix <= 36,
    ensures
        r == parse_radix(s@, radix),
{
    let n = s.len();
    if n == 0 {
        return Err(IntErrorKind::Empty);
    }
    if (s[0] == '+' || s[0] == '-') && n == 1 {
        return Err(IntErrorKind::InvalidDigit);
    }
    let start: usize = if s[0] == '+' { 1 } else { 0 };
    let ghost digits = s@.subrange(start as int, n as int);
    assert(start == 1 ==> digits == s@.drop_first());
    assert(start == 0 ==> digits == s@);
    let mut acc: u64 = 0;
    let mut i: usize = start;
    while i < n
        invariant
            n == s@.len(),
            start <= i <= n,
            2 <= radix <= 36,
            digits == s@.subrange(start as int, n as int),
            parse_radix(s@, radix) == parse_digits(digits, radix, 0),
            parse_digits(s@.subrange(i as int, n as int), radix, acc as int) == parse_digits(digits, radix, 0),
        decreases n - i,
    {
        let ghost rest = s@.subrange(i as int, n as int);
        assert(rest[0] == s@[i as int]);
        assert(rest.drop_first() == s@.subrange(i + 1, n as int));
        match to_digit(s[i], radix) {
            None => {
                return Err(IntErrorKind::InvalidDigit);
            },
            Some(d) => {
                match acc.checked_mul(radix as u64) {
                    None => {
                        assert(acc * radix + d > u64::MAX) by (nonlinear_arith)
                            requires acc * radix > u64::MAX, d >= 0;
                        return Err(IntErrorKind::PosOverflow);
                    },
                    Some(m) => {
                        match m.checked_add(d as u64) {
                            None => {
                                return Err(IntErrorKind::PosOverflow);
                            },
                            Some(v) => {
                                acc = v;
                            },
                        }
                    },
                }
            },
        }
        i += 1;
    }
    assert(s@.subrange(n as int, n as int) == Seq::<char>::empty());
    Ok(acc)
}

} // verus!

verus! {

/// Appends `c` to `s` (`String::push`).
#[verifier::external_body]
pub(crate) fn push_char(s: &mut String, c: char)
    ensures
        final(s)@ == old(s)@.push(c),
{
    s.push(c);
}

} // verus!

verus! {

/// The lines of `s` from position `i`, the current line so far being `cur`:
/// every `'\n'` ends a line.
pub open spec fn lines_from(s: Seq<char>, i: int, cur: Seq<char>) -> Seq<Seq<char>>
    decreases s.len() - i,
{
    if i < 0 || i >= s.len() {
        seq![cur]
    } else if s[i] == '\n' {
        seq![cur] + lines_from(s, i + 1, Seq::empty())
    } else {
        lines_from(s, i + 1, cur.push(s[i]))
    }
}

/// The pieces of `s` between newlines (a final empty piece included).
pub open spec fn split_lines(s: Seq<char>) -> Seq<Seq<char>> {
    lines_from(s, 0, Seq::empty())
}

/// Splits `s` at every newline.
pub fn lines_of(s: &str) -> (r: Vec<Vec<char>>)
    ensures
        r@.len() == split_lines(s@).len(),
        forall|k: int| 0 <= k < r@.len() ==> #[trigger] r@[k]@ == split_lines(s@)[k],
{
    let chars = chars_of(s);
    let mut acc: Vec<Vec<char>> = Vec::new();
    let mut cur: Vec<char> = Vec::new();
    let ghost mut gacc: Seq<Seq<char>> = Seq::empty();
    let n = chars.len();
    let mut i: usize = 0;
    while i < n
        invariant
            n == chars@.len(),
            chars@ == s@,
            i <= n,
            acc@.len() == gacc.len(),
            forall|k: int| 0 <= k < acc@.len() ==> #[trigger] acc@[k]@ == gacc[k],
            gacc + lines_from(chars@, i as int, cur@) == split_lines(chars@),
        decreases n - i,
    {
        let c = chars[i];
        if c == '\n' {
            proof {
                assert(gacc + lines_from(chars@, i as int, cur@) == gacc.push(cur@) + lines_from(chars@, i + 1, Seq::empty()));
                gacc = gacc.push(cur@);
            }
            acc.push(cur);
            cur = Vec::new();
        } else {
            cur.push(c);
        }
        i += 1;
    }
    proof {
        gacc = gacc.push(cur@);
    }
    acc.push(cur);
    acc
}

} // verus!

verus! {

/// Whether two strings hold the same characters.
pub fn str_eq(a: &str, b: &str) -> (r: bool)
    ensures
        r == (a@ == b@),
{
    let x = chars_of(a);
    let y = chars_of(b);
    if x.len() != y.len() {
        assert(x@.len() != y@.len());
        return false;
    }
    let mut i: usize = 0;
    while i < x.len()
        invariant
            x@ == a@,
            y@ == b@,
            x@.len() == y@.len(),
            i <= x@.len(),
            forall|k: int| 0 <= k < i ==> x@[k] == y@[k],
        decreases x@.len() - i,
    {
        if x[i] != y[i] {
            assert(x@[i as int] != y@[i as int]);
            return false;
        }
        i += 1;
    }
    assert(x@ =~= y@);
    true
}


/// The lowercase hexadecimal digit of value `d` (for `0 <= d < 16`).
pub open spec fn hex_char(d: int) -> char {
    if d == 0 {
        '0'
    } else if d == 1 {
        '1'
    } else if d == 2 {
        '2'
    } else if d == 3 {
        '3'
    } else if d == 4 {
        '4'
    } else if d == 5 {
        '5'
    } else if d == 6 {
        '6'
    } else if d == 7 {
        '7'
    } else if d == 8 {
        '8'
    } else if d == 9 {
        '9'
    } else if d == 10 {
        'a'
    } else if d == 11 {
        'b'
    } else if d == 12 {
        'c'
    } else if d == 13 {
        'd'
    } else if d == 14 {
        'e'
    } else {
        'f'
    }
}

/// `radix`^k.
pub open spec fn radix_pow(radix: nat, k: nat) -> nat
    decreases k,
{
    if k == 0 {
        1
    } else {
        radix * radix_pow(radix, (k - 1) as nat)
    }
}

/// 16^k.
pub open spec fn pow16(k: nat) -> nat {
    radix_pow(16, k)
}

/// `v` written with `k` digits of `radix` (at most 16), most significant
/// first, leading zeros included (the `k` lowest digits of `v`).
pub open spec fn radix_digits(v: nat, k: nat, radix: nat) -> Seq<char>
    decreases k,
{
    if k == 0 || radix == 0 {
        Seq::empty()
    } else {
        radix_digits(v / radix, (k - 1) as nat, radix).push(hex_char((v % radix) as int))
    }
}

/// `v` written with `k` lowercase hexadecimal digits.
pub open spec fn hex_digits(v: nat, k: nat) -> Seq<char> {
    radix_digits(v, k, 16)
}

proof fn lemma_hex_char(d: int)
    requires
        0 <= d < 16,
    ensures
        forall|radix: u32| d < radix <= 36 ==> #[trigger] digit_value(hex_char(d), radix) == Some(d as u32),
{
}

proof fn lemma_parse_digits_push(s: Seq<char>, c: char, radix: u32, acc: int, x: u64, d: u32)
    requires
        0 <= acc <= u64::MAX,
        parse_digits(s, radix, acc) == Ok::<u64, IntErrorKind>(x),
        digit_value(c, radix) == Some(d),
        x * radix + d <= u64::MAX,
    ensures
        parse_digits(s.push(c), radix, acc) == Ok::<u64, IntErrorKind>((x * radix + d) as u64),
    decreases s.len(),
{
    if s.len() == 0 {
        assert(x == acc);
        assert(s.push(c) =~= seq![c]);
        assert(seq![c].drop_first() =~= Seq::<char>::empty());
        reveal_with_fuel(parse_digits, 2);
        assert(parse_digits(seq![c], radix, acc) == parse_digits(Seq::<char>::empty(), radix, acc * radix + d));
    } else {
        let d0 = digit_value(s[0], radix)->0;
        assert(s.push(c)[0] == s[0]);
        assert(s.push(c).drop_first() =~= s.drop_first().push(c));
        lemma_parse_digits_push(s.drop_first(), c, radix, acc * radix + d0, x, d);
    }
}

/// Digits written by `radix_digits` are digits of the radix and read back as
/// the value.
pub proof fn lemma_radix_digits(v: nat, k: nat, radix: u32)
    requires
        2 <= radix <= 16,
        v < radix_pow(radix as nat, k),
        v <= u64::MAX,
    ensures
        radix_digits(v, k, radix as nat).len() == k,
        forall|i: int| 0 <= i < k ==> #[trigger] digit_value(radix_digits(v, k, radix as nat)[i], radix) is Some,
        parse_digits(radix_digits(v, k, radix as nat), radix, 0) == Ok::<u64, IntErrorKind>(v as u64),
    decreases k,
{
    let r = radix as nat;
    if k == 0 {
        assert(v == 0);
    } else {
        let q = v / r;
        let rem = v % r;
        let p = radix_pow(r, (k - 1) as nat);
        assert(q < p && q * r + rem == v && rem < r) by (nonlinear_arith)
            requires
                v < r * p,
                q == v / r,
                rem == v % r,
                r >= 2,
        ;
        lemma_radix_digits(q, (k - 1) as nat, radix);
        lemma_hex_char(rem as int);
        assert(digit_value(hex_char(rem as int), radix) == Some(rem as u32));
        lemma_parse_digits_push(radix_digits(q, (k - 1) as nat, r), hex_char(rem as int), radix, 0, q as u64, rem as u32);
        let s = radix_digits(v, k, r);
        assert forall|i: int| 0 <= i < k implies #[trigger] digit_value(s[i], radix) is Some by {
            if i < k - 1 {
                assert(s[i] == radix_digits(q, (k - 1) as nat, r)[i]);
            }
        }
    }
}

/// Reading `v` written with `k >= 1` digits of `radix` (at most 16) gives
/// back `v`, for every `v` that `k` digits can write.
pub proof fn lemma_parse_round_trip(v: u64, k: nat, radix: u32)
    requires
        2 <= radix <= 16,
        1 <= k,
        v < radix_pow(radix as nat, k),
    ensures
        parse_radix(radix_digits(v as nat, k, radix as nat), radix) == Ok::<u64, IntErrorKind>(v),
        forall|i: int| 0 <= i < k ==> #[trigger] digit_value(radix_digits(v as nat, k, radix as nat)[i], radix) is Some,
        radix_digits(v as nat, k, radix as nat).len() == k,
{
    lemma_radix_digits(v as nat, k, radix);
    let s = radix_digits(v as nat, k, radix as nat);
    assert(digit_value(s[0], radix) is Some);
    assert(digit_value('+', radix) is None);
    assert(digit_value('-', radix) is None);
}

/// Reading `v` written with `k >= 1` hexadecimal digits in radix 16 gives
/// back `v`, for every `v` that `k` digits can write.
pub proof fn lemma_parse_hex_round_trip(v: u64, k: nat)
    requires
        1 <= k,
        v < pow16(k),
    ensures
        parse_radix(hex_digits(v as nat, k), 16) == Ok::<u64, IntErrorKind>(v),
{
    lemma_parse_round_trip(v, k, 16);
}

} // verus!
