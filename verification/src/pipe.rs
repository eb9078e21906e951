use vstd::prelude::*;

use crate::text::{chars_of, push_char};

verus! {

/// A named pipe through which trace data is handed on.
pub struct Pipe {
    path: String,
}

/// The decimal digit `d`.
pub open spec fn digit_char(d: int) -> char {
    (48 + d) as char
}

/// The decimal digits of `n`, most significant first.
pub open spec fn decimal_digits(n: nat) -> Seq<char>
    decreases n,
{
    if n < 10 {
        seq![digit_char(n as int)]
    } else {
        decimal_digits(n / 10).push(digit_char((n % 10) as int))
    }
}

/// `v` written in decimal, with a leading `-` when negative.
pub open spec fn decimal(v: int) -> Seq<char> {
    if v < 0 {
        seq!['-'] + decimal_digits((-v) as nat)
    } else {
        decimal_digits(v as nat)
    }
}

/// `s` with every `/` replaced by `_`.
pub open spec fn slashes_replaced(s: Seq<char>) -> Seq<char> {
    Seq::new(s.len(), |i: int| if s[i] == '/' { '_' } else { s[i] })
}

/// The name of the pipe of a symbol in a process: `<pid>_<symbol>_<suffix>.pipe`,
/// with slashes replaced so that the name is one path component.
pub open spec fn pipe_file_name(target_symbol: Seq<char>, pid: i32, suffix: Seq<char>) -> Seq<char> {
    decimal(pid as int) + seq!['_'] + slashes_replaced(target_symbol) + seq!['_'] + slashes_replaced(suffix)
        + seq!['.', 'p', 'i', 'p', 'e']
}

/// `dir` joined with the relative component `name`: a `/` is put between them
/// unless `dir` is empty or already ends with one.
pub open spec fn path_join(dir: Seq<char>, name: Seq<char>) -> Seq<char> {
    if dir.len() == 0 || dir.last() == '/' {
        dir + name
    } else {
        dir + seq!['/'] + name
    }
}

/// The path of the pipe of a symbol in a process, in the `tracer` directory
/// of the temporary directory `tmp_dir`.
pub open spec fn pipe_path(tmp_dir: Seq<char>, target_symbol: Seq<char>, pid: i32, suffix: Seq<char>) -> Seq<char> {
    path_join(path_join(tmp_dir, seq!['t', 'r', 'a', 'c', 'e', 'r']), pipe_file_name(target_symbol, pid, suffix))
}

fn push_decimal_digits(s: &mut String, n: u64)
    ensures
        final(s)@ == old(s)@ + decimal_digits(n as nat),
    decreases n,
{
    if n >= 10 {
        push_decimal_digits(s, n / 10);
    }
    let d = (n % 10) as u8;
    push_char(s, (48u8 + d) as char);
    assert(final(s)@ =~= old(s)@ + decimal_digits(n as nat));
}

fn push_str(s: &mut String, t: &str)
    ensures
        final(s)@ == old(s)@ + t@,
{
    let cs = chars_of(t);
    let mut i: usize = 0;
    while i < cs.len()
        invariant
            cs@ == t@,
            i <= cs@.len(),
            s@ == old(s)@ + t@.subrange(0, i as int),
        decreases cs@.len() - i,
    {
        push_char(s, cs[i]);
        i += 1;
        assert(t@.subrange(0, i as int) =~= t@.subrange(0, i - 1).push(t@[i - 1]));
    }
    assert(t@.subrange(0, cs@.len() as int) =~= t@);
}

fn push_replacing_slashes(s: &mut String, t: &str)
    ensures
        final(s)@ == old(s)@ + slashes_replaced(t@),
{
    let cs = chars_of(t);
    let mut i: usize = 0;
    while i < cs.len()
        invariant
            cs@ == t@,
            i <= cs@.len(),
            s@ == old(s)@ + slashes_replaced(t@.subrange(0, i as int)),
        decreases cs@.len() - i,
    {
        let c = if cs[i] == '/' { '_' } else { cs[i] };
        push_char(s, c);
        i += 1;
        assert(slashes_replaced(t@.subrange(0, i as int)) =~= slashes_replaced(t@.subrange(0, i - 1)).push(c));
    }
    assert(t@.subrange(0, cs@.len() as int) =~= t@);
}

fn push_path_separator(s: &mut String)
    ensures
        final(s)@ == (if old(s)@.len() == 0 || old(s)@.last() == '/' {
            old(s)@
        } else {
            old(s)@.push('/')
        }),
{
    let cs = chars_of(s.as_str());
    if cs.len() > 0 && cs[cs.len() - 1] != '/' {
        push_char(s, '/');
    }
}

impl Pipe {
    /// The path of the pipe of `target_symbol` in process `pid`, in the
    /// `tracer` directory of `tmp_dir`.
    pub fn path_for(tmp_dir: &str, target_symbol: &str, pid: i32, suffix: Option<&str>) -> (r: String)
        ensures
            r@ == pipe_path(
                tmp_dir@,
                target_symbol@,
                pid,
                match suffix {
                    Some(x) => x@,
                    None => Seq::<char>::empty(),
                },
            ),
    {
        let mut p = String::new();
        push_str(&mut p, tmp_dir);
        push_path_separator(&mut p);
        push_str(&mut p, "tracer");
        proof {
            reveal_strlit("tracer");
        }
        assert(p@ =~= path_join(tmp_dir@, seq!['t', 'r', 'a', 'c', 'e', 'r']));
        let ghost dir = p@;
        push_path_separator(&mut p);
        let ghost sep = p@;
        if pid < 0 {
            push_char(&mut p, '-');
        }
        let magnitude: u64 = if pid < 0 { (0 - (pid as i64)) as u64 } else { pid as u64 };
        push_decimal_digits(&mut p, magnitude);
        assert(p@ =~= sep + decimal(pid as int));
        push_char(&mut p, '_');
        push_replacing_slashes(&mut p, target_symbol);
        push_char(&mut p, '_');
        match suffix {
            Some(x) => push_replacing_slashes(&mut p, x),
            None => {
                assert(slashes_replaced(Seq::<char>::empty()) =~= Seq::<char>::empty());
            },
        }
        push_str(&mut p, ".pipe");
        proof {
            reveal_strlit(".pipe");
        }
        assert(p@ =~= pipe_path(
            tmp_dir@,
            target_symbol@,
            pid,
            match suffix {
                Some(x) => x@,
                None => Seq::<char>::empty(),
            },
        ));
        p
    }

    /// The pipe created at `path`.
    pub fn at(path: String) -> (r: Pipe)
        ensures
            r.path_view() == path@,
    {
        Pipe { path }
    }

    /// The path, as characters.
    pub closed spec fn path_view(&self) -> Seq<char> {
        self.path@
    }

    pub fn path(&self) -> (r: &str)
        ensures
            r@ == self.path_view(),
    {
        self.path.as_str()
    }
}

} // verus!
