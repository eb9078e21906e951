use vstd::prelude::*;

use crate::error::PtraceError;
use crate::instruction::{high_half, join_halves, lemma_halves_join, low_half, words_of_i64s, Instructions};

verus! {

/// `SIGTRAP` on Linux.
pub const SIGTRAP: i32 = 5;

/// What `waitpid` reported of a traced process; signals are numbers.
#[derive(Debug, Clone, Copy, PartialEq, Eq)]
pub enum WaitStatus {
    Exited(i32, i32),
    Signaled(i32, i32, bool),
    Stopped(i32, i32),
    PtraceEvent(i32, i32, i32),
    PtraceSyscall(i32),
    Continued(i32),
    StillAlive,
}

/// A process the tracer is attached to and that is running; it holds the pid.
pub struct Attached(pub i32);

/// A traced process that is stopped, so that its memory and registers can be
/// read and written; it holds the pid.
pub struct Stopped(pub i32);

/// What to do after a `waitpid` status while waiting for the tracee to trap.
pub enum WaitStep {
    /// The tracee stopped with `SIGTRAP`.
    Trapped(Stopped),
    /// The tracee stopped with another signal: continue it, delivering the
    /// signal, and wait again.
    Forward(Attached, i32),
}

/// The outcome of one `waitpid` status while waiting for a `SIGTRAP`:
/// `Ok(Some(pid))` when trapped, `Ok(None)` when the signal must be forwarded.
pub open spec fn wait_outcome(pid: i32, status: WaitStatus) -> Result<Option<i32>, PtraceError> {
    match status {
        WaitStatus::PtraceEvent(_, sig, _) => if sig == SIGTRAP {
            Ok(Some(pid))
        } else {
            Err(PtraceError::WaitPIDUnexpectedStatus(status))
        },
        WaitStatus::Stopped(_, sig) => if sig == SIGTRAP {
            Ok(Some(pid))
        } else {
            Ok(None)
        },
        WaitStatus::Exited(_, _) => Err(PtraceError::ProgramExited),
        _ => Err(PtraceError::WaitPIDUnexpectedStatus(status)),
    }
}

impl Attached {
    /// Decides what a `waitpid` status means while the tracee is run until it
    /// traps: a `SIGTRAP` stop or ptrace event stops it, another stop signal
    /// is to be forwarded, an exit or any other status is an error.
    pub fn wait(self, status: WaitStatus) -> (r: Result<WaitStep, PtraceError>)
        ensures
            match r {
                Ok(WaitStep::Trapped(s)) => wait_outcome(self.0, status) == Ok::<Option<i32>, PtraceError>(
                    Some(s.0),
                ),
                Ok(WaitStep::Forward(a, sig)) => wait_outcome(self.0, status) == Ok::<
                    Option<i32>,
                    PtraceError,
                >(None) && a.0 == self.0 && (status matches WaitStatus::Stopped(_, s) && s == sig),
                Err(e) => wait_outcome(self.0, status) == Err::<Option<i32>, PtraceError>(e),
            },
    {
        match status {
            WaitStatus::PtraceEvent(_, sig, _) => {
                if sig == SIGTRAP {
                    Ok(WaitStep::Trapped(Stopped(self.0)))
                } else {
                    Err(PtraceError::WaitPIDUnexpectedStatus(status))
                }
            },
            WaitStatus::Stopped(_, sig) => {
                if sig == SIGTRAP {
                    Ok(WaitStep::Trapped(Stopped(self.0)))
                } else {
                    Ok(WaitStep::Forward(self, sig))
                }
            },
            WaitStatus::Exited(_, _) => Err(PtraceError::ProgramExited),
            _ => Err(PtraceError::WaitPIDUnexpectedStatus(status)),
        }
    }
}

/// The number of 64-bit memory words that `n` instructions occupy.
pub open spec fn word_count(n: int) -> int {
    (n + 1) / 2
}

/// The memory word `j` after writing `insts` over memory whose word `j` held
/// `old`: two instructions, or the last instruction with the old high half.
pub open spec fn packed_word(insts: Seq<u32>, j: int, old: i64) -> i64 {
    join_halves(insts[2 * j], if 2 * j + 1 < insts.len() { insts[2 * j + 1] } else { high_half(old) })
}

/// The memory words after writing `insts` over the words `old`.
pub open spec fn packed_words(insts: Seq<u32>, old: Seq<i64>) -> Seq<i64> {
    Seq::new(old.len(), |j: int| packed_word(insts, j, old[j]))
}

/// The write of instructions into a stopped tracee's memory, one 64-bit word
/// at a time: each word is read, kept, and written back with the new
/// instructions in it.
pub struct InstructionWrite {
    addr: u64,
    val: Instructions,
    saved: Vec<i64>,
}

impl InstructionWrite {
    /// The address written at.
    pub closed spec fn addr(&self) -> u64 {
        self.addr
    }

    /// The instructions being written.
    pub closed spec fn instructions(&self) -> Seq<u32> {
        self.val@
    }

    /// The words read so far, that is the memory's former contents.
    pub closed spec fn saved(&self) -> Seq<i64> {
        self.saved@
    }

    /// The addresses of all words stay within `u64`.
    pub closed spec fn wf(&self) -> bool {
        &&& self.saved@.len() <= word_count(self.val@.len() as int)
        &&& self.val@.len() > 0 ==> self.addr + 8 * (word_count(self.val@.len() as int) - 1) <= u64::MAX
    }

    /// The address of the next word to read and rewrite, or `None` when all
    /// are written.
    pub fn next_addr(&self) -> (r: Option<u64>)
        requires
            self.wf(),
        ensures
            r == (if self.saved().len() < word_count(self.instructions().len() as int) {
                Some((self.addr() + 8 * self.saved().len()) as u64)
            } else {
                None::<u64>
            }),
    {
        let len = self.val.len();
        let n = len / 2 + len % 2;
        assert(n == word_count(len as int));
        if self.saved.len() < n {
            Some(self.addr + (self.saved.len() as u64) * 8)
        } else {
            None
        }
    }

    /// Records the word `word` read at the next address, and returns the
    /// address and the word to write there.
    pub fn word_read(&mut self, word: i64) -> (r: (u64, i64))
        requires
            old(self).wf(),
            old(self).saved().len() < word_count(old(self).instructions().len() as int),
        ensures
            final(self).wf(),
            final(self).addr() == old(self).addr(),
            final(self).instructions() == old(self).instructions(),
            final(self).saved() == old(self).saved().push(word),
            r.0 == old(self).addr() + 8 * old(self).saved().len(),
            r.1 == packed_word(old(self).instructions(), old(self).saved().len() as int, word),
    {
        let i = self.saved.len();
        let len = self.val.len();
        assert(2 * i < len);
        let offset = (i as u64) * 8;
        let lo = self.val.get(i * 2).unwrap() as i64;
        let hi = match self.val.get(i * 2 + 1) {
            Some(h) => h as i64,
            None => (word >> 32) & 0xFFFFFFFF,
        };
        assert(0 <= hi <= 0xFFFF_FFFF) by {
            lemma_pack(0, 0, word);
        }
        proof {
            lemma_pack(lo as u32, hi as u32, word);
        }
        let new_word = (hi << 32) | (lo & 0xFFFFFFFF);
        self.saved.push(word);
        (self.addr + offset, new_word)
    }

    /// The instructions that were in memory before the write, two per word.
    pub fn finish(self) -> (r: Instructions)
        ensures
            r@ == words_of_i64s(self.saved()),
    {
        Instructions::from_words(self.saved)
    }
}

proof fn lemma_pack(lo: u32, hi: u32, word: i64)
    by (bit_vector)
    ensures
        (((hi as i64) << 32u64) | ((lo as i64) & 0xFFFFFFFFi64)) == (lo as u64 + hi as u64 * 0x1_0000_0000) as i64,
        ((word >> 32u64) & 0xFFFFFFFFi64) as u32 == ((word as u64) / 0x1_0000_0000) as u32,
        0 <= ((word >> 32u64) & 0xFFFFFFFFi64) <= 0xFFFFFFFFi64,
{
}

/// The write of whole 64-bit words into a stopped tracee's memory: each word
/// is read, kept, and replaced.
pub struct WordWrite {
    addr: u64,
    val: Vec<i64>,
    saved: Vec<i64>,
}

impl WordWrite {
    pub closed spec fn addr(&self) -> u64 {
        self.addr
    }

    /// The words being written.
    pub closed spec fn words(&self) -> Seq<i64> {
        self.val@
    }

    /// The words read so far.
    pub closed spec fn saved(&self) -> Seq<i64> {
        self.saved@
    }

    /// The addresses of all words stay within `u64`.
    pub closed spec fn wf(&self) -> bool {
        &&& self.saved@.len() <= self.val@.len()
        &&& self.val@.len() > 0 ==> self.addr + 8 * (self.val@.len() - 1) <= u64::MAX
    }

    /// The address of the next word to replace, or `None` when all are written.
    pub fn next_addr(&self) -> (r: Option<u64>)
        requires
            self.wf(),
        ensures
            r == (if self.saved().len() < self.words().len() {
                Some((self.addr() + 8 * self.saved().len()) as u64)
            } else {
                None::<u64>
            }),
    {
        if self.saved.len() < self.val.len() {
            Some(self.addr + (self.saved.len() as u64) * 8)
        } else {
            None
        }
    }

    /// Records the word `word` read at the next address, and returns the
    /// address and the word to write there.
    pub fn word_read(&mut self, word: i64) -> (r: (u64, i64))
        requires
            old(self).wf(),
            old(self).saved().len() < old(self).words().len(),
        ensures
            final(self).wf(),
            final(self).addr() == old(self).addr(),
            final(self).words() == old(self).words(),
            final(self).saved() == old(self).saved().push(word),
            r.0 == old(self).addr() + 8 * old(self).saved().len(),
            r.1 == old(self).words()[old(self).saved().len() as int],
    {
        let i = self.saved.len();
        let offset = (i as u64) * 8;
        let new_word = self.val[i];
        self.saved.push(word);
        (self.addr + offset, new_word)
    }

    /// The instructions that were in memory before the write, two per word.
    pub fn finish(self) -> (r: Instructions)
        ensures
            r@ == words_of_i64s(self.saved()),
    {
        Instructions::from_words(self.saved)
    }
}

impl Stopped {
    /// Starts writing `val` at `addr`: the returned write reads and rewrites
    /// one memory word per two instructions, keeping the other half of the
    /// last word when `val` is odd in length, and gives back what was there.
    pub fn write_instructions(&self, addr: u64, val: Instructions) -> (r: InstructionWrite)
        requires
            val@.len() > 0 ==> addr + 8 * (word_count(val@.len() as int) - 1) <= u64::MAX,
        ensures
            r.wf(),
            r.addr() == addr,
            r.instructions() == val@,
            r.saved() == Seq::<i64>::empty(),
    {
        InstructionWrite { addr, val, saved: Vec::new() }
    }

    /// Starts writing the words `val` at `addr`: the returned write replaces
    /// one memory word after another and gives back what was there.
    pub fn write(&self, addr: u64, val: &Vec<i64>) -> (r: WordWrite)
        requires
            val@.len() > 0 ==> addr + 8 * (val@.len() - 1) <= u64::MAX,
        ensures
            r.wf(),
            r.addr() == addr,
            r.words() == val@,
            r.saved() == Seq::<i64>::empty(),
    {
        let mut words: Vec<i64> = Vec::new();
        let mut i: usize = 0;
        while i < val.len()
            invariant
                i <= val@.len(),
                words@ == val@.subrange(0, i as int),
            decreases val@.len() - i,
        {
            words.push(val[i]);
            i += 1;
        }
        assert(words@ == val@);
        WordWrite { addr, val: words, saved: Vec::new() }
    }
}

/// The instruction words of a sequence of memory words, by position.
pub proof fn lemma_words_of_i64s_index(v: Seq<i64>)
    ensures
        words_of_i64s(v).len() == 2 * v.len(),
        forall|j: int| 0 <= j < v.len() ==> #[trigger] words_of_i64s(v)[2 * j] == low_half(v[j]) && words_of_i64s(
            v,
        )[2 * j + 1] == high_half(v[j]),
    decreases v.len(),
{
    if v.len() > 0 {
        lemma_words_of_i64s_index(v.drop_first());
        assert forall|j: int| 0 <= j < v.len() implies #[trigger] words_of_i64s(v)[2 * j] == low_half(v[j])
            && words_of_i64s(v)[2 * j + 1] == high_half(v[j]) by {
            if j > 0 {
                assert(v.drop_first()[j - 1] == v[j]);
                assert(words_of_i64s(v)[2 * j] == words_of_i64s(v.drop_first())[2 * (j - 1)]);
                assert(words_of_i64s(v)[2 * j + 1] == words_of_i64s(v.drop_first())[2 * (j - 1) + 1]);
            }
        }
    }
}

/// Writing back, at the same address, the instructions that a write of
/// `insts` saved restores every memory word that write changed.
pub proof fn lemma_restore_after_write(insts: Seq<u32>, old: Seq<i64>)
    requires
        old.len() == word_count(insts.len() as int),
    ensures
        packed_words(words_of_i64s(old), packed_words(insts, old)) == old,
{
    lemma_words_of_i64s_index(old);
    let w = words_of_i64s(old);
    let new = packed_words(insts, old);
    assert forall|j: int| 0 <= j < old.len() implies #[trigger] packed_words(w, new)[j] == old[j] by {
        assert(w[2 * j] == low_half(old[j]));
        assert(w[2 * j + 1] == high_half(old[j]));
        lemma_halves_join(old[j], 0, 0);
    }
    assert(packed_words(w, new) =~= old);
}

/// After a write of `insts`, memory holds `insts` from the address written
/// at.
pub proof fn lemma_write_then_read(insts: Seq<u32>, old: Seq<i64>)
    requires
        old.len() == word_count(insts.len() as int),
    ensures
        words_of_i64s(packed_words(insts, old)).subrange(0, insts.len() as int) == insts,
{
    let new = packed_words(insts, old);
    lemma_words_of_i64s_index(new);
    let w = words_of_i64s(new);
    assert forall|k: int| 0 <= k < insts.len() implies #[trigger] w[k] == insts[k] by {
        let j = k / 2;
        let lo = insts[2 * j];
        let hi = if 2 * j + 1 < insts.len() { insts[2 * j + 1] } else { high_half(old[j]) };
        lemma_halves_join(0, lo, hi);
        assert(0 <= j < new.len());
        assert(new[j] == join_halves(lo, hi));
        assert(w[2 * j] == low_half(new[j]) && w[2 * j + 1] == high_half(new[j]));
        if k % 2 == 0 {
            assert(k == 2 * j);
        } else {
            assert(k == 2 * j + 1);
        }
    }
    assert(w.subrange(0, insts.len() as int) =~= insts);
}

} // verus!
