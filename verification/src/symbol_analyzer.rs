use vstd::prelude::*;

use crate::instruction::patch::RET;

verus! {

/// Where a function starts and where its `ret` instructions are.
pub struct FunctionAnalysis {
    pub entry_addr: u64,
    pub ret_addrs: Vec<u64>,
}

/// The little-endian 32-bit word in bytes `4i..4i+4` of `code`.
pub open spec fn code_word(code: Seq<u8>, i: int) -> int {
    code[4 * i] as int + code[4 * i + 1] as int * 0x100 + code[4 * i + 2] as int * 0x1_0000 + code[4 * i
        + 3] as int * 0x100_0000
}

/// The indices, among the first `n` whole words of `code`, of the words that
/// are `ret`, in increasing order.
pub open spec fn ret_indices(code: Seq<u8>, n: int) -> Seq<int>
    decreases n,
{
    if n <= 0 {
        Seq::empty()
    } else if code_word(code, n - 1) == RET as int {
        ret_indices(code, n - 1).push(n - 1)
    } else {
        ret_indices(code, n - 1)
    }
}

/// The indices of the whole words of `code` that are `ret` (a trailing
/// partial word is ignored).
pub open spec fn rets_of(code: Seq<u8>) -> Seq<int> {
    ret_indices(code, (code.len() / 4) as int)
}

proof fn lemma_le_word(b0: u8, b1: u8, b2: u8, b3: u8)
    by (bit_vector)
    ensures
        (b0 as u32 | (b1 as u32) << 8u32 | (b2 as u32) << 16u32 | (b3 as u32) << 24u32) as int == b0 as int
            + b1 as int * 0x100 + b2 as int * 0x1_0000 + b3 as int * 0x100_0000,
{
}

fn word_at(code: &[u8], i: usize) -> (r: u32)
    requires
        4 * i + 4 <= code@.len(),
    ensures
        r as int == code_word(code@, i as int),
{
    let len = code.len();
    assert(4 * i + 4 <= len);
    let k = 4 * i;
    proof {
        lemma_le_word(code[k as int], code[k + 1], code[k + 2], code[k + 3]);
    }
    code[k] as u32 | (code[k + 1] as u32) << 8 | (code[k + 2] as u32) << 16 | (code[k + 3] as u32) << 24
}

proof fn lemma_ret_indices_bound(code: Seq<u8>, n: int)
    requires
        n >= 0,
    ensures
        ret_indices(code, n).len() <= n,
        forall|k: int| 0 <= k < ret_indices(code, n).len() ==> 0 <= #[trigger] ret_indices(code, n)[k] < n,
    decreases n,
{
    if n > 0 {
        lemma_ret_indices_bound(code, n - 1);
    }
}

/// The number of `ret` instructions among the whole words of `code`.
pub fn count_ret_instructions(code: &[u8]) -> (r: usize)
    ensures
        r == rets_of(code@).len(),
{
    let n = code.len() / 4;
    let mut count: usize = 0;
    let mut i: usize = 0;
    while i < n
        invariant
            n == code@.len() / 4,
            i <= n,
            count == ret_indices(code@, i as int).len(),
            count <= i,
        decreases n - i,
    {
        if word_at(code, i) == RET {
            count += 1;
        }
        i += 1;
    }
    count
}

/// The buffers a function needs: one for its entry and one per `ret`.
pub fn count_buffers_needed(code: &[u8]) -> (r: usize)
    ensures
        r == 1 + rets_of(code@).len(),
{
    let len = code.len();
    proof {
        lemma_ret_indices_bound(code@, (code@.len() / 4) as int);
    }
    let count = count_ret_instructions(code);
    assert(count <= len / 4);
    1 + count
}

/// The addresses `analyze_function` computes stay within `u64`: the entry
/// `offset + exec_base`, and `exec_base + offset + 4 * i` for each `ret`
/// word `i`.
pub open spec fn analysis_fits(code: Seq<u8>, exec_base: u64, offset: u64) -> bool {
    &&& offset + exec_base <= u64::MAX
    &&& forall|k: int| 0 <= k < rets_of(code).len() ==> exec_base + offset + 4 * #[trigger] rets_of(code)[k] <= u64::MAX
}

/// The words below `m` that are `ret` come first among those below `n`.
proof fn lemma_ret_indices_prefix(code: Seq<u8>, m: int, n: int)
    requires
        0 <= m <= n,
    ensures
        ret_indices(code, m).len() <= ret_indices(code, n).len(),
        forall|k: int| 0 <= k < ret_indices(code, m).len() ==> #[trigger] ret_indices(code, m)[k] == ret_indices(code, n)[k],
    decreases n - m,
{
    if m < n {
        lemma_ret_indices_prefix(code, m, n - 1);
    }
}

/// Whether `analyze_function` can run on these arguments without leaving
/// `u64`.
pub fn analysis_available(code: &[u8], exec_base: u64, offset: u64) -> (r: bool)
    ensures
        r == analysis_fits(code@, exec_base, offset),
{
    if offset > u64::MAX - exec_base {
        return false;
    }
    let base = exec_base + offset;
    let n = code.len() / 4;
    let mut i: usize = 0;
    proof {
        lemma_ret_indices_bound(code@, n as int);
    }
    while i < n
        invariant
            n == code@.len() / 4,
            i <= n,
            base == exec_base + offset,
            forall|k: int| 0 <= k < ret_indices(code@, i as int).len() ==> base + 4 * #[trigger] ret_indices(code@, i as int)[k] <= u64::MAX,
        decreases n - i,
    {
        let ghost before = ret_indices(code@, i as int);
        if word_at(code, i) == RET {
            if i as u64 > (u64::MAX - base) / 4 {
                proof {
                    lemma_ret_indices_prefix(code@, i + 1, n as int);
                    let k = ret_indices(code@, i + 1).len() - 1;
                    assert(ret_indices(code@, i + 1)[k] == i);
                    assert(rets_of(code@)[k] == i);
                    assert(base + 4 * rets_of(code@)[k] > u64::MAX);
                }
                return false;
            }
        }
        i += 1;
    }
    proof {
        assert forall|k: int| 0 <= k < rets_of(code@).len() implies exec_base + offset + 4 * #[trigger] rets_of(code@)[k] <= u64::MAX by {
            assert(rets_of(code@)[k] == ret_indices(code@, n as int)[k]);
        }
    }
    true
}

/// Locates a function loaded at `exec_base` whose code, at file offset
/// `offset`, is `code`: its entry and the address of each `ret` word.
pub fn analyze_function(code: &[u8], exec_base: u64, offset: u64) -> (r: FunctionAnalysis)
    requires
        analysis_fits(code@, exec_base, offset),
    ensures
        r.entry_addr == offset + exec_base,
        r.ret_addrs@.len() == rets_of(code@).len(),
        forall|k: int| 0 <= k < r.ret_addrs@.len() ==> #[trigger] r.ret_addrs@[k] == exec_base + offset + 4
            * rets_of(code@)[k],
{
    let entry_addr = offset + exec_base;
    let n = code.len() / 4;
    let mut ret_addrs: Vec<u64> = Vec::new();
    let mut i: usize = 0;
    while i < n
        invariant
            n == code@.len() / 4,
            i <= n,
            analysis_fits(code@, exec_base, offset),
            ret_addrs@.len() == ret_indices(code@, i as int).len(),
            forall|k: int| 0 <= k < ret_addrs@.len() ==> #[trigger] ret_addrs@[k] == exec_base + offset + 4
                * ret_indices(code@, i as int)[k],
        decreases n - i,
    {
        if word_at(code, i) == RET {
            proof {
                lemma_ret_indices_prefix(code@, i + 1, n as int);
                let k = ret_indices(code@, i + 1).len() - 1;
                assert(ret_indices(code@, i + 1)[k] == i);
                assert(rets_of(code@)[k] == i);
            }
            ret_addrs.push(exec_base + offset + (i as u64 * 4));
        }
        i += 1;
    }
    FunctionAnalysis { entry_addr, ret_addrs }
}

} // verus!
