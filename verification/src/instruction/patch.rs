use vstd::prelude::*;

use super::{jump_to_abs, jump_words, Instructions, BR_X16, LDR_X16_LITERAL_8};
use super::encode::trunc_div;

verus! {

/// `b #0`: the opcode of an unconditional PC-relative branch.
pub const B_OPCODE: u32 = 0x1400_0000;

/// `ret`.
pub const RET: u32 = 0xd65f03c0;

/// How the first instructions at a patched address are redirected to its
/// trampoline.
#[derive(Debug, Clone, Copy)]
pub enum BranchStrategy {
    /// A single `b` instruction: the trampoline is within +-128 MiB.
    Branch { patch_addr: u64, trampoline_addr: u64 },
    /// An absolute jump through x16 that overwrites four instructions.
    JumpToAbs { patch_addr: u64, trampoline_addr: u64 },
}

/// The signed distance from `from` to `to`, both read as `i64`.
pub open spec fn signed_offset(from: u64, to: u64) -> int {
    (to as i64) as int - (from as i64) as int
}

/// The distance can be computed in `i64` without overflow.
pub open spec fn offset_fits(from: u64, to: u64) -> bool {
    i64::MIN <= signed_offset(from, to) <= i64::MAX
}

/// A `b` at `from` can reach `to`: the distance is a multiple of 4 whose
/// quotient fits a signed 26-bit immediate.
pub open spec fn branch_reachable(from: u64, to: u64) -> bool {
    let d = signed_offset(from, to);
    d % 4 == 0 && -0x800_0000 <= d < 0x800_0000
}

/// The strategy `BranchStrategy::new` picks.
pub open spec fn choose_strategy(patch_addr: u64, trampoline_addr: u64) -> BranchStrategy {
    if branch_reachable(patch_addr, trampoline_addr) {
        BranchStrategy::Branch { patch_addr, trampoline_addr }
    } else {
        BranchStrategy::JumpToAbs { patch_addr, trampoline_addr }
    }
}

/// The `b` word that `apply` emits for the distance `d`.
pub open spec fn branch_word(d: int) -> u32 {
    (B_OPCODE + trunc_div(d, 4) % 0x400_0000) as u32
}

/// Where a `b` word placed at `at` transfers control, modulo 2^64.
pub open spec fn branch_destination(at: u64, w: u32) -> int {
    let imm26 = (w % 0x400_0000) as int;
    let delta = if imm26 >= 0x200_0000 { imm26 - 0x400_0000 } else { imm26 };
    (at as int + 4 * delta) % 0x1_0000_0000_0000_0000
}

impl BranchStrategy {
    pub open spec fn spec_patch_addr(&self) -> u64 {
        match self {
            BranchStrategy::Branch { patch_addr, .. } => *patch_addr,
            BranchStrategy::JumpToAbs { patch_addr, .. } => *patch_addr,
        }
    }

    /// The words that `apply` writes at the patch address.
    pub open spec fn patch_words(&self) -> Seq<u32> {
        match self {
            BranchStrategy::Branch { patch_addr, trampoline_addr } => seq![
                branch_word(signed_offset(*patch_addr, *trampoline_addr)),
            ],
            BranchStrategy::JumpToAbs { trampoline_addr, .. } => jump_words(*trampoline_addr),
        }
    }

    /// `apply` does not overflow: a `Branch` holds a distance computable in `i64`.
    pub open spec fn applicable(&self) -> bool {
        match self {
            BranchStrategy::Branch { patch_addr, trampoline_addr } => offset_fits(
                *patch_addr,
                *trampoline_addr,
            ),
            BranchStrategy::JumpToAbs { .. } => true,
        }
    }

    /// The address the epilogue returns to after the relocated instructions.
    pub open spec fn resume_addr(&self, replaced_addr: u64) -> int {
        match self {
            BranchStrategy::Branch { patch_addr, .. } => *patch_addr + 4,
            BranchStrategy::JumpToAbs { .. } => replaced_addr + 16,
        }
    }

    /// `build_epilogue` does not overflow on these arguments.
    pub open spec fn epilogue_fits(&self, replaced_addr: u64, epilogue_addr: u64, insts: [u32; 4]) -> bool {
        match self {
            BranchStrategy::Branch { patch_addr, .. } => insts[0] != RET ==> {
                &&& epilogue_addr + 4 <= u64::MAX
                &&& *patch_addr + 4 <= u64::MAX
                &&& offset_fits((epilogue_addr + 4) as u64, (*patch_addr + 4) as u64)
            },
            BranchStrategy::JumpToAbs { .. } => replaced_addr + 16 <= u64::MAX,
        }
    }

    /// The epilogue appended to a trampoline: the overwritten instructions,
    /// then a jump back to the first instruction that was not overwritten. A
    /// `ret` replaced by a branch is simply re-executed.
    pub open spec fn epilogue_words(&self, replaced_addr: u64, epilogue_addr: u64, insts: [u32; 4]) -> Seq<u32> {
        match self {
            BranchStrategy::Branch { patch_addr, .. } => if insts[0] == RET {
                seq![RET]
            } else {
                seq![insts[0]] + choose_strategy((epilogue_addr + 4) as u64, (*patch_addr + 4) as u64).patch_words()
            },
            BranchStrategy::JumpToAbs { .. } => insts@ + jump_words((replaced_addr + 16) as u64),
        }
    }

    /// Chooses a one-instruction branch when the trampoline is reachable by
    /// `b`, an absolute jump otherwise.
    pub fn new(patch_addr: u64, trampoline_addr: u64) -> (r: Self)
        requires
            offset_fits(patch_addr, trampoline_addr),
        ensures
            r == choose_strategy(patch_addr, trampoline_addr),
    {
        let offset = (trampoline_addr as i64) - (patch_addr as i64);
        let offset_insns = offset / 4;
        if offset % 4 == 0 && -0x200_0000i64 <= offset_insns && offset_insns < 0x200_0000i64 {
            BranchStrategy::Branch { patch_addr, trampoline_addr }
        } else {
            BranchStrategy::JumpToAbs { patch_addr, trampoline_addr }
        }
    }

    pub fn patch_addr(&self) -> (r: u64)
        ensures
            r == self.spec_patch_addr(),
    {
        match self {
            BranchStrategy::Branch { patch_addr, .. } => *patch_addr,
            BranchStrategy::JumpToAbs { patch_addr, .. } => *patch_addr,
        }
    }

    /// The patch to write and the address to write it at.
    pub fn apply(&self) -> (r: (Instructions, u64))
        requires
            self.applicable(),
        ensures
            r.0@ == self.patch_words(),
            r.1 == self.spec_patch_addr(),
    {
        let patch_addr = self.patch_addr();
        let instructions = match self {
            BranchStrategy::Branch { patch_addr, trampoline_addr } => {
                let offset = (*trampoline_addr as i64) - (*patch_addr as i64);
                let offset_insns = offset / 4;
                let mut instructions = Instructions::new();
                let imm26 = (offset_insns as u32) & 0x3FF_FFFF;
                proof {
                    lemma_imm26(offset_insns);
                    lemma_or_low(imm26);
                }
                instructions.push(0x1400_0000 | imm26);
                instructions
            },
            BranchStrategy::JumpToAbs { trampoline_addr, .. } => jump_to_abs(*trampoline_addr),
        };
        (instructions, patch_addr)
    }
}

impl BranchStrategy {
    /// Builds the epilogue that re-executes the overwritten instructions `insts`
    /// and returns to the patched code.
    pub fn build_epilogue(&self, replaced_addr: u64, epilogue_addr: u64, insts: [u32; 4]) -> (r: Instructions)
        requires
            self.epilogue_fits(replaced_addr, epilogue_addr, insts),
        ensures
            r@ == self.epilogue_words(replaced_addr, epilogue_addr, insts),
    {
        let mut instructions = Instructions::new();
        match self {
            BranchStrategy::Branch { patch_addr, .. } => {
                if insts[0] == 0xd65f03c0 {
                    instructions.push(0xd65f03c0);
                } else {
                    instructions.join(relocate_instruction(insts[0]));
                    let b_addr = epilogue_addr + instructions.len() as u64 * 4;
                    let back = BranchStrategy::new(b_addr, *patch_addr + 4);
                    proof {
                        assert(back.applicable());
                    }
                    instructions.join(back.apply().0);
                }
            },
            BranchStrategy::JumpToAbs { .. } => {
                let mut i: usize = 0;
                while i < 4
                    invariant
                        i <= 4,
                        instructions@ == insts@.subrange(0, i as int),
                    decreases 4 - i,
                {
                    instructions.join(relocate_instruction(insts[i]));
                    i += 1;
                    assert(insts@.subrange(0, i as int) == insts@.subrange(0, i - 1) + seq![insts@[i - 1]]);
                }
                assert(insts@.subrange(0, 4) == insts@);
                let back = BranchStrategy::JumpToAbs { patch_addr: 0, trampoline_addr: replaced_addr + 16 };
                instructions.join(back.apply().0);
            },
        }
        instructions
    }
}

/// Copies an instruction into the trampoline unchanged.
fn relocate_instruction(inst: u32) -> (r: Instructions)
    ensures
        r@ == seq![inst],
{
    let mut instructions = Instructions::new();
    instructions.push(inst);
    instructions
}

/// A `u64` read as `i64` is congruent to itself modulo 2^64.
proof fn lemma_i64_cast(x: u64)
    ensures
        ((x as i64) as int) % 0x1_0000_0000_0000_0000 == x as int,
{
    assert(((x as i64) as int) == if x < 0x8000_0000_0000_0000 { x as int } else { x as int - 0x1_0000_0000_0000_0000 }) by (bit_vector);
}

/// A branch emitted for a reachable target transfers control exactly to it.
pub proof fn lemma_branch_reaches_target(patch_addr: u64, trampoline_addr: u64)
    requires
        branch_reachable(patch_addr, trampoline_addr),
    ensures
        branch_destination(patch_addr, branch_word(signed_offset(patch_addr, trampoline_addr)))
            == trampoline_addr,
{
    let d = signed_offset(patch_addr, trampoline_addr);
    let q = trunc_div(d, 4);
    assert(q * 4 == d);
    assert(-0x200_0000 <= q < 0x200_0000);
    let w = branch_word(d);
    assert(w as int == B_OPCODE + q % 0x400_0000);
    assert(w % 0x400_0000 == q % 0x400_0000);
    lemma_i64_cast(patch_addr);
    lemma_i64_cast(trampoline_addr);
}

proof fn lemma_imm26(q: i64)
    by (bit_vector)
    ensures
        (q as u32) & 0x3FF_FFFF == ((q as int) % 0x400_0000) as u32,
{
}

proof fn lemma_or_low(x: u32)
    by (bit_vector)
    requires
        x < 0x400_0000,
    ensures
        0x1400_0000u32 | x == 0x1400_0000u32 + x,
{
}

/// Where a redirection placed at `at` transfers control: the destination of
/// a single `b`, or the literal loaded by `ldr x16, #8; br x16` (-1 for any
/// other sequence).
pub open spec fn jump_target(words: Seq<u32>, at: u64) -> int {
    if words.len() == 1 {
        branch_destination(at, words[0])
    } else if words.len() == 4 && words[0] == LDR_X16_LITERAL_8 && words[1] == BR_X16 {
        words[2] as int + words[3] as int * 0x1_0000_0000
    } else {
        -1
    }
}

/// The absolute jump that `jump_to_abs` emits transfers control to its
/// target.
pub proof fn lemma_jump_words_target(t: u64)
    ensures
        jump_target(jump_words(t), 0) == t,
        jump_words(t).len() == 4,
{
    assert((t % 0x1_0000_0000) as u32 as int + (t / 0x1_0000_0000) as u32 as int * 0x1_0000_0000 == t) by (nonlinear_arith);
}

/// The redirection written at a patched address transfers control to the
/// trampoline, whichever strategy is chosen.
pub proof fn lemma_patch_reaches_trampoline(patch_addr: u64, trampoline_addr: u64)
    requires
        offset_fits(patch_addr, trampoline_addr),
    ensures
        jump_target(choose_strategy(patch_addr, trampoline_addr).patch_words(), patch_addr) == trampoline_addr,
{
    if branch_reachable(patch_addr, trampoline_addr) {
        lemma_branch_reaches_target(patch_addr, trampoline_addr);
    } else {
        lemma_jump_words_target(trampoline_addr);
    }
}

/// A trampoline's epilogue, after re-executing the overwritten instructions,
/// transfers control back to the first instruction that was not overwritten
/// (a `ret` replaced by a branch is re-executed and needs no way back).
pub proof fn lemma_epilogue_returns(
    patch_addr: u64,
    trampoline_addr: u64,
    epilogue_addr: u64,
    insts: [u32; 4],
)
    requires
        choose_strategy(patch_addr, trampoline_addr).epilogue_fits(patch_addr, epilogue_addr, insts),
        choose_strategy(patch_addr, trampoline_addr) is Branch ==> insts[0] != RET,
    ensures
        ({
            let s = choose_strategy(patch_addr, trampoline_addr);
            let e = s.epilogue_words(patch_addr, epilogue_addr, insts);
            let k = if s is Branch { 1int } else { 4int };
            &&& e.subrange(0, k) == insts@.subrange(0, k)
            &&& jump_target(e.subrange(k, e.len() as int), (epilogue_addr + 4 * k) as u64) == s.resume_addr(patch_addr)
        }),
{
    let s = choose_strategy(patch_addr, trampoline_addr);
    let e = s.epilogue_words(patch_addr, epilogue_addr, insts);
    if s is Branch {
        let back = choose_strategy((epilogue_addr + 4) as u64, (patch_addr + 4) as u64);
        lemma_patch_reaches_trampoline((epilogue_addr + 4) as u64, (patch_addr + 4) as u64);
        assert(e.subrange(1, e.len() as int) =~= back.patch_words());
        assert(e.subrange(0, 1) =~= insts@.subrange(0, 1));
    } else {
        lemma_jump_words_target((patch_addr + 16) as u64);
        assert(e.subrange(4, e.len() as int) =~= jump_words((patch_addr + 16) as u64));
        assert(e.subrange(0, 4) =~= insts@.subrange(0, 4));
    }
}

} // verus!
