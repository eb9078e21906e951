use vstd::prelude::*;

use super::encode::{
    add_word, chunk16, large_mov_words, ldr_word, load_field_words, mov_word, movk_tail, movk_word, movz_word,
    scratch_register,
};

verus! {

/// The `movz` opcode field (bits 23..31).
pub const MOVZ_OPC: u32 = 0b1_1010_0101;

/// The `movk` opcode field (bits 23..31).
pub const MOVK_OPC: u32 = 0b1_1110_0101;

/// 2^(16 * hw) for the four halfword positions.
pub open spec fn halfword_scale(hw: int) -> int {
    if hw == 0 {
        1
    } else if hw == 1 {
        0x1_0000
    } else if hw == 2 {
        0x1_0000_0000
    } else {
        0x1_0000_0000_0000
    }
}

/// The effect of one instruction word on a 64-bit register when only the wide
/// moves are interpreted: `movz` replaces the register by the shifted
/// immediate, `movk` replaces one halfword, anything else leaves it unchanged.
/// Fields are read from the word's bits: opcode at 23, hw at 21, imm16 at 5.
pub open spec fn wide_move_effect(reg: int, w: u32) -> int {
    let opc = w as int / 0x80_0000;
    let hw = (w as int / 0x20_0000) % 4;
    let imm = (w as int / 0x20) % 0x1_0000;
    let s = halfword_scale(hw);
    if opc == MOVZ_OPC {
        imm * s
    } else if opc == MOVK_OPC {
        reg - ((reg / s) % 0x1_0000) * s + imm * s
    } else {
        reg
    }
}

/// The register after executing the words `ws` in order.
pub open spec fn run_wide_moves(reg: int, ws: Seq<u32>) -> int
    decreases ws.len(),
{
    if ws.len() == 0 {
        reg
    } else {
        run_wide_moves(wide_move_effect(reg, ws[0]), ws.drop_first())
    }
}

/// The destination register field (bits 0..4) of an instruction word.
pub open spec fn rd_field(w: u32) -> int {
    w as int % 32
}

proof fn lemma_chunks(value: u64)
    by (bit_vector)
    ensures
        value as int == ((value >> 0u64) & 0xFFFF) as int + ((value >> 16u64) & 0xFFFF) as int * 0x1_0000
            + ((value >> 32u64) & 0xFFFF) as int * 0x1_0000_0000 + ((value >> 48u64) & 0xFFFF) as int
            * 0x1_0000_0000_0000,
{
}

proof fn lemma_chunk_bound(value: u64, s: u64)
    by (bit_vector)
    ensures
        (value >> s) & 0xFFFF < 0x1_0000,
{
}

/// The four 16-bit chunks of `value` are halfwords and make up `value`.
pub proof fn lemma_chunk_values(value: u64)
    ensures
        chunk16(value, 0) < 0x1_0000,
        chunk16(value, 1) < 0x1_0000,
        chunk16(value, 2) < 0x1_0000,
        chunk16(value, 3) < 0x1_0000,
        value as int == chunk16(value, 0) + chunk16(value, 1) as int * 0x1_0000 + chunk16(value, 2) as int
            * 0x1_0000_0000 + chunk16(value, 3) as int * 0x1_0000_0000_0000,
{
    lemma_chunks(value);
    lemma_chunk_bound(value, 0);
    lemma_chunk_bound(value, 16);
    lemma_chunk_bound(value, 32);
    lemma_chunk_bound(value, 48);
    assert(chunk16(value, 0) == ((value >> 0u64) & 0xFFFF) as u32);
    assert(chunk16(value, 1) == ((value >> 16u64) & 0xFFFF) as u32);
    assert(chunk16(value, 2) == ((value >> 32u64) & 0xFFFF) as u32);
    assert(chunk16(value, 3) == ((value >> 48u64) & 0xFFFF) as u32);
}

proof fn lemma_run_append(reg: int, a: Seq<u32>, b: Seq<u32>)
    ensures
        run_wide_moves(reg, a + b) == run_wide_moves(run_wide_moves(reg, a), b),
    decreases a.len(),
{
    if a.len() > 0 {
        assert((a + b).drop_first() == a.drop_first() + b);
        lemma_run_append(wide_move_effect(reg, a[0]), a.drop_first(), b);
    }
}

/// The low `16 * i` bits of `value`, as built up by the first `i` halfwords.
pub open spec fn low_chunks(value: u64, i: nat) -> int {
    if i == 0 {
        0
    } else if i == 1 {
        chunk16(value, 0) as int
    } else if i == 2 {
        chunk16(value, 0) + chunk16(value, 1) as int * 0x1_0000
    } else if i == 3 {
        chunk16(value, 0) + chunk16(value, 1) as int * 0x1_0000 + chunk16(value, 2) as int
            * 0x1_0000_0000
    } else {
        value as int
    }
}

proof fn lemma_movk_tail(target: u32, value: u64, i: nat, reg: int)
    requires
        1 <= i <= 4,
        reg == low_chunks(value, i),
    ensures
        run_wide_moves(reg, movk_tail(target, value, i)) == value,
        forall|k: int| 0 <= k < movk_tail(target, value, i).len() ==> rd_field(#[trigger] movk_tail(target, value, i)[k]) == target % 32,
        forall|k: int| 0 <= k < movk_tail(target, value, i).len() ==> #[trigger] movk_tail(target, value, i)[k] as int / 0x80_0000 == MOVK_OPC,
    decreases 4 - i,
{
    lemma_chunk_values(value);
    if i < 4 {
        let c = chunk16(value, i);
        assert(c < 0x1_0000);
        let s = halfword_scale(i as int);
        let next = low_chunks(value, i + 1);
        assert(next == reg + c * s);
        assert(0 <= reg < s);
        if c == 0 {
            lemma_movk_tail(target, value, i + 1, reg);
        } else {
            let w = movk_word(target, c, i as u32);
            assert(w as int == MOVK_OPC * 0x80_0000 + i * 0x20_0000 + c * 0x20 + target % 32);
            assert(w as int / 0x80_0000 == MOVK_OPC);
            assert((w as int / 0x20_0000) % 4 == i);
            assert((w as int / 0x20) % 0x1_0000 == c);
            assert(rd_field(w) == target % 32);
            assert((reg / s) % 0x1_0000 == 0) by (nonlinear_arith)
                requires 0 <= reg < s, s > 0;
            assert(wide_move_effect(reg, w) == next);
            lemma_movk_tail(target, value, i + 1, next);
            assert(movk_tail(target, value, i) == seq![w] + movk_tail(target, value, i + 1));
            assert((seq![w] + movk_tail(target, value, i + 1)).drop_first() == movk_tail(target, value, i + 1));
            assert forall|k: int| 0 <= k < movk_tail(target, value, i).len() implies rd_field(
                #[trigger] movk_tail(target, value, i)[k]) == target % 32 by {
                if k > 0 {
                    assert(movk_tail(target, value, i)[k] == movk_tail(target, value, i + 1)[k - 1]);
                }
            }
            assert forall|k: int| 0 <= k < movk_tail(target, value, i).len() implies #[trigger] movk_tail(target, value, i)[k] as int / 0x80_0000
                == MOVK_OPC by {
                if k > 0 {
                    assert(movk_tail(target, value, i)[k] == movk_tail(target, value, i + 1)[k - 1]);
                }
            }
        }
    } else {
        assert(reg == value);
    }
}

/// The words emitted by `build_large_mov` load exactly `value` into `target`,
/// whatever the register held before, and write no other register.
pub proof fn lemma_large_mov_loads_value(target: u32, value: u64, reg: int)
    ensures
        run_wide_moves(reg, large_mov_words(target, value)) == value,
        forall|k: int| 0 <= k < large_mov_words(target, value).len() ==> rd_field(#[trigger] large_mov_words(target, value)[k]) == target % 32,
        forall|k: int| 0 <= k < large_mov_words(target, value).len() ==> {
            let o = #[trigger] large_mov_words(target, value)[k] as int / 0x80_0000;
            o == MOVZ_OPC || o == MOVK_OPC
        },
{
    lemma_chunk_values(value);
    let c0 = chunk16(value, 0);
    let w = movz_word(target, c0, 0);
    assert(w as int == MOVZ_OPC * 0x80_0000 + c0 * 0x20 + target % 32);
    assert(w as int / 0x80_0000 == MOVZ_OPC);
    assert((w as int / 0x20_0000) % 4 == 0);
    assert((w as int / 0x20) % 0x1_0000 == c0);
    assert(wide_move_effect(reg, w) == c0);
    lemma_movk_tail(target, value, 1, c0 as int);
    let ws = large_mov_words(target, value);
    assert(ws.drop_first() == movk_tail(target, value, 1));
    assert forall|k: int| 0 <= k < ws.len() implies rd_field(#[trigger] ws[k]) == target % 32 by {
        if k > 0 {
            assert(ws[k] == movk_tail(target, value, 1)[k - 1]);
        }
    }
    assert forall|k: int| 0 <= k < ws.len() implies {
        let o = #[trigger] ws[k] as int / 0x80_0000;
        o == MOVZ_OPC || o == MOVK_OPC
    } by {
        if k > 0 {
            assert(ws[k] == movk_tail(target, value, 1)[k - 1]);
        }
    }
}

/// A `movz` of chunk 0 of `value` then a `movk` of each higher chunk, all four
/// emitted even when a chunk is zero.
pub open spec fn full_mov_words(target: u32, value: u64) -> Seq<u32> {
    seq![
        movz_word(target, chunk16(value, 0), 0),
        movk_word(target, chunk16(value, 1), 1),
        movk_word(target, chunk16(value, 2), 2),
        movk_word(target, chunk16(value, 3), 3),
    ]
}

proof fn lemma_movk_step(target: u32, value: u64, i: nat, reg: int)
    requires
        1 <= i < 4,
        target < 32,
        reg == low_chunks(value, i),
    ensures
        wide_move_effect(reg, movk_word(target, chunk16(value, i), i as u32)) == low_chunks(value, i + 1),
        rd_field(movk_word(target, chunk16(value, i), i as u32)) == target,
{
    lemma_chunk_values(value);
    let c = chunk16(value, i);
    let s = halfword_scale(i as int);
    let w = movk_word(target, c, i as u32);
    assert(w as int == MOVK_OPC * 0x80_0000 + i * 0x20_0000 + c * 0x20 + target);
    assert(w as int / 0x80_0000 == MOVK_OPC);
    assert((w as int / 0x20_0000) % 4 == i);
    assert((w as int / 0x20) % 0x1_0000 == c);
    assert(0 <= reg < s);
    assert((reg / s) % 0x1_0000 == 0) by (nonlinear_arith)
        requires
            0 <= reg < s,
            s > 0,
    ;
}

/// The four wide moves of `full_mov_words` load exactly `value` into
/// `target`, whatever the register held before.
pub proof fn lemma_full_mov_loads_value(target: u32, value: u64, reg: int)
    requires
        target < 32,
    ensures
        run_wide_moves(reg, full_mov_words(target, value)) == value,
        forall|k: int| 0 <= k < 4 ==> rd_field(#[trigger] full_mov_words(target, value)[k]) == target,
{
    lemma_chunk_values(value);
    let ws = full_mov_words(target, value);
    let c0 = chunk16(value, 0);
    let w = movz_word(target, c0, 0);
    assert(w as int == MOVZ_OPC * 0x80_0000 + c0 * 0x20 + target);
    assert(w as int / 0x80_0000 == MOVZ_OPC);
    assert((w as int / 0x20_0000) % 4 == 0);
    assert((w as int / 0x20) % 0x1_0000 == c0);
    let r1 = wide_move_effect(reg, w);
    assert(r1 == low_chunks(value, 1));
    lemma_movk_step(target, value, 1, r1);
    let r2 = low_chunks(value, 2);
    lemma_movk_step(target, value, 2, r2);
    let r3 = low_chunks(value, 3);
    lemma_movk_step(target, value, 3, r3);
    assert(ws.drop_first().drop_first().drop_first().drop_first() =~= Seq::<u32>::empty());
    reveal_with_fuel(run_wide_moves, 5);
    assert(ws.drop_first() =~= seq![ws[1], ws[2], ws[3]]);
    assert(ws.drop_first().drop_first() =~= seq![ws[2], ws[3]]);
    assert(ws.drop_first().drop_first().drop_first() =~= seq![ws[3]]);
}

/// The `add` (shifted register) opcode field (bits 21..31).
pub const ADD_OPC: u32 = 0b1000_1011_000;

/// The `ldr` (64-bit, unsigned offset) opcode field (bits 22..31).
pub const LDR_OPC: u32 = 0b1111_1001_01;

/// The `orr` (shifted register) opcode field (bits 21..31), which `mov` uses.
pub const MOV_OPC: u32 = 0b1010_1010_000;

/// The first source register field (bits 5..9).
pub open spec fn rn_field(w: u32) -> int {
    (w as int / 0x20) % 32
}

/// The second source register field (bits 16..20).
pub open spec fn rm_field(w: u32) -> int {
    (w as int / 0x1_0000) % 32
}

/// The effect of one instruction word on the registers `regs` (x0..x30 and
/// one more, as numbers) with memory read as `mem`, for the instructions that
/// compute addresses and load from them: wide moves as `wide_move_effect` on
/// their destination; `add xd, xn, xm` without shift adds modulo 2^64;
/// `ldr xt, [xn, #8 * imm12]` loads the doubleword at that address;
/// `mov xd, xm` (`orr xd, xzr, xm`) copies `xm`. Other words leave the
/// registers as they are. Outside `mov`, which names the zero register,
/// register 31 is read as a plain register; the words modelled here do not
/// name it.
pub open spec fn word_effect(regs: Seq<int>, mem: spec_fn(int) -> int, w: u32) -> Seq<int> {
    let opc = w as int / 0x80_0000;
    if opc == MOVZ_OPC || opc == MOVK_OPC {
        regs.update(rd_field(w), wide_move_effect(regs[rd_field(w)], w))
    } else if w as int / 0x20_0000 == ADD_OPC && (w as int / 0x400) % 0x40 == 0 {
        regs.update(rd_field(w), (regs[rn_field(w)] + regs[rm_field(w)]) % 0x1_0000_0000_0000_0000)
    } else if w as int / 0x40_0000 == LDR_OPC {
        regs.update(
            rd_field(w),
            mem((regs[rn_field(w)] + ((w as int / 0x400) % 0x1000) * 8) % 0x1_0000_0000_0000_0000),
        )
    } else if w as int / 0x20_0000 == MOV_OPC && (w as int / 0x400) % 0x40 == 0 && rn_field(w) == 31 {
        regs.update(rd_field(w), regs[rm_field(w)])
    } else {
        regs
    }
}

/// The registers after executing the words `ws` in order.
pub open spec fn run_words(regs: Seq<int>, mem: spec_fn(int) -> int, ws: Seq<u32>) -> Seq<int>
    decreases ws.len(),
{
    if ws.len() == 0 {
        regs
    } else {
        run_words(word_effect(regs, mem, ws[0]), mem, ws.drop_first())
    }
}

/// The four wide moves of `full_mov_words` set `target` to `value` and leave
/// the other registers alone.
pub proof fn lemma_full_mov_registers(target: u32, value: u64, regs: Seq<int>, mem: spec_fn(int) -> int)
    requires
        target < 32,
        regs.len() == 32,
    ensures
        run_words(regs, mem, full_mov_words(target, value)) == regs.update(target as int, value as int),
{
    lemma_chunk_values(value);
    lemma_full_mov_loads_value(target, value, regs[target as int]);
    let ws = full_mov_words(target, value);
    assert(ws[0] as int / 0x80_0000 == MOVZ_OPC);
    assert(ws[1] as int / 0x80_0000 == MOVK_OPC);
    assert(ws[2] as int / 0x80_0000 == MOVK_OPC);
    assert(ws[3] as int / 0x80_0000 == MOVK_OPC);
    let t = target as int;
    let r1 = wide_move_effect(regs[t], ws[0]);
    let r2 = wide_move_effect(r1, ws[1]);
    let r3 = wide_move_effect(r2, ws[2]);
    let r4 = wide_move_effect(r3, ws[3]);
    reveal_with_fuel(run_wide_moves, 5);
    reveal_with_fuel(run_words, 5);
    assert(ws.drop_first() =~= seq![ws[1], ws[2], ws[3]]);
    assert(ws.drop_first().drop_first() =~= seq![ws[2], ws[3]]);
    assert(ws.drop_first().drop_first().drop_first() =~= seq![ws[3]]);
    assert(ws.drop_first().drop_first().drop_first().drop_first() =~= Seq::<u32>::empty());
    assert(r4 == value);
    assert(run_words(regs, mem, ws) =~= regs.update(t, r1).update(t, r2).update(t, r3).update(t, r4));
    assert(regs.update(t, r1).update(t, r2).update(t, r3).update(t, r4) =~= regs.update(t, value as int));
}

/// 2^64.
pub open spec fn word_range() -> int {
    0x1_0000_0000_0000_0000
}

/// `x` shifted left by `s` bits within 64 bits.
pub open spec fn shl64(x: int, s: int) -> int {
    (x * vstd::arithmetic::power2::pow2(s as nat)) % word_range()
}

/// A processor's registers x0..x30 and the stack pointer (at index 31), its
/// memory as 64-bit words by address, and the stores made so far, in order,
/// as (address, value).
pub struct MachineState {
    pub regs: Seq<int>,
    pub mem: spec_fn(int) -> int,
    pub stores: Seq<(int, int)>,
}

/// `m` with register `r` set to `v`.
pub open spec fn set_reg(m: MachineState, r: int, v: int) -> MachineState {
    MachineState { regs: m.regs.update(r, v), mem: m.mem, stores: m.stores }
}

/// `m` after storing the 64-bit value `v` at `addr`.
pub open spec fn store(m: MachineState, addr: int, v: int) -> MachineState {
    MachineState { regs: m.regs, mem: |a: int| if a == addr { v } else { (m.mem)(a) }, stores: m.stores.push((addr, v)) }
}

/// The immediate field (bits 10..21).
pub open spec fn imm12_field(w: u32) -> int {
    (w as int / 0x400) % 0x1000
}

/// The effect of one 64-bit instruction word of the forms the trampoline
/// body uses; register fields hold 31 for the stack pointer in the address
/// and immediate forms, which are the only ones that name it here:
/// - `movz`/`movk`: as `wide_move_effect`;
/// - `add xd, xn, xm, lsl #s`: `xn + (xm << s)` modulo 2^64;
/// - `add`/`sub xd, xn, #imm`: `xn ± imm` modulo 2^64;
/// - `and xd, xn, #(2^(k+1) - 1)`: the low `k + 1` bits of `xn`;
/// - `lsl xd, xn, #s` (`ubfm` with `imms + 1 == immr`): `xn << (64 - immr)`;
/// - `ldr xt, [xn, #8 * imm]` and `ldar xt, [xn]`: the word at that address;
/// - `str xt, [xn, #8 * imm]` and `stlr xt, [xn]`: a store of `xt` there;
/// - `mrs xt, cntvct_el0`: the counter value `clock`.
/// Other words change nothing.
pub open spec fn machine_step(m: MachineState, w: u32, clock: int) -> MachineState {
    let x = w as int;
    let rd = rd_field(w);
    let rn = rn_field(w);
    let top10 = x / 0x40_0000;
    let n_bit = top10 % 2;
    let immr = (x / 0x1_0000) % 0x40;
    let imms = (x / 0x400) % 0x40;
    if x / 0x80_0000 == MOVZ_OPC || x / 0x80_0000 == MOVK_OPC {
        set_reg(m, rd, wide_move_effect(m.regs[rd], w))
    } else if x / 0x100_0000 == 0x8b && (x / 0x20_0000) % 8 == 0 {
        set_reg(m, rd, (m.regs[rn] + shl64(m.regs[rm_field(w)], imms)) % word_range())
    } else if top10 == 0b10_0100_0100 {
        set_reg(m, rd, (m.regs[rn] + imm12_field(w)) % word_range())
    } else if top10 == 0b11_0100_0100 {
        set_reg(m, rd, (m.regs[rn] - imm12_field(w)) % word_range())
    } else if x / 0x80_0000 == 0b1_0010_0100 && n_bit == 1 && immr == 0 {
        set_reg(m, rd, m.regs[rn] % (vstd::arithmetic::power2::pow2((imms + 1) as nat) as int))
    } else if top10 == 0b11_0100_1101 && imms + 1 == immr {
        set_reg(m, rd, shl64(m.regs[rn], 64 - immr))
    } else if top10 == LDR_OPC {
        set_reg(m, rd, (m.mem)((m.regs[rn] + imm12_field(w) * 8) % word_range()))
    } else if top10 == 0b11_1110_0100 {
        store(m, (m.regs[rn] + imm12_field(w) * 8) % word_range(), m.regs[rd])
    } else if x / 0x400 == 0x32_37ff {
        set_reg(m, rd, (m.mem)(m.regs[rn]))
    } else if x / 0x400 == 0x32_27ff {
        store(m, m.regs[rn], m.regs[rd])
    } else if x / 0x20 == 0x6a9_df02 {
        set_reg(m, rd, clock)
    } else {
        m
    }
}

/// The machine after executing the words `ws` in order, with the counter
/// reading `clock`.
pub open spec fn run_machine(m: MachineState, ws: Seq<u32>, clock: int) -> MachineState
    decreases ws.len(),
{
    if ws.len() == 0 {
        m
    } else {
        run_machine(machine_step(m, ws[0], clock), ws.drop_first(), clock)
    }
}

/// Executing two runs of words one after the other.
pub proof fn lemma_run_machine_append(m: MachineState, a: Seq<u32>, b: Seq<u32>, clock: int)
    ensures
        run_machine(m, a + b, clock) == run_machine(run_machine(m, a, clock), b, clock),
    decreases a.len(),
{
    if a.len() > 0 {
        assert((a + b).drop_first() =~= a.drop_first() + b);
        lemma_run_machine_append(machine_step(m, a[0], clock), a.drop_first(), b, clock);
    } else {
        assert(a + b =~= b);
    }
}

/// The four wide moves of `full_mov_words` set `target` to `value`, leave the
/// other registers alone and store nothing.
pub proof fn lemma_machine_full_mov(target: u32, value: u64, m: MachineState, clock: int)
    requires
        target < 31,
        m.regs.len() == 32,
    ensures
        run_machine(m, full_mov_words(target, value), clock) == set_reg(m, target as int, value as int),
{
    lemma_chunk_values(value);
    lemma_full_mov_loads_value(target, value, m.regs[target as int]);
    let ws = full_mov_words(target, value);
    assert(ws[0] as int / 0x80_0000 == MOVZ_OPC);
    assert(ws[1] as int / 0x80_0000 == MOVK_OPC);
    assert(ws[2] as int / 0x80_0000 == MOVK_OPC);
    assert(ws[3] as int / 0x80_0000 == MOVK_OPC);
    let t = target as int;
    let r1 = wide_move_effect(m.regs[t], ws[0]);
    let r2 = wide_move_effect(r1, ws[1]);
    let r3 = wide_move_effect(r2, ws[2]);
    let r4 = wide_move_effect(r3, ws[3]);
    reveal_with_fuel(run_wide_moves, 5);
    reveal_with_fuel(run_machine, 5);
    assert(ws.drop_first() =~= seq![ws[1], ws[2], ws[3]]);
    assert(ws.drop_first().drop_first() =~= seq![ws[2], ws[3]]);
    assert(ws.drop_first().drop_first().drop_first() =~= seq![ws[3]]);
    assert(ws.drop_first().drop_first().drop_first().drop_first() =~= Seq::<u32>::empty());
    assert(r4 == value);
    let m1 = set_reg(m, t, r1);
    let m2 = set_reg(m1, t, r2);
    let m3 = set_reg(m2, t, r3);
    let m4 = set_reg(m3, t, r4);
    assert(run_machine(m, ws, clock) == m4);
    assert(m4.regs =~= m.regs.update(t, value as int));
}

/// One word is one step.
pub proof fn lemma_run_machine_prefix(m: MachineState, ws: Seq<u32>, k: int, clock: int)
    requires
        0 <= k < ws.len(),
    ensures
        run_machine(m, ws.subrange(0, k + 1), clock) == machine_step(run_machine(m, ws.subrange(0, k), clock), ws[k], clock),
{
    assert(ws.subrange(0, k + 1) =~= ws.subrange(0, k) + seq![ws[k]]);
    lemma_run_machine_append(m, ws.subrange(0, k), seq![ws[k]], clock);
    reveal_with_fuel(run_machine, 2);
    assert(seq![ws[k]].drop_first() =~= Seq::<u32>::empty());
}

/// Executing two runs of words one after the other.
pub proof fn lemma_run_words_concat(regs: Seq<int>, mem: spec_fn(int) -> int, a: Seq<u32>, b: Seq<u32>)
    ensures
        run_words(regs, mem, a + b) == run_words(run_words(regs, mem, a), mem, b),
    decreases a.len(),
{
    if a.len() > 0 {
        assert((a + b).drop_first() =~= a.drop_first() + b);
        lemma_run_words_concat(word_effect(regs, mem, a[0]), mem, a.drop_first(), b);
    } else {
        assert(a + b =~= b);
    }
}

proof fn lemma_run_one_word(regs: Seq<int>, mem: spec_fn(int) -> int, w: u32)
    ensures
        run_words(regs, mem, seq![w]) == word_effect(regs, mem, w),
{
    reveal_with_fuel(run_words, 2);
    assert(seq![w].drop_first() =~= Seq::<u32>::empty());
}

/// Wide moves that all write register `t` set it to what `run_wide_moves`
/// computes and leave the other registers alone.
proof fn lemma_wide_moves_registers(regs: Seq<int>, mem: spec_fn(int) -> int, ws: Seq<u32>, t: int)
    requires
        0 <= t < regs.len(),
        forall|k: int| 0 <= k < ws.len() ==> rd_field(#[trigger] ws[k]) == t,
        forall|k: int| 0 <= k < ws.len() ==> {
            let o = #[trigger] ws[k] as int / 0x80_0000;
            o == MOVZ_OPC || o == MOVK_OPC
        },
    ensures
        run_words(regs, mem, ws) == regs.update(t, run_wide_moves(regs[t], ws)),
    decreases ws.len(),
{
    if ws.len() == 0 {
        assert(regs.update(t, regs[t]) =~= regs);
    } else {
        let w = ws[0];
        assert(rd_field(w) == t);
        let next = regs.update(t, wide_move_effect(regs[t], w));
        assert(word_effect(regs, mem, w) == next);
        assert forall|k: int| 0 <= k < ws.drop_first().len() implies rd_field(#[trigger] ws.drop_first()[k]) == t by {
            assert(ws.drop_first()[k] == ws[k + 1]);
        }
        assert forall|k: int| 0 <= k < ws.drop_first().len() implies {
            let o = #[trigger] ws.drop_first()[k] as int / 0x80_0000;
            o == MOVZ_OPC || o == MOVK_OPC
        } by {
            assert(ws.drop_first()[k] == ws[k + 1]);
        }
        lemma_wide_moves_registers(next, mem, ws.drop_first(), t);
        assert(next.update(t, run_wide_moves(next[t], ws.drop_first())) =~= regs.update(t, run_wide_moves(regs[t], ws)));
    }
}

proof fn lemma_mov_fields(rd: u32, rm: u32)
    requires
        rd < 32,
        rm < 32,
    ensures
        ({
            let w = mov_word(rd, rm);
            &&& w as int / 0x80_0000 != MOVZ_OPC && w as int / 0x80_0000 != MOVK_OPC
            &&& w as int / 0x20_0000 != ADD_OPC
            &&& w as int / 0x40_0000 != LDR_OPC
            &&& w as int / 0x20_0000 == MOV_OPC
            &&& (w as int / 0x400) % 0x40 == 0
            &&& rn_field(w) == 31
            &&& rm_field(w) == rm
            &&& rd_field(w) == rd
        }),
{
    let w = mov_word(rd, rm);
    assert(w == 0x550u32 * 0x20_0000 + rm * 0x1_0000 + 31 * 0x20 + rd);
    assert(w / 0x80_0000 == 0x154 && w / 0x20_0000 == 0x550 && w / 0x40_0000 == 0x2a8 && (w / 0x400) % 0x40 == 0
        && (w / 0x20) % 32 == 31 && (w / 0x1_0000) % 32 == rm && w % 32 == rd) by (bit_vector)
        requires
            w == 0x550u32 * 0x20_0000 + rm * 0x1_0000 + 31 * 0x20 + rd,
            rd < 32,
            rm < 32,
    ;
}

proof fn lemma_add_fields(rd: u32, rn: u32, rm: u32)
    requires
        rd < 32,
        rn < 32,
        rm < 32,
    ensures
        ({
            let w = add_word(rd, rn, rm);
            &&& w as int / 0x80_0000 != MOVZ_OPC && w as int / 0x80_0000 != MOVK_OPC
            &&& w as int / 0x20_0000 == ADD_OPC
            &&& (w as int / 0x400) % 0x40 == 0
            &&& rn_field(w) == rn
            &&& rm_field(w) == rm
            &&& rd_field(w) == rd
        }),
{
    let w = add_word(rd, rn, rm);
    assert(w == 0x458u32 * 0x20_0000 + rm * 0x1_0000 + rn * 0x20 + rd);
    assert(w / 0x80_0000 == 0x116 && w / 0x20_0000 == 0x458 && (w / 0x400) % 0x40 == 0 && (w / 0x20) % 32 == rn
        && (w / 0x1_0000) % 32 == rm && w % 32 == rd) by (bit_vector)
        requires
            w == 0x458u32 * 0x20_0000 + rm * 0x1_0000 + rn * 0x20 + rd,
            rd < 32,
            rn < 32,
            rm < 32,
    ;
}

proof fn lemma_ldr_fields(rt: u32, rn: u32, imm12: u32)
    requires
        rt < 32,
        rn < 32,
        imm12 < 0x1000,
    ensures
        ({
            let w = ldr_word(rt, rn, imm12);
            &&& w as int / 0x80_0000 != MOVZ_OPC && w as int / 0x80_0000 != MOVK_OPC
            &&& w as int / 0x20_0000 != ADD_OPC
            &&& w as int / 0x40_0000 == LDR_OPC
            &&& (w as int / 0x400) % 0x1000 == imm12
            &&& rn_field(w) == rn
            &&& rd_field(w) == rt
        }),
{
    let w = ldr_word(rt, rn, imm12);
    assert(w == 0x3e5u32 * 0x40_0000 + imm12 * 0x400 + rn * 0x20 + rt);
    assert(w / 0x80_0000 == 0x1f2 && w / 0x20_0000 >= 0x7ca && w / 0x40_0000 == 0x3e5 && (w / 0x400) % 0x1000 == imm12
        && (w / 0x20) % 32 == rn && w % 32 == rt) by (bit_vector)
        requires
            w == 0x3e5u32 * 0x40_0000 + imm12 * 0x400 + rn * 0x20 + rt,
            rt < 32,
            rn < 32,
            imm12 < 0x1000,
    ;
}

/// The code `load_field_from_register` emits loads the 64-bit word that
/// memory holds at `base_reg + offset` (modulo 2^64) into `dest_reg`,
/// whatever the registers and memory hold before; it writes no register but
/// `dest_reg` and the scratch register that a large offset is computed in.
pub proof fn lemma_load_field_loads(dest_reg: u32, base_reg: u32, offset: u64, regs: Seq<int>, mem: spec_fn(int) -> int)
    requires
        dest_reg < 31,
        base_reg < 31,
        dest_reg != base_reg,
        regs.len() == 32,
    ensures
        ({
            let r = run_words(regs, mem, load_field_words(dest_reg, base_reg, offset));
            &&& r.len() == 32
            &&& r[dest_reg as int] == mem((regs[base_reg as int] + offset) % 0x1_0000_0000_0000_0000)
            &&& forall|i: int| 0 <= i < 32 && i != dest_reg && i != scratch_register(dest_reg, base_reg) ==> #[trigger] r[i]
                == regs[i]
        }),
{
    let m = 0x1_0000_0000_0000_0000int;
    let d = dest_reg as int;
    let b = base_reg as int;
    if offset == 0 || (offset % 8 == 0 && offset <= 32760) {
        let imm = if offset == 0 { 0u32 } else { (offset / 8) as u32 };
        assert(imm < 0x1000);
        assert(imm * 8 == offset);
        lemma_ldr_fields(dest_reg, base_reg, imm);
        assert(load_field_words(dest_reg, base_reg, offset) == seq![ldr_word(dest_reg, base_reg, imm)]);
        lemma_run_one_word(regs, mem, ldr_word(dest_reg, base_reg, imm));
    } else {
        let t = scratch_register(dest_reg, base_reg);
        let ti = t as int;
        let mv = seq![mov_word(t, base_reg)];
        let lm = large_mov_words(dest_reg, offset);
        let tail = seq![add_word(dest_reg, t, dest_reg), ldr_word(dest_reg, dest_reg, 0)];
        assert(load_field_words(dest_reg, base_reg, offset) == mv + lm + tail);
        lemma_mov_fields(t, base_reg);
        lemma_add_fields(dest_reg, t, dest_reg);
        lemma_ldr_fields(dest_reg, dest_reg, 0);
        lemma_run_one_word(regs, mem, mov_word(t, base_reg));
        let r1 = regs.update(ti, regs[b]);
        assert(run_words(regs, mem, mv) == r1);
        lemma_large_mov_loads_value(dest_reg, offset, r1[d]);
        lemma_wide_moves_registers(r1, mem, lm, d);
        let r2 = r1.update(d, offset as int);
        assert(run_words(r1, mem, lm) == r2);
        assert(tail.drop_first() =~= seq![ldr_word(dest_reg, dest_reg, 0)]);
        reveal_with_fuel(run_words, 3);
        assert(tail.drop_first().drop_first() =~= Seq::<u32>::empty());
        let a = (regs[b] + offset) % m;
        let r3 = r2.update(d, a);
        assert(word_effect(r2, mem, add_word(dest_reg, t, dest_reg)) == r3);
        vstd::arithmetic::div_mod::lemma_mod_bound(regs[b] + offset, m);
        vstd::arithmetic::div_mod::lemma_small_mod(a as nat, m as nat);
        let r4 = r3.update(d, mem(a));
        assert(word_effect(r3, mem, ldr_word(dest_reg, dest_reg, 0)) == r4);
        assert(run_words(r2, mem, tail) == r4);
        lemma_run_words_concat(regs, mem, mv, lm);
        lemma_run_words_concat(regs, mem, mv + lm, tail);
    }
}

} // verus!
