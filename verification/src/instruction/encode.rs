use vstd::prelude::*;

use super::Instructions;

verus! {

/// Rust's `/` on integers: the quotient rounded toward zero.
pub open spec fn trunc_div(a: int, b: int) -> int {
    if a >= 0 { a / b } else { -((-a) / b) }
}

/// The 7-bit scaled immediate of a load/store pair: `imm / 8` (rounded toward
/// zero) in 7-bit two's complement.
pub open spec fn pair_imm7(imm: i32) -> int {
    trunc_div(imm as int, 8) % 128
}

/// Layout of the 64-bit `stp rt, rt2, [rn, #imm]!` (pre-index) encoding.
pub open spec fn stp_word(rt: u32, rt2: u32, rn: u32, imm: i32) -> u32 {
    (0b1010_1001_10 * 0x40_0000 + pair_imm7(imm) * 0x8000 + (rt2 % 32) * 0x400 + (rn % 32) * 0x20
        + rt % 32) as u32
}

/// Layout of the 64-bit `ldp rt, rt2, [rn], #imm` (post-index) encoding.
pub open spec fn ldp_word(rt: u32, rt2: u32, rn: u32, imm: i32) -> u32 {
    (0b1010_1000_11 * 0x40_0000 + pair_imm7(imm) * 0x8000 + (rt2 % 32) * 0x400 + (rn % 32) * 0x20
        + rt % 32) as u32
}

/// Layout of `movz xd, #imm16, lsl #(16 * hw)`.
pub open spec fn movz_word(rd: u32, imm16: u32, hw: u32) -> u32 {
    (0b1_1010_0101 * 0x80_0000 + (hw % 4) * 0x20_0000 + (imm16 % 0x1_0000) * 0x20 + rd % 32) as u32
}

/// Layout of `movk xd, #imm16, lsl #(16 * hw)`.
pub open spec fn movk_word(rd: u32, imm16: u32, hw: u32) -> u32 {
    (0b1_1110_0101 * 0x80_0000 + (hw % 4) * 0x20_0000 + (imm16 % 0x1_0000) * 0x20 + rd % 32) as u32
}

/// Layout of `mov xd, xm`, encoded as `orr xd, xzr, xm`.
pub open spec fn mov_word(rd: u32, rm: u32) -> u32 {
    (0b1010_1010_000 * 0x20_0000 + (rm % 32) * 0x1_0000 + 31 * 0x20 + rd % 32) as u32
}

/// Layout of `ldr xt, [xn, #(8 * imm12)]` (unsigned offset).
pub open spec fn ldr_word(rt: u32, rn: u32, imm12: u32) -> u32 {
    (0b1111_1001_01 * 0x40_0000 + (imm12 % 0x1000) * 0x400 + (rn % 32) * 0x20 + rt % 32) as u32
}

/// Layout of `add xd, xn, xm` (shifted register, no shift).
pub open spec fn add_word(rd: u32, rn: u32, rm: u32) -> u32 {
    (0b1000_1011_000 * 0x20_0000 + (rm % 32) * 0x1_0000 + (rn % 32) * 0x20 + rd % 32) as u32
}

proof fn lemma_pair_imm7(q: i32)
    by (bit_vector)
    ensures
        (q as u32) & 0x7F == ((q as int) % 128) as u32,
{
}

/// Encodes `stp rt, rt2, [rn, #imm]!`.
pub fn build_stp(rt: u32, rt2: u32, rn: u32, imm: i32) -> (r: u32)
    ensures
        r == stp_word(rt, rt2, rn, imm),
{
    let q: i32 = imm / 8;
    let imm7 = (q as u32) & 0x7F;
    proof {
        lemma_pair_imm7(q);
    }
    let r = 0b1010_1001_10u32 << 22 | imm7 << 15 | (rt2 & 0x1F) << 10 | (rn & 0x1F) << 5 | (rt & 0x1F);
    assert(r == 0b1010_1001_10 * 0x40_0000 + imm7 * 0x8000 + (rt2 % 32) * 0x400 + (rn % 32) * 0x20
        + rt % 32) by (bit_vector)
        requires
            imm7 < 128,
            r == 0b1010_1001_10u32 << 22 | imm7 << 15 | (rt2 & 0x1F) << 10 | (rn & 0x1F) << 5 | (rt
                & 0x1F),
    ;
    r
}

/// Encodes `ldp rt, rt2, [rn], #imm`.
pub fn build_ldp(rt: u32, rt2: u32, rn: u32, imm: i32) -> (r: u32)
    ensures
        r == ldp_word(rt, rt2, rn, imm),
{
    let q: i32 = imm / 8;
    let imm7 = (q as u32) & 0x7F;
    proof {
        lemma_pair_imm7(q);
    }
    let r = 0b1010_1000_11u32 << 22 | imm7 << 15 | (rt2 & 0x1F) << 10 | (rn & 0x1F) << 5 | (rt & 0x1F);
    assert(r == 0b1010_1000_11 * 0x40_0000 + imm7 * 0x8000 + (rt2 % 32) * 0x400 + (rn % 32) * 0x20
        + rt % 32) by (bit_vector)
        requires
            imm7 < 128,
            r == 0b1010_1000_11u32 << 22 | imm7 << 15 | (rt2 & 0x1F) << 10 | (rn & 0x1F) << 5 | (rt
                & 0x1F),
    ;
    r
}

/// Encodes `movz target, #value, lsl #shift` (the shift is rounded down to a
/// multiple of 16 and taken modulo 64).
pub fn build_movz(target: u32, value: u32, shift: u32) -> (r: u32)
    ensures
        r == movz_word(target, value, shift / 16),
{
    let r = 0b110100101u32 << 23 | ((shift / 16) & 0b11) << 21 | ((value & 0xFFFF) << 5) | (target
        & 0x1F);
    let hw = shift / 16;
    assert(r == 0b1_1010_0101 * 0x80_0000 + (hw % 4) * 0x20_0000 + (value % 0x1_0000) * 0x20
        + target % 32) by (bit_vector)
        requires
            r == 0b110100101u32 << 23 | (hw & 0b11) << 21 | ((value & 0xFFFF) << 5) | (target
                & 0x1F),
    ;
    r
}

/// Encodes `movk target, #value, lsl #shift`.
pub fn build_movk(target: u32, value: u32, shift: u32) -> (r: u32)
    ensures
        r == movk_word(target, value, shift / 16),
{
    let r = 0b111100101u32 << 23 | ((shift / 16) & 0b11) << 21 | ((value & 0xFFFF) << 5) | (target
        & 0x1F);
    let hw = shift / 16;
    assert(r == 0b1_1110_0101 * 0x80_0000 + (hw % 4) * 0x20_0000 + (value % 0x1_0000) * 0x20
        + target % 32) by (bit_vector)
        requires
            r == 0b111100101u32 << 23 | (hw & 0b11) << 21 | ((value & 0xFFFF) << 5) | (target
                & 0x1F),
    ;
    r
}

/// Encodes `mov rd, rn` as `orr rd, xzr, rn`.
pub fn build_mov(rd: u32, rn: u32) -> (r: u32)
    ensures
        r == mov_word(rd, rn),
{
    let r = 0b10101010_00u32 << 22 | (rn & 0x1F) << 16 | 0b11111u32 << 5 | (rd & 0x1F);
    assert(r == 0b1010_1010_000 * 0x20_0000 + (rn % 32) * 0x1_0000 + 31 * 0x20 + rd % 32)
        by (bit_vector)
        requires
            r == 0b10101010_00u32 << 22 | (rn & 0x1F) << 16 | 0b11111u32 << 5 | (rd & 0x1F),
    ;
    r
}

/// Encodes `ldr rd, [rn, #offset]`; the offset must be a multiple of 8 no
/// larger than 32760, the range of the scaled 12-bit immediate.
pub fn build_ldr_offset(rd: u32, rn: u32, offset: u64) -> (r: u32)
    requires
        offset % 8 == 0,
        offset <= 32760,
    ensures
        r == ldr_word(rd, rn, (offset / 8) as u32),
{
    let imm12 = (offset / 8) as u32;
    let r = 0b11111001_01u32 << 22 | (imm12 & 0xFFF) << 10 | (rn & 0x1F) << 5 | (rd & 0x1F);
    assert(r == 0b1111_1001_01 * 0x40_0000 + (imm12 % 0x1000) * 0x400 + (rn % 32) * 0x20 + rd % 32)
        by (bit_vector)
        requires
            r == 0b11111001_01u32 << 22 | (imm12 & 0xFFF) << 10 | (rn & 0x1F) << 5 | (rd & 0x1F),
    ;
    r
}

/// Encodes `add rd, rn, rm`.
pub fn build_add(rd: u32, rn: u32, rm: u32) -> (r: u32)
    ensures
        r == add_word(rd, rn, rm),
{
    let r = 0b10001011_00u32 << 22 | (rm & 0x1F) << 16 | (rn & 0x1F) << 5 | (rd & 0x1F);
    assert(r == 0b1000_1011_000 * 0x20_0000 + (rm % 32) * 0x1_0000 + (rn % 32) * 0x20 + rd % 32)
        by (bit_vector)
        requires
            r == 0b10001011_00u32 << 22 | (rm & 0x1F) << 16 | (rn & 0x1F) << 5 | (rd & 0x1F),
    ;
    r
}

} // verus!

verus! {

/// The 16-bit chunk `i` (counting from the least significant) of `value`.
pub open spec fn chunk16(value: u64, i: nat) -> u32 {
    ((value >> (16 * i) as u64) & 0xFFFF) as u32
}

/// The `movk` words that `build_large_mov` emits for chunks `i..4`: one per
/// nonzero chunk.
pub open spec fn movk_tail(target: u32, value: u64, i: nat) -> Seq<u32>
    decreases 4 - i,
{
    if i >= 4 {
        Seq::empty()
    } else if chunk16(value, i) == 0 {
        movk_tail(target, value, i + 1)
    } else {
        seq![movk_word(target, chunk16(value, i), i as u32)] + movk_tail(target, value, i + 1)
    }
}

/// What `build_large_mov` emits: a `movz` of the low chunk, then a `movk` for
/// each nonzero higher chunk.
pub open spec fn large_mov_words(target: u32, value: u64) -> Seq<u32> {
    seq![movz_word(target, chunk16(value, 0), 0)] + movk_tail(target, value, 1)
}

/// Emits the shortest `movz`/`movk` sequence of this scheme that loads the
/// 64-bit `value` into register `target`.
pub fn build_large_mov(target: u32, value: u64) -> (r: Instructions)
    ensures
        r@ == large_mov_words(target, value),
{
    let mut instructions = Instructions::new();
    let mut first = true;
    let mut shift: u64 = 0;
    while shift < 64
        invariant
            shift % 16 == 0,
            shift <= 64,
            first == (shift == 0),
            shift > 0 ==> instructions@ + movk_tail(target, value, (shift / 16) as nat)
                == large_mov_words(target, value),
            shift == 0 ==> instructions@ == Seq::<u32>::empty(),
        decreases 64 - shift,
    {
        let chunk = ((value >> shift) & 0xFFFF) as u32;
        let ghost i: nat = (shift / 16) as nat;
        assert(chunk == chunk16(value, i));
        if chunk == 0 && !first {
            shift += 16;
            continue;
        }
        if first {
            instructions.push(build_movz(target, chunk, shift as u32));
            first = false;
        } else {
            instructions.push(build_movk(target, chunk, shift as u32));
        }
        shift += 16;
    }
    instructions
}

/// The sequence that `load_field_from_register` emits.
pub open spec fn load_field_words(dest_reg: u32, base_reg: u32, offset: u64) -> Seq<u32> {
    if offset == 0 {
        seq![ldr_word(dest_reg, base_reg, 0)]
    } else if offset % 8 == 0 && offset <= 32760 {
        seq![ldr_word(dest_reg, base_reg, (offset / 8) as u32)]
    } else {
        let temp_reg = scratch_register(dest_reg, base_reg);
        seq![mov_word(temp_reg, base_reg)] + large_mov_words(dest_reg, offset) + seq![
            add_word(dest_reg, temp_reg, dest_reg),
            ldr_word(dest_reg, dest_reg, 0),
        ]
    }
}

/// The scratch register used for large offsets: the first of x1, x2, x3 that is
/// neither the destination nor the base.
pub open spec fn scratch_register(dest_reg: u32, base_reg: u32) -> u32 {
    if dest_reg != 1 && base_reg != 1 {
        1
    } else if dest_reg != 2 && base_reg != 2 {
        2
    } else {
        3
    }
}

/// Emits code loading the 64-bit word at `base_reg + offset` into `dest_reg`:
/// one `ldr` when the offset fits the scaled immediate, otherwise the address
/// is computed through a scratch register.
pub fn load_field_from_register(dest_reg: u32, base_reg: u32, offset: u64) -> (r: Instructions)
    ensures
        r@ == load_field_words(dest_reg, base_reg, offset),
{
    let mut instructions = Instructions::new();

    if offset == 0 {
        instructions.push(build_ldr_offset(dest_reg, base_reg, 0));
    } else if offset % 8 == 0 && offset <= 32760 {
        instructions.push(build_ldr_offset(dest_reg, base_reg, offset));
    } else {
        let temp_reg = if dest_reg != 1 && base_reg != 1 {
            1
        } else if dest_reg != 2 && base_reg != 2 {
            2
        } else {
            3
        };
        instructions.push(build_mov(temp_reg, base_reg));
        instructions.join(build_large_mov(dest_reg, offset));
        instructions.push(build_add(dest_reg, temp_reg, dest_reg));
        instructions.push(build_ldr_offset(dest_reg, dest_reg, 0));
    }
    instructions
}

/// The register-saving prologue: `stp x(2i), x(2i+1), [sp, #-16]!` for i in 0..15.
pub open spec fn push_registers_words() -> Seq<u32> {
    Seq::new(15, |i: int| stp_word((2 * i) as u32, (2 * i + 1) as u32, 31, -16i32))
}

/// The register-restoring epilogue: `ldp x(2i), x(2i+1), [sp], #16` for i from
/// 14 down to 0.
pub open spec fn pop_registers_words() -> Seq<u32> {
    Seq::new(15, |k: int| ldp_word((2 * (14 - k)) as u32, (2 * (14 - k) + 1) as u32, 31, 16i32))
}

pub fn push_registers_to_stack() -> (r: Instructions)
    ensures
        r@ == push_registers_words(),
{
    let mut instructions = Instructions::new();
    let mut i: u32 = 0;
    while i < 15
        invariant
            i <= 15,
            instructions@ == Seq::new(i as nat, |k: int| stp_word((2 * k) as u32, (2 * k + 1) as u32, 31, -16i32)),
        decreases 15 - i,
    {
        instructions.push(build_stp(i * 2, i * 2 + 1, 31, -16i32));
        i += 1;
    }
    instructions
}

pub fn pop_registers_from_stack() -> (r: Instructions)
    ensures
        r@ == pop_registers_words(),
{
    let mut instructions = Instructions::new();
    let mut i: u32 = 15;
    while i > 0
        invariant
            i <= 15,
            instructions@ == Seq::new((15 - i) as nat, |k: int| ldp_word((2 * (14 - k)) as u32, (2 * (14 - k) + 1) as u32, 31, 16i32)),
        decreases i,
    {
        i -= 1;
        instructions.push(build_ldp(2 * i, 2 * i + 1, 31, 16i32));
    }
    instructions
}

} // verus!
