use vstd::prelude::*;

use super::{
    push_ring_buffer_store, ring_buffer_store_words, Instructions, ADD_SP_32, MRS_X0_CNTVCT, STR_X0_SP,
    STR_X0_SP_16, STR_X1_SP_8, SUB_SP_32,
};
use super::encode::{
    add_word, build_add, build_ldr_offset, build_movk, build_movz, chunk16, ldr_word, movk_word,
    movz_word, pop_registers_from_stack, pop_registers_words, push_registers_to_stack,
    push_registers_words,
};
use super::patch::RET;
use super::semantics::{
    full_mov_words, lemma_chunk_values, lemma_full_mov_loads_value, lemma_full_mov_registers, lemma_machine_full_mov,
    lemma_run_machine_append, lemma_run_machine_prefix, machine_step, rd_field, run_machine, run_wide_moves, run_words,
    shl64, word_effect, word_range, MachineState,
};
use crate::event_buffer::{slot_offset, BUFFER_SIZE};

verus! {

/// Placeholder halfwords of the header value in the trampoline body.
pub const MAGIC_HEADER_VAL: [u16; 4] = [0xAAA1, 0xAAA2, 0xAAA3, 0xAAA4];

/// Placeholder halfwords of the goroutine-id field offset.
pub const MAGIC_GOID_OFFSET: [u16; 4] = [0xBBB1, 0xBBB2, 0xBBB3, 0xBBB4];

/// Placeholder halfwords of the event buffer address.
pub const MAGIC_BUFFER_ADDR: [u16; 4] = [0xCCC1, 0xCCC2, 0xCCC3, 0xCCC4];

} // verus!

verus! {

/// The middle of the trampoline body: build the event (header, goroutine id
/// read through x28, timestamp) on the stack and append it to the ring buffer.
pub open spec fn blob_middle_words() -> Seq<u32> {
    seq![
        SUB_SP_32,
        movz_word(0, MAGIC_HEADER_VAL[0] as u32, 0),
        movk_word(0, MAGIC_HEADER_VAL[1] as u32, 1),
        movk_word(0, MAGIC_HEADER_VAL[2] as u32, 2),
        movk_word(0, MAGIC_HEADER_VAL[3] as u32, 3),
        STR_X0_SP,
        movz_word(1, MAGIC_GOID_OFFSET[0] as u32, 0),
        movk_word(1, MAGIC_GOID_OFFSET[1] as u32, 1),
        movk_word(1, MAGIC_GOID_OFFSET[2] as u32, 2),
        movk_word(1, MAGIC_GOID_OFFSET[3] as u32, 3),
        add_word(1, 28, 1),
        ldr_word(1, 1, 0),
        STR_X1_SP_8,
        MRS_X0_CNTVCT,
        STR_X0_SP_16,
        movz_word(9, MAGIC_BUFFER_ADDR[0] as u32, 0),
        movk_word(9, MAGIC_BUFFER_ADDR[1] as u32, 1),
        movk_word(9, MAGIC_BUFFER_ADDR[2] as u32, 2),
        movk_word(9, MAGIC_BUFFER_ADDR[3] as u32, 3),
    ] + ring_buffer_store_words() + seq![ADD_SP_32]
}

/// The assembled trampoline body, without its final `ret`: save x0-x29, the
/// middle part, restore the registers.
#[verifier::opaque]
pub open spec fn blob_body_words() -> Seq<u32> {
    push_registers_words() + blob_middle_words() + pop_registers_words()
}

/// The trampoline blob: the body followed by `ret`.
pub open spec fn trampoline_blob_words() -> Seq<u32> {
    blob_body_words().push(RET)
}

/// The imm16 field (bits 5..20) of a wide-move word.
pub open spec fn imm16_field(w: u32) -> int {
    (w as int / 0x20) % 0x1_0000
}

/// `w` with its imm16 field replaced by `c`.
pub open spec fn with_imm16(w: u32, c: int) -> u32 {
    (w as int - imm16_field(w) * 0x20 + c * 0x20) as u32
}

/// The first index at or after `i` whose imm16 field is `m`, or the length.
pub open spec fn find_imm16(ws: Seq<u32>, m: int, i: int) -> int
    decreases ws.len() - i,
{
    if i < 0 || i >= ws.len() {
        ws.len() as int
    } else if imm16_field(ws[i]) == m {
        i
    } else {
        find_imm16(ws, m, i + 1)
    }
}

/// Some word of `ws` carries the halfword `m` in its imm16 field.
pub open spec fn carries(ws: Seq<u32>, m: int) -> bool {
    exists|p: int| 0 <= p < ws.len() && imm16_field(ws[p]) == m
}

/// The four placeholders are distinct and each occurs in `ws`.
pub open spec fn magics_present(ws: Seq<u32>, magics: [u16; 4]) -> bool {
    &&& forall|a: int, b: int| 0 <= a < b < 4 ==> magics[a] != magics[b]
    &&& forall|k: int| 0 <= k < 4 ==> carries(ws, #[trigger] magics[k] as int)
}

/// For each placeholder `k`, the position of the first word of `ws` that
/// carries it.
pub open spec fn magic_positions(ws: Seq<u32>, magics: [u16; 4]) -> Seq<int> {
    Seq::new(4, |k: int| find_imm16(ws, magics[k] as int, 0))
}

/// Which of the four positions `q` is: the `k` with `pos[k] == q`, or 4.
pub open spec fn slot_of(pos: Seq<int>, q: int) -> int {
    if q == pos[0] {
        0
    } else if q == pos[1] {
        1
    } else if q == pos[2] {
        2
    } else if q == pos[3] {
        3
    } else {
        4
    }
}

/// `ws` with the word at `pos[k]` carrying chunk `k` of `value`, for each of
/// the four positions, and every other word left alone.
pub open spec fn patched_at(ws: Seq<u32>, pos: Seq<int>, value: u64) -> Seq<u32> {
    Seq::new(
        ws.len(),
        |q: int|
            if slot_of(pos, q) < 4 {
                with_imm16(ws[q], chunk16(value, slot_of(pos, q) as nat) as int)
            } else {
                ws[q]
            },
    )
}

proof fn lemma_find_imm16(ws: Seq<u32>, m: int, i: int, p: int)
    requires
        0 <= i <= p < ws.len(),
        imm16_field(ws[p]) == m,
        forall|j: int| 0 <= j < p ==> imm16_field(ws[j]) != m,
    ensures
        find_imm16(ws, m, i) == p,
    decreases p - i,
{
    if i < p {
        lemma_find_imm16(ws, m, i + 1, p);
    }
}

proof fn lemma_imm16_bits(w: u32, c: u32)
    by (bit_vector)
    requires
        c < 0x1_0000,
    ensures
        (w >> 5u32) & 0xFFFF == (w / 0x20) % 0x1_0000,
        (w & !(0xFFFFu32 << 5u32)) | (c << 5u32) == w - ((w / 0x20) % 0x1_0000) * 0x20 + c * 0x20,
{
}

/// The position of the first word carrying the halfword `magic`.
fn first_carrying(words: &Vec<u32>, magic: u16) -> (r: usize)
    requires
        carries(words@, magic as int),
    ensures
        r < words@.len(),
        r == find_imm16(words@, magic as int, 0),
        imm16_field(words@[r as int]) == magic as int,
{
    let ghost witness = choose|p: int| 0 <= p < words@.len() && imm16_field(words@[p]) == magic as int;
    let mut pos: usize = 0;
    let n = words.len();
    while pos < n
        invariant
            n == words@.len(),
            pos <= n,
            0 <= witness < n,
            imm16_field(words@[witness]) == magic as int,
            forall|j: int| 0 <= j < pos ==> imm16_field(words@[j]) != magic as int,
        ensures
            pos <= n,
            forall|j: int| 0 <= j < pos ==> imm16_field(words@[j]) != magic as int,
            pos < n ==> imm16_field(words@[pos as int]) == magic as int,
        decreases n - pos,
    {
        let w = words[pos];
        proof {
            lemma_imm16_bits(w, 0);
        }
        if (w >> 5) & 0xFFFF == magic as u32 {
            break;
        }
        pos += 1;
    }
    if pos >= n {
        assert(false);
    }
    proof {
        lemma_find_imm16(words@, magic as int, 0, pos as int);
    }
    pos
}

/// The positions of the words that carry the four placeholders of `magics`,
/// found before anything is patched. They are distinct, since each carries
/// another placeholder.
pub fn find_magic_positions(words: &Vec<u32>, magics: &[u16; 4]) -> (r: [usize; 4])
    requires
        magics_present(words@, *magics),
    ensures
        forall|k: int| 0 <= k < 4 ==> (#[trigger] r@[k]) as int == magic_positions(words@, *magics)[k],
        forall|k: int| 0 <= k < 4 ==> (#[trigger] r@[k]) < words@.len(),
        forall|k: int| 0 <= k < 4 ==> imm16_field(words@[#[trigger] r@[k] as int]) == magics[k] as int,
        forall|a: int, b: int| 0 <= a < b < 4 ==> r@[a] != r@[b],
{
    assert(carries(words@, magics[0] as int));
    assert(carries(words@, magics[1] as int));
    assert(carries(words@, magics[2] as int));
    assert(carries(words@, magics[3] as int));
    let p0 = first_carrying(words, magics[0]);
    let p1 = first_carrying(words, magics[1]);
    let p2 = first_carrying(words, magics[2]);
    let p3 = first_carrying(words, magics[3]);
    let r = [p0, p1, p2, p3];
    assert(r@ =~= seq![p0, p1, p2, p3]);
    assert forall|a: int, b: int| 0 <= a < b < 4 implies r@[a] != r@[b] by {
        assert(magics[a] != magics[b]);
    }
    r
}

/// The word at each of the four positions gets the same word carrying the
/// corresponding 16-bit chunk of `value`; no other word changes.
pub fn patch_at_positions(words: &mut Vec<u32>, pos: &[usize; 4], value: u64)
    requires
        forall|k: int| 0 <= k < 4 ==> (#[trigger] pos@[k]) < old(words)@.len(),
        forall|a: int, b: int| 0 <= a < b < 4 ==> pos@[a] != pos@[b],
    ensures
        final(words)@ == patched_at(old(words)@, Seq::new(4, |k: int| pos@[k] as int), value),
{
    let ghost orig = words@;
    let ghost ps = Seq::new(4, |k: int| pos@[k] as int);
    proof {
        lemma_chunk_values(value);
    }
    let mut i: usize = 0;
    while i < 4
        invariant
            i <= 4,
            orig == old(words)@,
            ps == Seq::new(4, |k: int| pos@[k] as int),
            forall|k: int| 0 <= k < 4 ==> (#[trigger] pos@[k]) < orig.len(),
            forall|a: int, b: int| 0 <= a < b < 4 ==> pos@[a] != pos@[b],
            chunk16(value, 0) < 0x1_0000,
            chunk16(value, 1) < 0x1_0000,
            chunk16(value, 2) < 0x1_0000,
            chunk16(value, 3) < 0x1_0000,
            words@.len() == orig.len(),
            forall|q: int| 0 <= q < orig.len() ==> #[trigger] words@[q] == (if slot_of(ps, q) < i {
                with_imm16(orig[q], chunk16(value, slot_of(ps, q) as nat) as int)
            } else {
                orig[q]
            }),
        decreases 4 - i,
    {
        let chunk = ((value >> (i * 16) as u64) & 0xFFFF) as u32;
        assert(chunk == chunk16(value, i as nat));
        let p = pos[i];
        assert(p == pos@[i as int]);
        assert(slot_of(ps, p as int) == i);
        let ghost before = words@;
        let w = words[p];
        proof {
            lemma_imm16_bits(w, chunk);
        }
        words.set(p, (w & !(0xFFFFu32 << 5)) | (chunk << 5));
        assert(words@ == before.update(p as int, with_imm16(orig[p as int], chunk as int)));
        i += 1;
    }
    assert(words@ =~= patched_at(orig, ps, value));
}

/// Replaces the word carrying each placeholder halfword of `magics` by the
/// same word carrying the corresponding 16-bit chunk of `value`: placeholder
/// `k` becomes chunk `k`. All positions are found before any word is
/// patched; words that carry none of the placeholders are left alone.
pub fn patch_magic_chunks(words: &mut Vec<u32>, magics: &[u16; 4], value: u64)
    requires
        magics_present(old(words)@, *magics),
    ensures
        final(words)@ == patched_at(old(words)@, magic_positions(old(words)@, *magics), value),
        final(words)@.len() == old(words)@.len(),
        forall|k: int| 0 <= k < 4 ==> {
            let p = #[trigger] magic_positions(old(words)@, *magics)[k];
            &&& 0 <= p < old(words)@.len()
            &&& imm16_field(old(words)@[p]) == magics[k] as int
            &&& final(words)@[p] == with_imm16(old(words)@[p], chunk16(value, k as nat) as int)
        },
        forall|p: int| 0 <= p < old(words)@.len() && (forall|k: int| 0 <= k < 4 ==> imm16_field(old(words)@[p]) != magics[k] as int)
            ==> final(words)@[p] == old(words)@[p],
{
    let ghost orig = words@;
    let pos = find_magic_positions(words, magics);
    patch_at_positions(words, &pos, value);
    let ghost ps = magic_positions(orig, *magics);
    assert(Seq::new(4, |k: int| pos@[k] as int) =~= ps);
    assert forall|k: int| 0 <= k < 4 implies slot_of(ps, #[trigger] ps[k]) == k by {
        assert(pos@[k] as int == ps[k]);
    }
    assert forall|p: int| 0 <= p < orig.len() && (forall|k: int| 0 <= k < 4 ==> imm16_field(orig[p]) != magics[k] as int)
        implies words@[p] == orig[p] by {
        assert(imm16_field(orig[pos@[0] as int]) == magics[0] as int);
        assert(imm16_field(orig[pos@[1] as int]) == magics[1] as int);
        assert(imm16_field(orig[pos@[2] as int]) == magics[2] as int);
        assert(imm16_field(orig[pos@[3] as int]) == magics[3] as int);
        assert(slot_of(ps, p) == 4);
    }
}

} // verus!

verus! {

fn push_magic_mov(instructions: &mut Instructions, rd: u32, m: &[u16; 4])
    ensures
        final(instructions)@ == old(instructions)@.push(movz_word(rd, m[0] as u32, 0)).push(
            movk_word(rd, m[1] as u32, 1)).push(movk_word(rd, m[2] as u32, 2)).push(movk_word(rd, m[3] as u32, 3)),
{
    instructions.push(build_movz(rd, m[0] as u32, 0));
    instructions.push(build_movk(rd, m[1] as u32, 16));
    instructions.push(build_movk(rd, m[2] as u32, 32));
    instructions.push(build_movk(rd, m[3] as u32, 48));
}

/// The trampoline blob, `ret` included.
fn trampoline_blob() -> (r: Vec<u32>)
    ensures
        r@ == trampoline_blob_words(),
{
    let mut ins = Instructions::new();
    ins.push(SUB_SP_32);
    push_magic_mov(&mut ins, 0, &MAGIC_HEADER_VAL);
    ins.push(STR_X0_SP);
    push_magic_mov(&mut ins, 1, &MAGIC_GOID_OFFSET);
    ins.push(build_add(1, 28, 1));
    ins.push(build_ldr_offset(1, 1, 0));
    ins.push(STR_X1_SP_8);
    ins.push(MRS_X0_CNTVCT);
    ins.push(STR_X0_SP_16);
    push_magic_mov(&mut ins, 9, &MAGIC_BUFFER_ADDR);
    push_ring_buffer_store(&mut ins);
    ins.push(ADD_SP_32);
    assert(ins@ =~= blob_middle_words());
    let mut all = push_registers_to_stack();
    all.join(ins);
    all.join(pop_registers_from_stack());
    all.push(RET);
    reveal(blob_body_words);
    all.into_vec()
}

/// The words of the trampoline blob without its final `ret`, which the
/// epilogue replaces by a jump back to the patched code.
fn blob_words() -> (r: Vec<u32>)
    ensures
        r@ == blob_body_words(),
{
    let mut words = trampoline_blob();
    let last = words.pop();
    reveal(blob_body_words);
    assert(last == Some(RET));
    assert(words@ =~= blob_body_words());
    words
}

/// Word `i` of `bytes` read as a little-endian 32-bit number.
pub open spec fn le_word(bytes: Seq<u8>, i: int) -> u32 {
    (bytes[4 * i] + bytes[4 * i + 1] * 0x100 + bytes[4 * i + 2] * 0x1_0000 + bytes[4 * i + 3] * 0x100_0000) as u32
}

/// The whole little-endian words of `bytes`; trailing bytes that make no
/// word are left out.
pub open spec fn le_words(bytes: Seq<u8>) -> Seq<u32> {
    Seq::new(bytes.len() / 4, |i: int| le_word(bytes, i))
}

/// The words of an assembled trampoline blob without its final `ret`, which
/// the epilogue replaces by a jump back to the patched code. The blob must
/// end with `ret`.
pub fn decode_blob(bytes: &[u8]) -> (r: Vec<u32>)
    requires
        le_words(bytes@).len() > 0,
        le_words(bytes@).last() == RET,
    ensures
        r@ == le_words(bytes@).drop_last(),
{
    let len = bytes.len();
    let n = len / 4;
    let mut words: Vec<u32> = Vec::new();
    let mut i: usize = 0;
    while i + 1 < n
        invariant
            len == bytes@.len(),
            n == bytes@.len() / 4,
            n >= 1,
            i < n,
            words@ == le_words(bytes@).subrange(0, i as int),
        decreases n - i,
    {
        assert(4 * i + 3 < bytes@.len()) by (nonlinear_arith)
            requires
                i + 1 < n,
                n == bytes@.len() / 4,
        ;
        let at = 4 * i;
        let w = bytes[at] as u32 + bytes[at + 1] as u32 * 0x100 + bytes[at + 2] as u32 * 0x1_0000
            + bytes[at + 3] as u32 * 0x100_0000;
        assert(w == le_word(bytes@, i as int));
        words.push(w);
        i += 1;
        assert(words@ =~= le_words(bytes@).subrange(0, i as int));
    }
    assert(words@ =~= le_words(bytes@).drop_last());
    words
}

/// The blob with the chunks of the header value in the words that carry its
/// placeholders (16..20), those of the goroutine-id offset in 21..25 and those
/// of the buffer address in 30..34.
pub open spec fn patched_blob_words(header_val: u64, goid_offset: u64, buffer_addr: u64) -> Seq<u32> {
    with_chunks(with_chunks(with_chunks(blob_body_words(), 16, header_val, 4), 21, goid_offset, 4), 30, buffer_addr, 4)
}

proof fn lemma_wide_imm16(rd: u32, m: u32, hw: u32)
    requires
        rd < 32,
        m < 0x1_0000,
        hw < 4,
    ensures
        imm16_field(movz_word(rd, m, hw)) == m,
        imm16_field(movk_word(rd, m, hw)) == m,
{
    assert(imm16_field(movz_word(rd, m, hw)) == m) by (nonlinear_arith)
        requires
            movz_word(rd, m, hw) as int == 0b1_1010_0101 * 0x80_0000 + hw * 0x20_0000 + m * 0x20 + rd,
            rd < 32, m < 0x1_0000, hw < 4;
    assert(imm16_field(movk_word(rd, m, hw)) == m) by (nonlinear_arith)
        requires
            movk_word(rd, m, hw) as int == 0b1_1110_0101 * 0x80_0000 + hw * 0x20_0000 + m * 0x20 + rd,
            rd < 32, m < 0x1_0000, hw < 4;
}

proof fn lemma_blob_layout()
    ensures
        blob_body_words().len() == 64,
        forall|k: int| 0 <= k < 4 ==> imm16_field(#[trigger] blob_body_words()[16 + k]) == MAGIC_HEADER_VAL[k] as int,
        forall|k: int| 0 <= k < 4 ==> imm16_field(#[trigger] blob_body_words()[21 + k]) == MAGIC_GOID_OFFSET[k] as int,
        forall|k: int| 0 <= k < 4 ==> imm16_field(#[trigger] blob_body_words()[30 + k]) == MAGIC_BUFFER_ADDR[k] as int,
{
    reveal(blob_body_words);
    let m = blob_middle_words();
    let b = blob_body_words();
    assert(m.len() == 34);
    assert(push_registers_words().len() == 15);
    assert(pop_registers_words().len() == 15);
    assert forall|j: int| 0 <= j < 34 implies b[15 + j] == #[trigger] m[j] by {
        assert((push_registers_words() + m)[15 + j] == m[j]);
    }
    assert forall|k: int| 0 <= k < 4 implies imm16_field(#[trigger] b[16 + k]) == MAGIC_HEADER_VAL[k] as int by {
        lemma_wide_imm16(0, MAGIC_HEADER_VAL[k] as u32, k as u32);
        assert(b[16 + k] == m[1 + k]);
    }
    assert forall|k: int| 0 <= k < 4 implies imm16_field(#[trigger] b[21 + k]) == MAGIC_GOID_OFFSET[k] as int by {
        lemma_wide_imm16(1, MAGIC_GOID_OFFSET[k] as u32, k as u32);
        assert(b[21 + k] == m[6 + k]);
    }
    assert forall|k: int| 0 <= k < 4 implies imm16_field(#[trigger] b[30 + k]) == MAGIC_BUFFER_ADDR[k] as int by {
        lemma_wide_imm16(9, MAGIC_BUFFER_ADDR[k] as u32, k as u32);
        assert(b[30 + k] == m[15 + k]);
    }
}

/// The blob's placeholder positions: placeholder `k` of each value is first
/// carried by the word at 16 + k, 21 + k and 30 + k.
proof fn lemma_blob_positions()
    ensures
        magics_present(blob_body_words(), MAGIC_HEADER_VAL),
        magics_present(blob_body_words(), MAGIC_GOID_OFFSET),
        magics_present(blob_body_words(), MAGIC_BUFFER_ADDR),
        magic_positions(blob_body_words(), MAGIC_HEADER_VAL) == seq![16int, 17, 18, 19],
        magic_positions(blob_body_words(), MAGIC_GOID_OFFSET) == seq![21int, 22, 23, 24],
        magic_positions(blob_body_words(), MAGIC_BUFFER_ADDR) == seq![30int, 31, 32, 33],
{
    lemma_blob_layout();
    lemma_blob_placeholder_positions();
    let b = blob_body_words();
    assert forall|k: int| 0 <= k < 4 implies {
        &&& carries(b, #[trigger] MAGIC_HEADER_VAL[k] as int)
        &&& find_imm16(b, MAGIC_HEADER_VAL[k] as int, 0) == 16 + k
    } by {
        assert forall|j: int| 0 <= j < 16 + k implies imm16_field(b[j]) != MAGIC_HEADER_VAL[k] as int by {
            if 16 <= j {
                assert(imm16_field(b[16 + (j - 16)]) == MAGIC_HEADER_VAL[j - 16] as int);
            } else {
                assert(outside_placeholders(imm16_field(b[j])));
            }
        }
        assert(imm16_field(b[16 + k]) == MAGIC_HEADER_VAL[k] as int);
        lemma_find_imm16(b, MAGIC_HEADER_VAL[k] as int, 0, 16 + k);
    }
    assert forall|k: int| 0 <= k < 4 implies {
        &&& carries(b, #[trigger] MAGIC_GOID_OFFSET[k] as int)
        &&& find_imm16(b, MAGIC_GOID_OFFSET[k] as int, 0) == 21 + k
    } by {
        assert forall|j: int| 0 <= j < 21 + k implies imm16_field(b[j]) != MAGIC_GOID_OFFSET[k] as int by {
            if 21 <= j {
                assert(imm16_field(b[21 + (j - 21)]) == MAGIC_GOID_OFFSET[j - 21] as int);
            } else if 16 <= j < 20 {
                assert(imm16_field(b[16 + (j - 16)]) == MAGIC_HEADER_VAL[j - 16] as int);
            } else {
                assert(outside_placeholders(imm16_field(b[j])));
            }
        }
        assert(imm16_field(b[21 + k]) == MAGIC_GOID_OFFSET[k] as int);
        lemma_find_imm16(b, MAGIC_GOID_OFFSET[k] as int, 0, 21 + k);
    }
    assert forall|k: int| 0 <= k < 4 implies {
        &&& carries(b, #[trigger] MAGIC_BUFFER_ADDR[k] as int)
        &&& find_imm16(b, MAGIC_BUFFER_ADDR[k] as int, 0) == 30 + k
    } by {
        assert forall|j: int| 0 <= j < 30 + k implies imm16_field(b[j]) != MAGIC_BUFFER_ADDR[k] as int by {
            if 30 <= j {
                assert(imm16_field(b[30 + (j - 30)]) == MAGIC_BUFFER_ADDR[j - 30] as int);
            } else if 21 <= j < 25 {
                assert(imm16_field(b[21 + (j - 21)]) == MAGIC_GOID_OFFSET[j - 21] as int);
            } else if 16 <= j < 20 {
                assert(imm16_field(b[16 + (j - 16)]) == MAGIC_HEADER_VAL[j - 16] as int);
            } else {
                assert(outside_placeholders(imm16_field(b[j])));
            }
        }
        assert(imm16_field(b[30 + k]) == MAGIC_BUFFER_ADDR[k] as int);
        lemma_find_imm16(b, MAGIC_BUFFER_ADDR[k] as int, 0, 30 + k);
    }
    assert(magic_positions(b, MAGIC_HEADER_VAL) =~= seq![16int, 17, 18, 19]);
    assert(magic_positions(b, MAGIC_GOID_OFFSET) =~= seq![21int, 22, 23, 24]);
    assert(magic_positions(b, MAGIC_BUFFER_ADDR) =~= seq![30int, 31, 32, 33]);
}

/// Patching four consecutive positions is `with_chunks` there.
proof fn lemma_patched_at_run(ws: Seq<u32>, at: int, value: u64)
    requires
        0 <= at,
        at + 4 <= ws.len(),
    ensures
        patched_at(ws, seq![at, at + 1, at + 2, at + 3], value) == with_chunks(ws, at, value, 4),
{
    assert(patched_at(ws, seq![at, at + 1, at + 2, at + 3], value) =~= with_chunks(ws, at, value, 4));
}

/// Builds a trampoline body from the blob, with `header_val`, the goroutine-id
/// field offset and the event buffer address patched into its placeholders.
pub fn build_trampoline_from_blob(header_val: u64, goid_offset: u64, buffer_addr: u64) -> (r: Instructions)
    ensures
        r@ == patched_blob_words(header_val, goid_offset, buffer_addr),
{
    let mut words = blob_words();
    proof {
        lemma_blob_positions();
        lemma_blob_layout();
    }
    let header_pos = find_magic_positions(&words, &MAGIC_HEADER_VAL);
    let goid_pos = find_magic_positions(&words, &MAGIC_GOID_OFFSET);
    let buffer_pos = find_magic_positions(&words, &MAGIC_BUFFER_ADDR);
    assert(Seq::new(4, |k: int| header_pos@[k] as int) =~= seq![16int, 17, 18, 19]);
    assert(Seq::new(4, |k: int| goid_pos@[k] as int) =~= seq![21int, 22, 23, 24]);
    assert(Seq::new(4, |k: int| buffer_pos@[k] as int) =~= seq![30int, 31, 32, 33]);
    let ghost w0 = words@;
    patch_at_positions(&mut words, &header_pos, header_val);
    proof {
        lemma_patched_at_run(w0, 16, header_val);
    }
    let ghost w1 = words@;
    patch_at_positions(&mut words, &goid_pos, goid_offset);
    proof {
        lemma_patched_at_run(w1, 21, goid_offset);
    }
    let ghost w2 = words@;
    patch_at_positions(&mut words, &buffer_pos, buffer_addr);
    proof {
        lemma_patched_at_run(w2, 30, buffer_addr);
    }

    let mut instructions = Instructions::new();
    let n = words.len();
    let mut i: usize = 0;
    while i < n
        invariant
            n == words@.len(),
            i <= n,
            instructions@ == words@.subrange(0, i as int),
        decreases n - i,
    {
        instructions.push(words[i]);
        i += 1;
        assert(words@.subrange(0, i as int) == words@.subrange(0, i - 1) + seq![words@[i - 1]]);
    }
    assert(words@.subrange(0, n as int) == words@);
    instructions
}

} // verus!

verus! {

/// The patched blob has the 64 words of the body.
pub proof fn lemma_patched_blob_len(header_val: u64, goid_offset: u64, buffer_addr: u64)
    ensures
        patched_blob_words(header_val, goid_offset, buffer_addr).len() == 64,
{
    lemma_blob_layout();
}

} // verus!

verus! {

/// The blob's 64 words, as numbers.
spec fn blob_body_numbers() -> Seq<u32> {
    seq![
        0xa9bf07e0u32, 0xa9bf0fe2u32, 0xa9bf17e4u32, 0xa9bf1fe6u32, 0xa9bf27e8u32, 0xa9bf2feau32, 0xa9bf37ecu32, 0xa9bf3feeu32,
        0xa9bf47f0u32, 0xa9bf4ff2u32, 0xa9bf57f4u32, 0xa9bf5ff6u32, 0xa9bf67f8u32, 0xa9bf6ffau32, 0xa9bf77fcu32, 0xd10083ffu32,
        0xd2955420u32, 0xf2b55440u32, 0xf2d55460u32, 0xf2f55480u32, 0xf90003e0u32, 0xd2977621u32, 0xf2b77641u32, 0xf2d77661u32,
        0xf2f77681u32, 0x8b010381u32, 0xf9400021u32, 0xf90007e1u32, 0xd53be040u32, 0xf9000be0u32, 0xd2999829u32, 0xf2b99849u32,
        0xf2d99869u32, 0xf2f99889u32, 0xc8dffd2au32, 0x9240194bu32, 0xd37ced6cu32, 0x8b0b0d8cu32, 0x8b09018cu32, 0x9101018cu32,
        0xf94003edu32, 0xf900018du32, 0xf94007edu32, 0xf900058du32, 0xf9400bedu32, 0xf900098du32, 0x9100054au32, 0xc89ffd2au32,
        0x910083ffu32, 0xa8c177fcu32, 0xa8c16ffau32, 0xa8c167f8u32, 0xa8c15ff6u32, 0xa8c157f4u32, 0xa8c14ff2u32, 0xa8c147f0u32,
        0xa8c13feeu32, 0xa8c137ecu32, 0xa8c12feau32, 0xa8c127e8u32, 0xa8c11fe6u32, 0xa8c117e4u32, 0xa8c10fe2u32, 0xa8c107e0u32,
    ]
}

proof fn lemma_blob_numbers()
    ensures
        blob_body_words() == blob_body_numbers(),
{
    reveal(blob_body_words);
    assert(push_registers_words() =~= seq![
        0xa9bf07e0u32, 0xa9bf0fe2u32, 0xa9bf17e4u32, 0xa9bf1fe6u32, 0xa9bf27e8u32, 0xa9bf2feau32,
        0xa9bf37ecu32, 0xa9bf3feeu32, 0xa9bf47f0u32, 0xa9bf4ff2u32, 0xa9bf57f4u32, 0xa9bf5ff6u32,
        0xa9bf67f8u32, 0xa9bf6ffau32, 0xa9bf77fcu32,
    ]);
    assert(blob_middle_words() =~= seq![
        0xd10083ffu32, 0xd2955420u32, 0xf2b55440u32, 0xf2d55460u32, 0xf2f55480u32, 0xf90003e0u32,
        0xd2977621u32, 0xf2b77641u32, 0xf2d77661u32, 0xf2f77681u32, 0x8b010381u32, 0xf9400021u32,
        0xf90007e1u32, 0xd53be040u32, 0xf9000be0u32, 0xd2999829u32, 0xf2b99849u32, 0xf2d99869u32,
        0xf2f99889u32, 0xc8dffd2au32, 0x9240194bu32, 0xd37ced6cu32, 0x8b0b0d8cu32, 0x8b09018cu32,
        0x9101018cu32, 0xf94003edu32, 0xf900018du32, 0xf94007edu32, 0xf900058du32, 0xf9400bedu32,
        0xf900098du32, 0x9100054au32, 0xc89ffd2au32, 0x910083ffu32,
    ]);
    assert(pop_registers_words() =~= seq![
        0xa8c177fcu32, 0xa8c16ffau32, 0xa8c167f8u32, 0xa8c15ff6u32, 0xa8c157f4u32, 0xa8c14ff2u32,
        0xa8c147f0u32, 0xa8c13feeu32, 0xa8c137ecu32, 0xa8c12feau32, 0xa8c127e8u32, 0xa8c11fe6u32,
        0xa8c117e4u32, 0xa8c10fe2u32, 0xa8c107e0u32,
    ]);
    assert(blob_body_words() =~= blob_body_numbers());
}

/// Outside the range of the placeholder halfwords.
spec fn outside_placeholders(x: int) -> bool {
    x < 0xAAA1 || x > 0xCCC4
}

/// Only the wide moves that load the header, the goroutine-id offset and the
/// buffer address carry placeholder-range halfwords.
proof fn lemma_blob_placeholder_positions()
    ensures
        forall|q: int| 0 <= q < 64 && !(16 <= q < 20 || 21 <= q < 25 || 30 <= q < 34) ==> outside_placeholders(
            #[trigger] imm16_field(blob_body_words()[q]),
        ),
{
    lemma_blob_numbers();
    let n = blob_body_numbers();
    assert(outside_placeholders(imm16_field(n[0])));
    assert(outside_placeholders(imm16_field(n[1])));
    assert(outside_placeholders(imm16_field(n[2])));
    assert(outside_placeholders(imm16_field(n[3])));
    assert(outside_placeholders(imm16_field(n[4])));
    assert(outside_placeholders(imm16_field(n[5])));
    assert(outside_placeholders(imm16_field(n[6])));
    assert(outside_placeholders(imm16_field(n[7])));
    assert(outside_placeholders(imm16_field(n[8])));
    assert(outside_placeholders(imm16_field(n[9])));
    assert(outside_placeholders(imm16_field(n[10])));
    assert(outside_placeholders(imm16_field(n[11])));
    assert(outside_placeholders(imm16_field(n[12])));
    assert(outside_placeholders(imm16_field(n[13])));
    assert(outside_placeholders(imm16_field(n[14])));
    assert(outside_placeholders(imm16_field(n[15])));
    assert(outside_placeholders(imm16_field(n[20])));
    assert(outside_placeholders(imm16_field(n[25])));
    assert(outside_placeholders(imm16_field(n[26])));
    assert(outside_placeholders(imm16_field(n[27])));
    assert(outside_placeholders(imm16_field(n[28])));
    assert(outside_placeholders(imm16_field(n[29])));
    assert(outside_placeholders(imm16_field(n[34])));
    assert(outside_placeholders(imm16_field(n[35])));
    assert(outside_placeholders(imm16_field(n[36])));
    assert(outside_placeholders(imm16_field(n[37])));
    assert(outside_placeholders(imm16_field(n[38])));
    assert(outside_placeholders(imm16_field(n[39])));
    assert(outside_placeholders(imm16_field(n[40])));
    assert(outside_placeholders(imm16_field(n[41])));
    assert(outside_placeholders(imm16_field(n[42])));
    assert(outside_placeholders(imm16_field(n[43])));
    assert(outside_placeholders(imm16_field(n[44])));
    assert(outside_placeholders(imm16_field(n[45])));
    assert(outside_placeholders(imm16_field(n[46])));
    assert(outside_placeholders(imm16_field(n[47])));
    assert(outside_placeholders(imm16_field(n[48])));
    assert(outside_placeholders(imm16_field(n[49])));
    assert(outside_placeholders(imm16_field(n[50])));
    assert(outside_placeholders(imm16_field(n[51])));
    assert(outside_placeholders(imm16_field(n[52])));
    assert(outside_placeholders(imm16_field(n[53])));
    assert(outside_placeholders(imm16_field(n[54])));
    assert(outside_placeholders(imm16_field(n[55])));
    assert(outside_placeholders(imm16_field(n[56])));
    assert(outside_placeholders(imm16_field(n[57])));
    assert(outside_placeholders(imm16_field(n[58])));
    assert(outside_placeholders(imm16_field(n[59])));
    assert(outside_placeholders(imm16_field(n[60])));
    assert(outside_placeholders(imm16_field(n[61])));
    assert(outside_placeholders(imm16_field(n[62])));
    assert(outside_placeholders(imm16_field(n[63])));
    assert forall|q: int| 0 <= q < 64 && !(16 <= q < 20 || 21 <= q < 25 || 30 <= q < 34) implies outside_placeholders(
        #[trigger] imm16_field(blob_body_words()[q]),
    ) by {
        assert(q == 0 || q == 1 || q == 2 || q == 3 || q == 4 || q == 5 || q == 6 || q == 7 || q == 8 || q == 9 || q == 10 || q == 11 || q == 12 || q == 13 || q == 14 || q == 15 || q == 20 || q == 25 || q == 26 || q == 27 || q == 28 || q == 29 || q == 34 || q == 35 || q == 36 || q == 37 || q == 38 || q == 39 || q == 40 || q == 41 || q == 42 || q == 43 || q == 44 || q == 45 || q == 46 || q == 47 || q == 48 || q == 49 || q == 50 || q == 51 || q == 52 || q == 53 || q == 54 || q == 55 || q == 56 || q == 57 || q == 58 || q == 59 || q == 60 || q == 61 || q == 62 || q == 63);
    }
}

/// `ws` with the words at `at..at + k` carrying the chunks `0..k` of `value`.
pub open spec fn with_chunks(ws: Seq<u32>, at: int, value: u64, k: int) -> Seq<u32> {
    Seq::new(ws.len(), |q: int| if at <= q < at + k { with_imm16(ws[q], chunk16(value, (q - at) as nat) as int) } else { ws[q] })
}

proof fn lemma_movz_imm(rd: u32, m: u32, c: u32, hw: u32)
    requires
        rd < 32,
        m < 0x1_0000,
        c < 0x1_0000,
        hw < 4,
    ensures
        with_imm16(movz_word(rd, m, hw), c as int) == movz_word(rd, c, hw),
        with_imm16(movk_word(rd, m, hw), c as int) == movk_word(rd, c, hw),
{
    lemma_wide_imm16(rd, m, hw);
}

/// The blob's wide moves that carry the placeholders.
proof fn lemma_blob_moves()
    ensures
        ({
            let b = blob_body_words();
            &&& b[16] == movz_word(0, MAGIC_HEADER_VAL[0] as u32, 0)
            &&& b[17] == movk_word(0, MAGIC_HEADER_VAL[1] as u32, 1)
            &&& b[18] == movk_word(0, MAGIC_HEADER_VAL[2] as u32, 2)
            &&& b[19] == movk_word(0, MAGIC_HEADER_VAL[3] as u32, 3)
            &&& b[21] == movz_word(1, MAGIC_GOID_OFFSET[0] as u32, 0)
            &&& b[22] == movk_word(1, MAGIC_GOID_OFFSET[1] as u32, 1)
            &&& b[23] == movk_word(1, MAGIC_GOID_OFFSET[2] as u32, 2)
            &&& b[24] == movk_word(1, MAGIC_GOID_OFFSET[3] as u32, 3)
            &&& b[30] == movz_word(9, MAGIC_BUFFER_ADDR[0] as u32, 0)
            &&& b[31] == movk_word(9, MAGIC_BUFFER_ADDR[1] as u32, 1)
            &&& b[32] == movk_word(9, MAGIC_BUFFER_ADDR[2] as u32, 2)
            &&& b[33] == movk_word(9, MAGIC_BUFFER_ADDR[3] as u32, 3)
        }),
{
    reveal(blob_body_words);
    let m = blob_middle_words();
    assert(push_registers_words().len() == 15);
    assert forall|j: int| 0 <= j < 34 implies blob_body_words()[15 + j] == #[trigger] m[j] by {
        assert((push_registers_words() + m)[15 + j] == m[j]);
    }
    assert(blob_body_words()[16] == m[1]);
    assert(blob_body_words()[17] == m[2]);
    assert(blob_body_words()[18] == m[3]);
    assert(blob_body_words()[19] == m[4]);
    assert(blob_body_words()[21] == m[6]);
    assert(blob_body_words()[22] == m[7]);
    assert(blob_body_words()[23] == m[8]);
    assert(blob_body_words()[24] == m[9]);
    assert(blob_body_words()[30] == m[15]);
    assert(blob_body_words()[31] == m[16]);
    assert(blob_body_words()[32] == m[17]);
    assert(blob_body_words()[33] == m[18]);
}

/// A placeholder quartet with the chunks of `value` patched in is the full
/// load of `value`.
proof fn lemma_quartet(ws: Seq<u32>, at: int, rd: u32, magics: [u16; 4], value: u64)
    requires
        0 <= at,
        at + 4 <= ws.len(),
        rd < 32,
        ws[at] == movz_word(rd, magics[0] as u32, 0),
        ws[at + 1] == movk_word(rd, magics[1] as u32, 1),
        ws[at + 2] == movk_word(rd, magics[2] as u32, 2),
        ws[at + 3] == movk_word(rd, magics[3] as u32, 3),
    ensures
        with_chunks(ws, at, value, 4).subrange(at, at + 4) == full_mov_words(rd, value),
{
    lemma_chunk_values(value);
    let p = with_chunks(ws, at, value, 4);
    lemma_movz_imm(rd, magics[0] as u32, chunk16(value, 0), 0);
    lemma_movz_imm(rd, magics[1] as u32, chunk16(value, 1), 1);
    lemma_movz_imm(rd, magics[2] as u32, chunk16(value, 2), 2);
    lemma_movz_imm(rd, magics[3] as u32, chunk16(value, 3), 3);
    assert(p[at] == movz_word(rd, chunk16(value, 0), 0));
    assert(p[at + 1] == movk_word(rd, chunk16(value, 1), 1));
    assert(p[at + 2] == movk_word(rd, chunk16(value, 2), 2));
    assert(p[at + 3] == movk_word(rd, chunk16(value, 3), 3));
    assert(p.subrange(at, at + 4) =~= full_mov_words(rd, value));
}

/// The patched trampoline body loads the header value into x0, the offset of
/// the goroutine id into x1 and the buffer address into x9, each with four
/// wide moves, and is the blob elsewhere, whatever the three values are.
pub proof fn lemma_patched_blob_loads(header_val: u64, goid_offset: u64, buffer_addr: u64, reg: int)
    ensures
        ({
            let p = patched_blob_words(header_val, goid_offset, buffer_addr);
            &&& p.len() == 64
            &&& p.subrange(16, 20) == full_mov_words(0, header_val)
            &&& p.subrange(21, 25) == full_mov_words(1, goid_offset)
            &&& p.subrange(30, 34) == full_mov_words(9, buffer_addr)
            &&& forall|q: int| 0 <= q < 64 && !(16 <= q < 20 || 21 <= q < 25 || 30 <= q < 34) ==> #[trigger] p[q]
                == blob_body_words()[q]
        }),
        run_wide_moves(reg, full_mov_words(0, header_val)) == header_val,
        run_wide_moves(reg, full_mov_words(1, goid_offset)) == goid_offset,
        run_wide_moves(reg, full_mov_words(9, buffer_addr)) == buffer_addr,
        forall|k: int| 0 <= k < 4 ==> rd_field(#[trigger] full_mov_words(0, header_val)[k]) == 0,
        forall|k: int| 0 <= k < 4 ==> rd_field(#[trigger] full_mov_words(1, goid_offset)[k]) == 1,
        forall|k: int| 0 <= k < 4 ==> rd_field(#[trigger] full_mov_words(9, buffer_addr)[k]) == 9,
{
    lemma_blob_layout();
    lemma_blob_moves();
    let b = blob_body_words();
    let w1 = with_chunks(b, 16, header_val, 4);
    let w2 = with_chunks(w1, 21, goid_offset, 4);
    let p = with_chunks(w2, 30, buffer_addr, 4);
    assert(p == patched_blob_words(header_val, goid_offset, buffer_addr));
    lemma_quartet(b, 16, 0, MAGIC_HEADER_VAL, header_val);
    lemma_quartet(w1, 21, 1, MAGIC_GOID_OFFSET, goid_offset);
    lemma_quartet(w2, 30, 9, MAGIC_BUFFER_ADDR, buffer_addr);
    assert(p.subrange(16, 20) =~= w1.subrange(16, 20));
    assert(p.subrange(21, 25) =~= w2.subrange(21, 25));
    lemma_full_mov_loads_value(0, header_val, reg);
    lemma_full_mov_loads_value(1, goid_offset, reg);
    lemma_full_mov_loads_value(9, buffer_addr, reg);
}

/// The patched body reads the goroutine id through x28: its words 21..27
/// (the load of the field offset into x1, `add x1, x28, x1` and
/// `ldr x1, [x1]`) leave in x1 the doubleword that memory holds at x28 plus
/// the offset, whatever the registers and memory hold.
pub proof fn lemma_patched_blob_reads_goid(
    header_val: u64,
    goid_offset: u64,
    buffer_addr: u64,
    regs: Seq<int>,
    mem: spec_fn(int) -> int,
)
    requires
        regs.len() == 32,
    ensures
        run_words(regs, mem, patched_blob_words(header_val, goid_offset, buffer_addr).subrange(21, 27))[1]
            == mem((regs[28] + goid_offset) % 0x1_0000_0000_0000_0000),
{
    let p = patched_blob_words(header_val, goid_offset, buffer_addr);
    lemma_patched_blob_loads(header_val, goid_offset, buffer_addr, 0);
    lemma_blob_numbers();
    assert(p[25] == blob_body_words()[25]);
    assert(p[26] == blob_body_words()[26]);
    assert(p[25] == 0x8b010381u32);
    assert(p[26] == 0xf9400021u32);
    let ws = p.subrange(21, 27);
    let moves = p.subrange(21, 25);
    assert(moves == full_mov_words(1, goid_offset));
    lemma_full_mov_registers(1, goid_offset, regs, mem);
    lemma_run_words_append(regs, mem, moves, seq![0x8b010381u32, 0xf9400021u32]);
    assert(ws =~= moves + seq![0x8b010381u32, 0xf9400021u32]);
    let r4 = regs.update(1, goid_offset as int);
    let r5 = word_effect(r4, mem, 0x8b010381u32);
    assert(r5 == r4.update(1, (regs[28] + goid_offset) % 0x1_0000_0000_0000_0000));
    let r6 = word_effect(r5, mem, 0xf9400021u32);
    assert(r6[1] == mem((regs[28] + goid_offset) % 0x1_0000_0000_0000_0000));
    reveal_with_fuel(run_words, 3);
    assert(seq![0x8b010381u32, 0xf9400021u32].drop_first() =~= seq![0xf9400021u32]);
    assert(seq![0xf9400021u32].drop_first() =~= Seq::<u32>::empty());
}

proof fn lemma_run_words_append(regs: Seq<int>, mem: spec_fn(int) -> int, a: Seq<u32>, b: Seq<u32>)
    ensures
        run_words(regs, mem, a + b) == run_words(run_words(regs, mem, a), mem, b),
    decreases a.len(),
{
    if a.len() > 0 {
        assert((a + b).drop_first() =~= a.drop_first() + b);
        lemma_run_words_append(word_effect(regs, mem, a[0]), mem, a.drop_first(), b);
    } else {
        assert(a + b =~= b);
    }
}

proof fn lemma_shl_small(x: int)
    requires
        0 <= x < 0x1_0000_0000_0000_0000,
    ensures
        shl64(x, 0) == x,
        x < 128 ==> shl64(x, 3) == 8 * x,
        x < 128 ==> shl64(x, 4) == 16 * x,
        vstd::arithmetic::power2::pow2(7) == 128,
{
    vstd::arithmetic::power2::lemma2_to64();
    vstd::arithmetic::div_mod::lemma_small_mod(x as nat, word_range() as nat);
    assert(vstd::arithmetic::power2::pow2(0int as nat) == 1);
    assert(vstd::arithmetic::power2::pow2(3int as nat) == 8);
    assert(vstd::arithmetic::power2::pow2(4int as nat) == 16);
    assert(x * 1 == x);
    assert(x * 8 == 8 * x);
    assert(x * 16 == 16 * x);
    if x < 128 {
        vstd::arithmetic::div_mod::lemma_small_mod((8 * x) as nat, word_range() as nat);
        vstd::arithmetic::div_mod::lemma_small_mod((16 * x) as nat, word_range() as nat);
    }
}

/// The ring-buffer store and the stack release, from a stack holding the
/// event at `sp` and x9 holding the buffer address `b`: the event's three
/// words go to the slot the counter at `b` picks, then the counter, one
/// more, is published at `b`.
proof fn lemma_ring_store(m: MachineState, sp: int, b: int, h: int, goid: int, clock: int)
    requires
        m.regs.len() == 32,
        m.regs[31] == sp,
        m.regs[9] == b,
        (m.mem)(sp) == h,
        (m.mem)(sp + 8) == goid,
        (m.mem)(sp + 16) == clock,
        0 <= (m.mem)(b) < 0x1_0000_0000_0000_0000,
        0 <= sp,
        sp + 32 < 0x1_0000_0000_0000_0000,
        0 <= b,
        b + 4096 <= 0x1_0000_0000_0000_0000,
        sp + 32 <= b || b + 4096 <= sp,
    ensures
        ({
            let r = run_machine(m, ring_buffer_store_words() + seq![ADD_SP_32], clock);
            let c = (m.mem)(b);
            let slot = b + 64 + 24 * (c % 128);
            &&& r.stores == m.stores + seq![(slot, h), (slot + 8, goid), (slot + 16, clock), (b, (c + 1) % word_range())]
            &&& r.regs[31] == sp + 32
        }),
{
    let ws = ring_buffer_store_words() + seq![ADD_SP_32];
    assert(ws =~= seq![
        0xc8dffd2au32, 0x9240194bu32, 0xd37ced6cu32, 0x8b0b0d8cu32, 0x8b09018cu32, 0x9101018cu32, 0xf94003edu32,
        0xf900018du32, 0xf94007edu32, 0xf900058du32, 0xf9400bedu32, 0xf900098du32, 0x9100054au32, 0xc89ffd2au32,
        0x910083ffu32,
    ]);
    let c = (m.mem)(b);
    let x11 = c % 128;
    let slot = b + 64 + 24 * x11;
    lemma_shl_small(x11);
    lemma_shl_small(b);
    assert(ws.subrange(0, 0) =~= Seq::<u32>::empty());
    lemma_run_machine_prefix(m, ws, 0, clock);
    let m1 = run_machine(m, ws.subrange(0, 1), clock);
    assert(m1.regs[10] == c && m1.regs[9] == b && m1.regs[31] == sp && m1.mem == m.mem && m1.stores == m.stores);
    lemma_run_machine_prefix(m, ws, 1, clock);
    let m2 = run_machine(m, ws.subrange(0, 2), clock);
    assert(m2.regs[11] == x11 && m2.regs[10] == c && m2.regs[9] == b && m2.regs[31] == sp && m2.mem == m.mem
        && m2.stores == m.stores);
    lemma_run_machine_prefix(m, ws, 2, clock);
    let m3 = run_machine(m, ws.subrange(0, 3), clock);
    assert(m3.regs[12] == 16 * x11 && m3.regs[11] == x11 && m3.regs[10] == c && m3.regs[9] == b && m3.regs[31] == sp
        && m3.mem == m.mem && m3.stores == m.stores);
    lemma_run_machine_prefix(m, ws, 3, clock);
    let m4 = run_machine(m, ws.subrange(0, 4), clock);
    assert(m4.regs[12] == 24 * x11 && m4.regs[10] == c && m4.regs[9] == b && m4.regs[31] == sp && m4.mem == m.mem
        && m4.stores == m.stores);
    lemma_run_machine_prefix(m, ws, 4, clock);
    let m5 = run_machine(m, ws.subrange(0, 5), clock);
    assert(m5.regs[12] == 24 * x11 + b && m5.regs[10] == c && m5.regs[9] == b && m5.regs[31] == sp && m5.mem == m.mem
        && m5.stores == m.stores);
    lemma_run_machine_prefix(m, ws, 5, clock);
    let m6 = run_machine(m, ws.subrange(0, 6), clock);
    assert(m6.regs[12] == slot && m6.regs[10] == c && m6.regs[9] == b && m6.regs[31] == sp && m6.mem == m.mem
        && m6.stores == m.stores);
    lemma_run_machine_prefix(m, ws, 6, clock);
    let m7 = run_machine(m, ws.subrange(0, 7), clock);
    assert(m7.regs[13] == h && m7.regs[12] == slot && m7.regs[10] == c && m7.regs[9] == b && m7.regs[31] == sp
        && m7.mem == m.mem && m7.stores == m.stores);
    lemma_run_machine_prefix(m, ws, 7, clock);
    let m8 = run_machine(m, ws.subrange(0, 8), clock);
    assert(m8.regs[12] == slot && m8.regs[10] == c && m8.regs[9] == b && m8.regs[31] == sp);
    assert(m8.stores == m.stores.push((slot, h)));
    assert((m8.mem)(sp + 8) == goid && (m8.mem)(sp + 16) == clock);
    lemma_run_machine_prefix(m, ws, 8, clock);
    let m9 = run_machine(m, ws.subrange(0, 9), clock);
    assert(m9.regs[13] == goid && m9.regs[12] == slot && m9.regs[10] == c && m9.regs[9] == b && m9.regs[31] == sp
        && m9.mem == m8.mem && m9.stores == m8.stores);
    lemma_run_machine_prefix(m, ws, 9, clock);
    let m10 = run_machine(m, ws.subrange(0, 10), clock);
    assert(m10.regs[12] == slot && m10.regs[10] == c && m10.regs[9] == b && m10.regs[31] == sp);
    assert(m10.stores == m8.stores.push((slot + 8, goid)));
    assert((m10.mem)(sp + 16) == clock);
    lemma_run_machine_prefix(m, ws, 10, clock);
    let m11 = run_machine(m, ws.subrange(0, 11), clock);
    assert(m11.regs[13] == clock && m11.regs[12] == slot && m11.regs[10] == c && m11.regs[9] == b
        && m11.regs[31] == sp && m11.mem == m10.mem && m11.stores == m10.stores);
    lemma_run_machine_prefix(m, ws, 11, clock);
    let m12 = run_machine(m, ws.subrange(0, 12), clock);
    assert(m12.regs[10] == c && m12.regs[9] == b && m12.regs[31] == sp);
    assert(m12.stores == m10.stores.push((slot + 16, clock)));
    lemma_run_machine_prefix(m, ws, 12, clock);
    let m13 = run_machine(m, ws.subrange(0, 13), clock);
    assert(m13.regs[10] == (c + 1) % word_range() && m13.regs[9] == b && m13.regs[31] == sp && m13.stores == m12.stores);
    lemma_run_machine_prefix(m, ws, 13, clock);
    let m14 = run_machine(m, ws.subrange(0, 14), clock);
    assert(m14.regs[31] == sp && m14.stores == m12.stores.push((b, (c + 1) % word_range())));
    vstd::arithmetic::div_mod::lemma_small_mod((sp + 32) as nat, word_range() as nat);
    lemma_run_machine_prefix(m, ws, 14, clock);
    let m15 = run_machine(m, ws.subrange(0, 15), clock);
    assert(m15.regs[31] == sp + 32 && m15.stores == m14.stores);
    assert(ws.subrange(0, 15) =~= ws);
    assert(m15.stores =~= m.stores + seq![(slot, h), (slot + 8, goid), (slot + 16, clock), (b, (c + 1) % word_range())]);
}

proof fn lemma_run_one(m: MachineState, w: u32, clock: int)
    ensures
        run_machine(m, seq![w], clock) == machine_step(m, w, clock),
{
    reveal_with_fuel(run_machine, 2);
    assert(seq![w].drop_first() =~= Seq::<u32>::empty());
}

/// The event is built on the stack: from any registers and memory, the
/// words before the ring-buffer store reserve 32 bytes of stack at
/// `sp = x31 - 32`, store the header value there, the goroutine id read at
/// x28 plus the offset at `sp + 8` and the counter value at `sp + 16`, and
/// load the buffer address into x9.
proof fn lemma_event_on_stack(
    header_val: u64,
    goid_offset: u64,
    buffer_addr: u64,
    regs: Seq<int>,
    mem: spec_fn(int) -> int,
    clock: int,
) -> (m: MachineState)
    requires
        regs.len() == 32,
        0 <= regs[28] < word_range(),
        32 <= regs[31] < word_range(),
        (regs[28] + goid_offset) % word_range() != regs[31] - 32,
    ensures
        ({
            let sp = regs[31] - 32;
            let goid = mem((regs[28] + goid_offset) % word_range());
            let ws = seq![SUB_SP_32] + full_mov_words(0, header_val) + seq![STR_X0_SP] + full_mov_words(1, goid_offset)
                + seq![0x8b010381u32, 0xf9400021u32, STR_X1_SP_8, MRS_X0_CNTVCT, STR_X0_SP_16] + full_mov_words(9, buffer_addr);
            &&& m == run_machine(MachineState { regs, mem, stores: Seq::empty() }, ws, clock)
            &&& m.regs.len() == 32
            &&& m.regs[31] == sp
            &&& m.regs[9] == buffer_addr
            &&& (m.mem)(sp) == header_val
            &&& (m.mem)(sp + 8) == goid
            &&& (m.mem)(sp + 16) == clock
            &&& forall|a: int| a != sp && a != sp + 8 && a != sp + 16 ==> #[trigger] (m.mem)(a) == mem(a)
            &&& m.stores == seq![(sp, header_val as int), (sp + 8, goid), (sp + 16, clock)]
        }),
{
    let sp = regs[31] - 32;
    let a = (regs[28] + goid_offset) % word_range();
    let goid = mem(a);
    let m0 = MachineState { regs, mem, stores: Seq::empty() };
    let s0 = seq![SUB_SP_32];
    let f0 = full_mov_words(0, header_val);
    let s1 = seq![STR_X0_SP];
    let f1 = full_mov_words(1, goid_offset);
    let s2 = seq![0x8b010381u32, 0xf9400021u32, STR_X1_SP_8, MRS_X0_CNTVCT, STR_X0_SP_16];
    let f2 = full_mov_words(9, buffer_addr);
    lemma_shl_small(goid_offset as int);
    vstd::arithmetic::div_mod::lemma_small_mod(sp as nat, word_range() as nat);

    lemma_run_one(m0, SUB_SP_32, clock);
    let m1 = run_machine(m0, s0, clock);
    assert(m1.regs == regs.update(31, sp) && m1.mem == mem && m1.stores == Seq::<(int, int)>::empty());
    lemma_machine_full_mov(0, header_val, m1, clock);
    let m2 = run_machine(m1, f0, clock);
    lemma_run_one(m2, STR_X0_SP, clock);
    let m3 = run_machine(m2, s1, clock);
    assert(m3.regs == regs.update(31, sp).update(0, header_val as int));
    assert(m3.stores == seq![(sp, header_val as int)]);
    assert((m3.mem)(sp) == header_val);
    lemma_machine_full_mov(1, goid_offset, m3, clock);
    let m4 = run_machine(m3, f1, clock);
    assert(m4.regs[1] == goid_offset && m4.regs[28] == regs[28] && m4.regs[31] == sp && m4.mem == m3.mem);
    assert(s2.subrange(0, 0) =~= Seq::<u32>::empty());
    lemma_run_machine_prefix(m4, s2, 0, clock);
    let n1 = run_machine(m4, s2.subrange(0, 1), clock);
    assert(n1.regs[1] == a && n1.regs[31] == sp && n1.mem == m3.mem && n1.stores == m3.stores);
    lemma_run_machine_prefix(m4, s2, 1, clock);
    let n2 = run_machine(m4, s2.subrange(0, 2), clock);
    assert(n2.regs[1] == goid && n2.regs[31] == sp && n2.mem == m3.mem && n2.stores == m3.stores);
    lemma_run_machine_prefix(m4, s2, 2, clock);
    let n3 = run_machine(m4, s2.subrange(0, 3), clock);
    assert(n3.regs[31] == sp && n3.stores == m3.stores.push((sp + 8, goid)));
    lemma_run_machine_prefix(m4, s2, 3, clock);
    let n4 = run_machine(m4, s2.subrange(0, 4), clock);
    assert(n4.regs[0] == clock && n4.regs[31] == sp && n4.mem == n3.mem && n4.stores == n3.stores);
    lemma_run_machine_prefix(m4, s2, 4, clock);
    let n5 = run_machine(m4, s2.subrange(0, 5), clock);
    assert(n5.regs[31] == sp && n5.stores == n3.stores.push((sp + 16, clock)));
    assert(s2.subrange(0, 5) =~= s2);
    let m5 = n5;
    lemma_machine_full_mov(9, buffer_addr, m5, clock);
    let m6 = run_machine(m5, f2, clock);
    lemma_run_machine_append(m0, s0, f0, clock);
    lemma_run_machine_append(m0, s0 + f0, s1, clock);
    lemma_run_machine_append(m0, s0 + f0 + s1, f1, clock);
    lemma_run_machine_append(m0, s0 + f0 + s1 + f1, s2, clock);
    lemma_run_machine_append(m0, s0 + f0 + s1 + f1 + s2, f2, clock);
    assert(m6.stores =~= seq![(sp, header_val as int), (sp + 8, goid), (sp + 16, clock)]);
    m6
}

/// The trampoline body appends its event to the ring buffer: from any
/// registers and memory (the stack below x31 and the buffer at
/// `buffer_addr` apart, and the goroutine's field not in the stack word the
/// header goes to), the words between saving and restoring the registers
/// store, in this order, the event on the stack; the header value, the
/// goroutine id read at x28 plus the field offset and the counter value in
/// the slot that `slot_offset` gives for the buffer's count, the one the
/// reader takes that event from; and last the count plus one. The stack
/// pointer is restored.
pub proof fn lemma_trampoline_appends_event(
    header_val: u64,
    goid_offset: u64,
    buffer_addr: u64,
    regs: Seq<int>,
    mem: spec_fn(int) -> int,
    clock: int,
)
    requires
        regs.len() == 32,
        0 <= regs[28] < word_range(),
        32 <= regs[31] < word_range(),
        buffer_addr + BUFFER_SIZE <= word_range(),
        regs[31] <= buffer_addr || buffer_addr + BUFFER_SIZE + 32 <= regs[31],
        (regs[28] + goid_offset) % word_range() != regs[31] - 32,
        0 <= mem(buffer_addr as int) < word_range(),
    ensures
        ({
            let p = patched_blob_words(header_val, goid_offset, buffer_addr);
            let r = run_machine(MachineState { regs, mem, stores: Seq::empty() }, p.subrange(15, 49), clock);
            let sp = regs[31] - 32;
            let goid = mem((regs[28] + goid_offset) % word_range());
            let count = mem(buffer_addr as int);
            let slot = buffer_addr + slot_offset(count as u64);
            &&& r.stores == seq![
                (sp, header_val as int),
                (sp + 8, goid),
                (sp + 16, clock),
                (slot, header_val as int),
                (slot + 8, goid),
                (slot + 16, clock),
                (buffer_addr as int, (count + 1) % word_range()),
            ]
            &&& r.regs[31] == regs[31]
        }),
{
    let p = patched_blob_words(header_val, goid_offset, buffer_addr);
    lemma_patched_blob_loads(header_val, goid_offset, buffer_addr, 0);
    lemma_blob_numbers();
    let ws = seq![SUB_SP_32] + full_mov_words(0, header_val) + seq![STR_X0_SP] + full_mov_words(1, goid_offset)
        + seq![0x8b010381u32, 0xf9400021u32, STR_X1_SP_8, MRS_X0_CNTVCT, STR_X0_SP_16] + full_mov_words(9, buffer_addr);
    let tail = ring_buffer_store_words() + seq![ADD_SP_32];
    assert forall|j: int| 0 <= j < 34 implies #[trigger] p.subrange(15, 49)[j] == (ws + tail)[j] by {
        if 1 <= j < 5 {
            assert(p.subrange(16, 20)[j - 1] == p[15 + j]);
        } else if 6 <= j < 10 {
            assert(p.subrange(21, 25)[j - 6] == p[15 + j]);
        } else if 15 <= j < 19 {
            assert(p.subrange(30, 34)[j - 15] == p[15 + j]);
        } else {
            assert(p[15 + j] == blob_body_words()[15 + j]);
        }
    }
    assert(p.subrange(15, 49) =~= ws + tail);
    let m = lemma_event_on_stack(header_val, goid_offset, buffer_addr, regs, mem, clock);
    let sp = regs[31] - 32;
    let goid = mem((regs[28] + goid_offset) % word_range());
    assert((m.mem)(buffer_addr as int) == mem(buffer_addr as int));
    lemma_ring_store(m, sp, buffer_addr as int, header_val as int, goid, clock);
    lemma_run_machine_append(MachineState { regs, mem, stores: Seq::empty() }, ws, tail, clock);
}

} // verus!
