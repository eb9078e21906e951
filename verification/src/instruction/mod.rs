pub mod encode;
pub mod patch;
pub mod semantics;
pub mod blob;
pub mod codegen;
pub mod trampoline;

use vstd::prelude::*;

verus! {

/// A sequence of 32-bit AArch64 instruction words.
#[derive(Clone)]
pub struct Instructions(Vec<u32>);

impl View for Instructions {
    type V = Seq<u32>;

    closed spec fn view(&self) -> Seq<u32> {
        self.0@
    }
}

impl Instructions {
    /// The words, as a vector.
    pub(crate) fn into_vec(self) -> (r: Vec<u32>)
        ensures
            r@ == self@,
    {
        self.0
    }

    pub fn new() -> (r: Instructions)
        ensures
            r@ == Seq::<u32>::empty(),
    {
        Instructions(Vec::new())
    }

    pub fn push(&mut self, inst: u32)
        ensures
            final(self)@ == old(self)@.push(inst),
    {
        self.0.push(inst);
    }

    pub fn len(&self) -> (r: usize)
        ensures
            r == self@.len(),
    {
        self.0.len()
    }

    pub fn get(&self, index: usize) -> (r: Option<u32>)
        ensures
            r == (if index < self@.len() { Some(self@[index as int]) } else { None }),
    {
        if index < self.0.len() {
            Some(self.0[index])
        } else {
            None
        }
    }

    /// Appends every word of `value`, in order.
    pub fn join(&mut self, value: Instructions)
        ensures
            final(self)@ == old(self)@ + value@,
    {
        let n = value.0.len();
        let mut i: usize = 0;
        assert(value@.subrange(0, n as int) == value@);
        while i < n
            invariant
                n == value@.len(),
                i <= n,
                self@ == old(self)@ + value@.subrange(0, i as int),
            decreases n - i,
        {
            self.push(value.0[i]);
            i += 1;
            assert(value@.subrange(0, i as int) == value@.subrange(0, i - 1) + seq![value@[i - 1]]);
        }
        assert(value@.subrange(0, n as int) == value@);
    }
}

} // verus!

verus! {

/// `ldr x16, #8`: loads the 64-bit literal two words ahead.
pub const LDR_X16_LITERAL_8: u32 = 0x58000050;

/// `br x16`.
pub const BR_X16: u32 = 0xd61f0200;

/// The low 32 bits of the two's complement representation of `v`.
pub open spec fn low_half(v: i64) -> u32 {
    ((v as u64) % 0x1_0000_0000) as u32
}

/// The high 32 bits of the two's complement representation of `v`.
pub open spec fn high_half(v: i64) -> u32 {
    ((v as u64) / 0x1_0000_0000) as u32
}

/// The 64-bit word whose low half is `lo` and high half is `hi`.
pub open spec fn join_halves(lo: u32, hi: u32) -> i64 {
    (lo as u64 + hi as u64 * 0x1_0000_0000) as i64
}

/// The instruction words stored in a sequence of 64-bit memory words: each
/// word contributes its low half, then its high half (little-endian order).
pub open spec fn words_of_i64s(v: Seq<i64>) -> Seq<u32>
    decreases v.len(),
{
    if v.len() == 0 {
        Seq::empty()
    } else {
        seq![low_half(v[0]), high_half(v[0])] + words_of_i64s(v.drop_first())
    }
}

/// The 64-bit memory words holding consecutive pairs of instruction words; an
/// unpaired last instruction is dropped.
pub open spec fn i64s_of_words(w: Seq<u32>) -> Seq<i64>
    decreases w.len(),
{
    if w.len() < 2 {
        Seq::empty()
    } else {
        seq![join_halves(w[0], w[1])] + i64s_of_words(w.subrange(2, w.len() as int))
    }
}

/// Target address of `jump_to_abs`: an `ldr x16, #8; br x16` followed by the
/// address as a little-endian 64-bit literal.
pub open spec fn jump_words(target_addr: u64) -> Seq<u32> {
    seq![
        LDR_X16_LITERAL_8,
        BR_X16,
        (target_addr % 0x1_0000_0000) as u32,
        (target_addr / 0x1_0000_0000) as u32,
    ]
}

proof fn lemma_halves(v: i64, lo: u32, hi: u32)
    by (bit_vector)
    ensures
        (v as u32) == ((v as u64) % 0x1_0000_0000) as u32,
        ((v >> 32u64) as u32) == ((v as u64) / 0x1_0000_0000) as u32,
        (((hi as i64) << 32u64) | ((lo as i64) & 0xFFFFFFFFi64)) == (lo as u64 + hi as u64 * 0x1_0000_0000) as i64,
{
}

proof fn lemma_u64_halves(t: u64)
    by (bit_vector)
    ensures
        (t as u32) == (t % 0x1_0000_0000) as u32,
        ((t >> 32u64) as u32) == (t / 0x1_0000_0000) as u32,
{
}

/// Emits an absolute jump to `target_addr` through x16.
pub fn jump_to_abs(target_addr: u64) -> (r: Instructions)
    ensures
        r@ == jump_words(target_addr),
{
    let mut instructions = Instructions::new();
    instructions.push(0x58000050u32);
    instructions.push(0xd61f0200u32);
    let low = target_addr as u32;
    let high = (target_addr >> 32) as u32;
    proof {
        lemma_u64_halves(target_addr);
    }
    instructions.push(low);
    instructions.push(high);
    instructions
}

pub(crate) proof fn lemma_halves_join(v: i64, lo: u32, hi: u32)
    by (bit_vector)
    ensures
        (((v as u64) % 0x1_0000_0000) as u32 as u64 + ((v as u64) / 0x1_0000_0000) as u32 as u64 * 0x1_0000_0000) as i64
            == v,
        (((lo as u64 + hi as u64 * 0x1_0000_0000) as i64) as u64 % 0x1_0000_0000) as u32 == lo,
        (((lo as u64 + hi as u64 * 0x1_0000_0000) as i64) as u64 / 0x1_0000_0000) as u32 == hi,
{
}

/// Splitting memory words into instructions and packing them again gives the
/// words back.
pub proof fn lemma_words_roundtrip(v: Seq<i64>)
    ensures
        i64s_of_words(words_of_i64s(v)) == v,
    decreases v.len(),
{
    if v.len() > 0 {
        let w = words_of_i64s(v);
        lemma_words_roundtrip(v.drop_first());
        lemma_halves_join(v[0], 0, 0);
        assert(w.subrange(2, w.len() as int) =~= words_of_i64s(v.drop_first()));
        assert(v =~= seq![v[0]] + v.drop_first());
    }
}

/// Packing an even number of instructions into memory words and splitting
/// them again gives the instructions back.
pub proof fn lemma_pairs_roundtrip(w: Seq<u32>)
    requires
        w.len() % 2 == 0,
    ensures
        words_of_i64s(i64s_of_words(w)) == w,
    decreases w.len(),
{
    if w.len() >= 2 {
        let rest = w.subrange(2, w.len() as int);
        lemma_pairs_roundtrip(rest);
        lemma_halves_join(0, w[0], w[1]);
        let v = i64s_of_words(w);
        assert(v.drop_first() =~= i64s_of_words(rest));
        assert(w =~= seq![w[0], w[1]] + rest);
    } else {
        assert(w =~= Seq::<u32>::empty());
    }
}

impl Instructions {
    /// The instructions held by the 64-bit memory words `value`, in memory order.
    pub fn from_words(value: Vec<i64>) -> (r: Instructions)
        ensures
            r@ == words_of_i64s(value@),
    {
        let mut instruction = Instructions::new();
        let n = value.len();
        let mut i: usize = 0;
        assert(value@.subrange(0, n as int) == value@);
        while i < n
            invariant
                n == value@.len(),
                i <= n,
                instruction@ + words_of_i64s(value@.subrange(i as int, n as int)) == words_of_i64s(value@),
            decreases n - i,
        {
            let v = value[i];
            let high = v as u32;
            let low = (v >> 32) as u32;
            proof {
                lemma_halves(v, 0, 0);
                assert(value@.subrange(i as int, n as int).drop_first() == value@.subrange(i + 1, n as int));
            }
            instruction.push(high);
            instruction.push(low);
            i += 1;
        }
        assert(value@.subrange(n as int, n as int) == Seq::<i64>::empty());
        instruction
    }

    /// The two instructions held by one 64-bit memory word.
    pub fn from_word(value: i64) -> (r: Instructions)
        ensures
            r@ == seq![low_half(value), high_half(value)],
    {
        let mut instruction = Instructions::new();
        let high = value as u32;
        let low = (value >> 32) as u32;
        proof {
            lemma_halves(value, 0, 0);
        }
        instruction.push(high);
        instruction.push(low);
        instruction
    }

    /// Packs consecutive pairs of instructions into 64-bit memory words; an
    /// unpaired last instruction is dropped.
    pub fn into_words(self) -> (r: Vec<i64>)
        ensures
            r@ == i64s_of_words(self@),
    {
        let mut out: Vec<i64> = Vec::new();
        let n = self.0.len();
        let mut i: usize = 0;
        assert(self@.subrange(0, n as int) == self@);
        while i + 1 < n
            invariant
                n == self@.len(),
                i <= n,
                i % 2 == 0,
                out@ + i64s_of_words(self@.subrange(i as int, n as int)) == i64s_of_words(self@),
            decreases n - i,
        {
            let low = self.0[i] as i64;
            let high = self.0[i + 1] as i64;
            proof {
                lemma_halves(0, self.0[i as int], self.0[i + 1]);
                let s = self@.subrange(i as int, n as int);
                assert(s.subrange(2, s.len() as int) == self@.subrange(i + 2, n as int));
            }
            out.push((high << 32) | (low & 0xFFFFFFFF));
            i += 2;
        }
        assert(self@.subrange(i as int, n as int).len() < 2);
        out
    }
}

} // verus!

verus! {

/// `sub sp, sp, #32`.
pub const SUB_SP_32: u32 = 0xd10083ff;

/// `add sp, sp, #32`.
pub const ADD_SP_32: u32 = 0x910083ff;

/// `str x0, [sp]`.
pub const STR_X0_SP: u32 = 0xf90003e0;

/// `str x0, [sp, #8]`.
pub const STR_X0_SP_8: u32 = 0xf90007e0;

/// `str x1, [sp, #8]`.
pub const STR_X1_SP_8: u32 = 0xf90007e1;

/// `mrs x0, cntvct_el0`.
pub const MRS_X0_CNTVCT: u32 = 0xd53be040;

/// `str x0, [sp, #16]`.
pub const STR_X0_SP_16: u32 = 0xf9000be0;

/// Appends the 24-byte event at `[sp]` to the ring buffer whose address is in
/// x9: `ldar x10, [x9]`; `and x11, x10, #127`; `x12 = x9 + 64 + 24 * x11`;
/// copy three words from the stack to `[x12]`; `stlr x10 + 1, [x9]`.
pub open spec fn ring_buffer_store_words() -> Seq<u32> {
    seq![
        0xc8dffd2au32,
        0x9240194bu32,
        0xd37ced6cu32,
        0x8b0b0d8cu32,
        0x8b09018cu32,
        0x9101018cu32,
        0xf94003edu32,
        0xf900018du32,
        0xf94007edu32,
        0xf900058du32,
        0xf9400bedu32,
        0xf900098du32,
        0x9100054au32,
        0xc89ffd2au32,
    ]
}

/// Appends the ring-buffer store sequence.
pub fn push_ring_buffer_store(instructions: &mut Instructions)
    ensures
        final(instructions)@ == old(instructions)@ + ring_buffer_store_words(),
{
    instructions.push(0xc8dffd2a);
    instructions.push(0x9240194b);
    instructions.push(0xd37ced6c);
    instructions.push(0x8b0b0d8c);
    instructions.push(0x8b09018c);
    instructions.push(0x9101018c);
    instructions.push(0xf94003ed);
    instructions.push(0xf900018d);
    instructions.push(0xf94007ed);
    instructions.push(0xf900058d);
    instructions.push(0xf9400bed);
    instructions.push(0xf900098d);
    instructions.push(0x9100054a);
    instructions.push(0xc89ffd2a);
    assert(final(instructions)@ =~= old(instructions)@ + ring_buffer_store_words());
}

} // verus!

verus! {

/// The part of a trampoline that records an event: save x0-x29, reserve 32
/// bytes of stack, load the event header into x0 with `header_words` and store
/// it, load the goroutine id from `[x28 + goid_offset]` and store it, store
/// the timestamp, append the three words to the ring buffer at
/// `buffer_addr`, release the stack and restore the registers.
pub open spec fn record_event_words(header_words: Seq<u32>, goid_offset: u64, buffer_addr: u64) -> Seq<u32> {
    encode::push_registers_words() + seq![SUB_SP_32] + header_words + seq![STR_X0_SP]
        + encode::load_field_words(0, 28, goid_offset) + seq![STR_X0_SP_8, MRS_X0_CNTVCT, STR_X0_SP_16]
        + encode::large_mov_words(9, buffer_addr) + ring_buffer_store_words() + seq![ADD_SP_32]
        + encode::pop_registers_words()
}

/// Emits the event-recording part of a trampoline.
pub fn record_event(header: Instructions, goid_offset: u64, buffer_addr: u64) -> (r: Instructions)
    ensures
        r@ == record_event_words(header@, goid_offset, buffer_addr),
{
    let mut instructions = encode::push_registers_to_stack();
    instructions.push(SUB_SP_32);
    instructions.join(header);
    instructions.push(STR_X0_SP);
    instructions.join(encode::load_field_from_register(0, 28, goid_offset));
    instructions.push(STR_X0_SP_8);
    instructions.push(MRS_X0_CNTVCT);
    instructions.push(STR_X0_SP_16);
    instructions.join(encode::build_large_mov(9, buffer_addr));
    push_ring_buffer_store(&mut instructions);
    instructions.push(ADD_SP_32);
    instructions.join(encode::pop_registers_from_stack());
    instructions
}

/// Builds trampolines.
pub trait TrampolineBuilder {
    /// The words that `build` emits.
    spec fn built_words(
        &self,
        buffer_addr: u64,
        replaced_addr: u64,
        inst1: u32,
        inst2: u32,
        inst3: u32,
        inst4: u32,
        event_type: u8,
        goid_offset: u64,
    ) -> Seq<u32>;

    /// Builds a trampoline recording an event of type `event_type` into the
    /// buffer at `buffer_addr`, then executing the four instructions that the
    /// patch at `replaced_addr` overwrote and resuming after them.
    fn build(
        &self,
        buffer_addr: u64,
        replaced_addr: u64,
        inst1: u32,
        inst2: u32,
        inst3: u32,
        inst4: u32,
        event_type: u8,
        runtime_offsets: &crate::dwarf::RuntimeOffsets,
    ) -> (r: Instructions)
        requires
            replaced_addr + 16 <= u64::MAX,
        ensures
            r@ == self.built_words(
                buffer_addr,
                replaced_addr,
                inst1,
                inst2,
                inst3,
                inst4,
                event_type,
                runtime_offsets.goid,
            ),
    ;
}

/// Builds the trampoline of a function entry: the event header is just the
/// event type.
pub struct EntryTrampolineBuilder();

impl TrampolineBuilder for EntryTrampolineBuilder {
    open spec fn built_words(
        &self,
        buffer_addr: u64,
        replaced_addr: u64,
        inst1: u32,
        inst2: u32,
        inst3: u32,
        inst4: u32,
        event_type: u8,
        goid_offset: u64,
    ) -> Seq<u32> {
        record_event_words(seq![encode::movz_word(0, event_type as u32, 0)], goid_offset, buffer_addr)
            + seq![inst1, inst2, inst3, inst4] + jump_words((replaced_addr + 16) as u64)
    }

    fn build(
        &self,
        buffer_addr: u64,
        replaced_addr: u64,
        inst1: u32,
        inst2: u32,
        inst3: u32,
        inst4: u32,
        event_type: u8,
        runtime_offsets: &crate::dwarf::RuntimeOffsets,
    ) -> (r: Instructions) {
        let mut header = Instructions::new();
        header.push(encode::build_movz(0, event_type as u32, 0));
        let mut instructions = record_event(header, runtime_offsets.goid, buffer_addr);
        instructions.push(inst1);
        instructions.push(inst2);
        instructions.push(inst3);
        instructions.push(inst4);
        instructions.join(jump_to_abs(replaced_addr + 16));
        assert(instructions@ =~= self.built_words(
            buffer_addr,
            replaced_addr,
            inst1,
            inst2,
            inst3,
            inst4,
            event_type,
            runtime_offsets.goid,
        ));
        instructions
    }
}

} // verus!
