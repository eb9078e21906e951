use vstd::prelude::*;

use crate::event::TRACE_EVENT_SIZE;

verus! {

/// The size of a shared event buffer.
pub const BUFFER_SIZE: usize = 4096;

/// The number of event slots in a buffer.
pub const BUFFER_CAPACITY: u64 = 128;

/// The bytes before the first slot; the buffer starts with the 64-bit count of
/// events written so far.
pub const BUFFER_HEADER_SIZE: usize = 64;

/// The offset in the buffer of the slot that holds event number `pos`.
pub open spec fn slot_offset(pos: u64) -> int {
    BUFFER_HEADER_SIZE + (pos % BUFFER_CAPACITY) * TRACE_EVENT_SIZE
}

/// Reads the events of a buffer in order: it follows the count of events
/// written, and knows which slot holds the next one.
pub struct RingReader {
    read_pos: u64,
    counter: u64,
}

impl RingReader {
    /// The number of events read and handed on.
    pub closed spec fn read_pos(&self) -> u64 {
        self.read_pos
    }

    /// The number of events taken from the buffer, one more than `read_pos`
    /// while an event is being handed on.
    pub closed spec fn counter(&self) -> u64 {
        self.counter
    }

    /// A reader at the start of an empty buffer.
    pub fn new() -> (r: Self)
        ensures
            r.read_pos() == 0,
            r.counter() == 0,
    {
        RingReader { read_pos: 0, counter: 0 }
    }

    /// When the writer has written `write_pos` events and not all are read,
    /// takes the next one: returns the offset of its slot.
    pub fn next_slot(&mut self, write_pos: u64) -> (r: Option<usize>)
        requires
            old(self).counter() == old(self).read_pos(),
        ensures
            final(self).read_pos() == old(self).read_pos(),
            match r {
                Some(off) => {
                    &&& old(self).read_pos() < write_pos
                    &&& off == slot_offset(old(self).read_pos())
                    &&& final(self).counter() == old(self).counter() + 1
                },
                None => write_pos <= old(self).read_pos() && final(self).counter() == old(self).counter(),
            },
    {
        if self.read_pos < write_pos {
            let idx = (self.read_pos % BUFFER_CAPACITY) as usize;
            self.counter = self.counter + 1;
            Some(BUFFER_HEADER_SIZE + idx * TRACE_EVENT_SIZE)
        } else {
            None
        }
    }

    /// Marks the event taken as handed on.
    pub fn advance(&mut self)
        requires
            old(self).counter() == old(self).read_pos() + 1,
        ensures
            final(self).read_pos() == old(self).read_pos() + 1,
            final(self).counter() == old(self).counter(),
    {
        self.read_pos = self.read_pos + 1;
    }

    /// The number of events taken from the buffer.
    pub fn count(&self) -> (r: u64)
        ensures
            r == self.counter(),
    {
        self.counter
    }
}

/// Every slot lies within the buffer, after its header, and slots of events
/// less than a capacity apart do not overlap.
pub proof fn lemma_slot_in_buffer(pos: u64, other: u64)
    ensures
        BUFFER_HEADER_SIZE <= slot_offset(pos),
        slot_offset(pos) + TRACE_EVENT_SIZE <= BUFFER_SIZE,
        slot_offset(pos) % 8 == 0,
        pos < other < pos + BUFFER_CAPACITY ==> slot_offset(pos) + TRACE_EVENT_SIZE <= slot_offset(other)
            || slot_offset(other) + TRACE_EVENT_SIZE <= slot_offset(pos),
{
    assert(slot_offset(pos) % 8 == 0) by (nonlinear_arith)
        requires
            slot_offset(pos) == 64 + (pos % 128) * 24,
    ;
    if pos < other < pos + BUFFER_CAPACITY {
        assert(pos % 128 != other % 128) by (nonlinear_arith)
            requires
                pos < other < pos + 128,
        ;
    }
}

} // verus!
