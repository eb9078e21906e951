use std::collections::HashMap;
use vstd::prelude::*;

use crate::instruction::trampoline::header_value;
use crate::text::str_eq;

verus! {

/// Identifies an instrumented target in trace events.
#[derive(Debug, Clone, Copy, PartialEq, Eq, Hash)]
pub struct TargetId(pub u16);

/// Identifies a symbol in trace events.
#[derive(Debug, Clone, Copy, PartialEq, Eq, Hash)]
pub struct SymbolId(pub u16);

/// What is known of a traced symbol.
pub struct SymbolInfo {
    pub name: String,
}

/// The kind of a trace event.
#[derive(Debug, Clone, Copy, PartialEq, Eq)]
pub enum EventType {
    Entry,
    Return,
}

} // verus!

verus! {

broadcast use vstd::std_specs::hash::group_hash_axioms;

/// A traced function.
pub struct Target {
    pub name: String,
}

/// The names of the instrumented targets, by id; ids are handed out in order
/// from 0.
pub struct TargetRegistry {
    inner: HashMap<u16, Target>,
    next_id: u16,
}

impl View for TargetRegistry {
    type V = Seq<Seq<char>>;

    /// The names, indexed by id.
    closed spec fn view(&self) -> Seq<Seq<char>> {
        Seq::new(self.next_id as nat, |i: int| self.inner@[i as u16].name@)
    }
}

impl TargetRegistry {
    #[verifier::type_invariant]
    closed spec fn ids_are_dense(&self) -> bool {
        forall|k: u16| #[trigger] self.inner@.contains_key(k) <==> k < self.next_id
    }

    pub fn new() -> (r: Self)
        ensures
            r@ == Seq::<Seq<char>>::empty(),
    {
        TargetRegistry { inner: HashMap::new(), next_id: 0 }
    }

    /// Registers `name` under the next id, which it returns. At most 65535
    /// targets can be registered.
    pub fn add(&mut self, name: String) -> (r: TargetId)
        requires
            old(self)@.len() < u16::MAX,
        ensures
            r.0 == old(self)@.len(),
            final(self)@ == old(self)@.push(name@),
    {
        proof {
            use_type_invariant(&*self);
        }
        let id = TargetId(self.next_id);
        let ghost old_view = self@;
        let mut this = TargetRegistry::new();
        std::mem::swap(self, &mut this);
        proof {
            use_type_invariant(&this);
        }
        let TargetRegistry { mut inner, next_id } = this;
        inner.insert(id.0, Target { name });
        let updated = TargetRegistry { inner, next_id: next_id + 1 };
        assert(updated@ =~= old_view.push(name@));
        *self = updated;
        id
    }

    /// The number of targets registered.
    pub fn len(&self) -> (r: usize)
        ensures
            r == self@.len(),
    {
        self.next_id as usize
    }

    /// Whether some target has the name `name`.
    pub fn contains(&self, name: &str) -> (r: bool)
        ensures
            r == self@.contains(name@),
    {
        proof {
            use_type_invariant(self);
        }
        let mut i: u16 = 0;
        while i < self.next_id
            invariant
                i <= self.next_id,
                forall|k: u16| #[trigger] self.inner@.contains_key(k) <==> k < self.next_id,
                forall|k: int| 0 <= k < i ==> self@[k] != name@,
            decreases self.next_id - i,
        {
            match self.inner.get(&i) {
                Some(t) => {
                    if str_eq(t.name.as_str(), name) {
                        assert(self@[i as int] == name@);
                        return true;
                    }
                },
                None => {},
            }
            i += 1;
        }
        false
    }

    /// The name registered under `id`, or `<unknown>`.
    pub fn name(&self, id: TargetId) -> (r: &str)
        ensures
            r@ == (if id.0 < self@.len() { self@[id.0 as int] } else { "<unknown>"@ }),
    {
        proof {
            use_type_invariant(self);
        }
        match self.inner.get(&id.0) {
            Some(t) => t.name.as_str(),
            None => "<unknown>",
        }
    }
}

/// After `add(name)` on a registry holding `names`, the id it returns looks
/// up `name`, the registry contains `name`, and earlier ids keep their
/// names.
pub proof fn lemma_add_then_lookup(names: Seq<Seq<char>>, name: Seq<char>)
    ensures
        ({
            let after = names.push(name);
            &&& after[names.len() as int] == name
            &&& after.contains(name)
            &&& forall|k: int| 0 <= k < names.len() ==> #[trigger] after[k] == names[k]
        }),
{
    let after = names.push(name);
    assert(after[names.len() as int] == name);
}

} // verus!

verus! {

/// A trace event as the trampolines store it: 24 bytes, little-endian, with
/// the event type in byte 0, the target id in bytes 6-7, then the goroutine id
/// and the timestamp.
#[derive(Debug, Clone, Copy)]
pub struct TraceEvent {
    pub event_type: EventType,
    pub _padding: [u8; 5],
    pub target_id: TargetId,
    pub goroutine: u64,
    pub timestamp: u64,
}

/// The size of a stored event in bytes.
pub const TRACE_EVENT_SIZE: usize = 24;

/// The little-endian value of the `n` bytes of `b` from `off`.
pub open spec fn le_value(b: Seq<u8>, off: int, n: nat) -> int
    decreases n,
{
    if n == 0 {
        0
    } else {
        b[off] as int + 256 * le_value(b, off + 1, (n - 1) as nat)
    }
}

/// The little-endian bytes of `v`.
pub open spec fn le_bytes_u64(v: u64) -> Seq<u8> {
    Seq::new(8, |k: int| ((v as int / pow256(k)) % 256) as u8)
}

/// 256^k for k < 8.
pub open spec fn pow256(k: int) -> int
    decreases k,
{
    if k <= 0 { 1 } else { 256 * pow256(k - 1) }
}

/// The event type stored as `byte`, if it is one.
pub open spec fn event_type_of(byte: u8) -> Option<EventType> {
    if byte == 0 {
        Some(EventType::Entry)
    } else if byte == 1 {
        Some(EventType::Return)
    } else {
        None
    }
}

/// The event stored in the 24 bytes of `b`, if its type byte is valid.
pub open spec fn decode_event(b: Seq<u8>) -> Option<TraceEvent> {
    match event_type_of(b[0]) {
        None => None,
        Some(t) => Some(
            TraceEvent {
                event_type: t,
                _padding: [b[1], b[2], b[3], b[4], b[5]],
                target_id: TargetId(le_value(b, 6, 2) as u16),
                goroutine: le_value(b, 8, 8) as u64,
                timestamp: le_value(b, 16, 8) as u64,
            },
        ),
    }
}

proof fn lemma_le_u64(b0: u8, b1: u8, b2: u8, b3: u8, b4: u8, b5: u8, b6: u8, b7: u8)
    by (bit_vector)
    ensures
        (b0 as u64 | (b1 as u64) << 8u64 | (b2 as u64) << 16u64 | (b3 as u64) << 24u64 | (b4 as u64) << 32u64
            | (b5 as u64) << 40u64 | (b6 as u64) << 48u64 | (b7 as u64) << 56u64) as int == b0 as int + 256 * (b1
            as int + 256 * (b2 as int + 256 * (b3 as int + 256 * (b4 as int + 256 * (b5 as int + 256 * (b6 as int + 256
            * (b7 as int + 256 * 0))))))),
{
}

fn read_le_u64(b: &[u8], off: usize) -> (r: u64)
    requires
        off + 8 <= b@.len(),
    ensures
        r as int == le_value(b@, off as int, 8),
{
    proof {
        lemma_le_u64(b[off as int], b[off + 1], b[off + 2], b[off + 3], b[off + 4], b[off + 5], b[off + 6], b[off + 7]);
        reveal_with_fuel(le_value, 9);
    }
    b[off] as u64 | (b[off + 1] as u64) << 8 | (b[off + 2] as u64) << 16 | (b[off + 3] as u64) << 24 | (b[off + 4] as u64)
        << 32 | (b[off + 5] as u64) << 40 | (b[off + 6] as u64) << 48 | (b[off + 7] as u64) << 56
}

impl TraceEvent {
    /// Decodes the event stored in the first 24 bytes of `bytes`; `None` when
    /// the type byte is neither entry (0) nor return (1).
    pub fn decode(bytes: &[u8]) -> (r: Option<TraceEvent>)
        requires
            bytes@.len() >= 24,
        ensures
            r == decode_event(bytes@),
    {
        let event_type = if bytes[0] == 0 {
            EventType::Entry
        } else if bytes[0] == 1 {
            EventType::Return
        } else {
            return None;
        };
        let target_id = (bytes[6] as u16) | ((bytes[7] as u16) << 8);
        proof {
            lemma_le_u16(bytes[6], bytes[7]);
            reveal_with_fuel(le_value, 3);
        }
        let goroutine = read_le_u64(bytes, 8);
        let timestamp = read_le_u64(bytes, 16);
        Some(TraceEvent {
            event_type,
            _padding: [bytes[1], bytes[2], bytes[3], bytes[4], bytes[5]],
            target_id: TargetId(target_id),
            goroutine,
            timestamp,
        })
    }
}

proof fn lemma_le_u16(b0: u8, b1: u8)
    by (bit_vector)
    ensures
        ((b0 as u16) | ((b1 as u16) << 8u16)) as int == b0 as int + 256 * (b1 as int + 256 * 0),
{
}

proof fn lemma_bytes_of_u64(v: u64)
    by (bit_vector)
    ensures
        v == v % 256 + 256 * ((v / 0x100) % 256 + 256 * ((v / 0x1_0000) % 256 + 256 * ((v / 0x100_0000) % 256 + 256
            * ((v / 0x1_0000_0000) % 256 + 256 * ((v / 0x100_0000_0000) % 256 + 256 * ((v / 0x1_0000_0000_0000) % 256
            + 256 * ((v / 0x100_0000_0000_0000) % 256 + 256 * 0))))))),
{
}

proof fn lemma_pow256()
    ensures
        pow256(0) == 1,
        pow256(1) == 0x100,
        pow256(2) == 0x1_0000,
        pow256(3) == 0x100_0000,
        pow256(4) == 0x1_0000_0000,
        pow256(5) == 0x100_0000_0000,
        pow256(6) == 0x1_0000_0000_0000,
        pow256(7) == 0x100_0000_0000_0000,
{
    reveal_with_fuel(pow256, 8);
}

/// The little-endian bytes of a word read back as a little-endian value give
/// the word.
pub proof fn lemma_le_roundtrip(v: u64, b: Seq<u8>, off: int)
    requires
        0 <= off,
        off + 8 <= b.len(),
        b.subrange(off, off + 8) == le_bytes_u64(v),
    ensures
        le_value(b, off, 8) == v,
{
    lemma_pow256();
    lemma_bytes_of_u64(v);
    let lb = le_bytes_u64(v);
    let sb = b.subrange(off, off + 8);
    assert(lb[0] == (v / 1) % 256);
    assert(b[off + 0] == sb[0]);
    assert(lb[1] == (v / 0x100) % 256);
    assert(b[off + 1] == sb[1]);
    assert(lb[2] == (v / 0x1_0000) % 256);
    assert(b[off + 2] == sb[2]);
    assert(lb[3] == (v / 0x100_0000) % 256);
    assert(b[off + 3] == sb[3]);
    assert(lb[4] == (v / 0x1_0000_0000) % 256);
    assert(b[off + 4] == sb[4]);
    assert(lb[5] == (v / 0x100_0000_0000) % 256);
    assert(b[off + 5] == sb[5]);
    assert(lb[6] == (v / 0x1_0000_0000_0000) % 256);
    assert(b[off + 6] == sb[6]);
    assert(lb[7] == (v / 0x100_0000_0000_0000) % 256);
    assert(b[off + 7] == sb[7]);
    reveal_with_fuel(le_value, 9);
}

proof fn lemma_header_bytes(event_type: u8, target_id: u16)
    by (bit_vector)
    ensures
        ({
            let h = (event_type as int + target_id as int * 0x1_0000_0000_0000) as u64;
            &&& h % 256 == event_type
            &&& (h / 0x100) % 256 == 0
            &&& (h / 0x1_0000) % 256 == 0
            &&& (h / 0x100_0000) % 256 == 0
            &&& (h / 0x1_0000_0000) % 256 == 0
            &&& (h / 0x100_0000_0000) % 256 == 0
            &&& (h / 0x1_0000_0000_0000) % 256 + 256 * ((h / 0x100_0000_0000_0000) % 256 + 256 * 0) == target_id
        }),
{
}

/// The 24 bytes a trampoline stores, the header word for an entry (0) or a
/// return (1) of a target, the goroutine id and the timestamp, decode to that
/// event, with zero padding.
pub proof fn lemma_stored_event_decodes(event_type: u8, target_id: u16, goroutine: u64, timestamp: u64)
    requires
        event_type <= 1,
    ensures
        decode_event(
            le_bytes_u64(header_value(event_type, target_id)) + le_bytes_u64(goroutine) + le_bytes_u64(timestamp),
        ) == Some(
            TraceEvent {
                event_type: if event_type == 0 { EventType::Entry } else { EventType::Return },
                _padding: [0u8, 0u8, 0u8, 0u8, 0u8],
                target_id: TargetId(target_id),
                goroutine,
                timestamp,
            },
        ),
{
    let h = header_value(event_type, target_id);
    let b = le_bytes_u64(h) + le_bytes_u64(goroutine) + le_bytes_u64(timestamp);
    lemma_pow256();
    lemma_header_bytes(event_type, target_id);
    assert(b.subrange(8, 16) =~= le_bytes_u64(goroutine));
    assert(b.subrange(16, 24) =~= le_bytes_u64(timestamp));
    lemma_le_roundtrip(goroutine, b, 8);
    lemma_le_roundtrip(timestamp, b, 16);
    assert(b[0] == event_type);
    assert(b[6] == (h / 0x1_0000_0000_0000) % 256);
    assert(b[7] == (h / 0x100_0000_0000_0000) % 256);
    reveal_with_fuel(le_value, 3);
    assert(le_value(b, 6, 2) == target_id);
    let e = decode_event(b).unwrap();
    assert(e._padding =~= [0u8, 0u8, 0u8, 0u8, 0u8]);
}

} // verus!
