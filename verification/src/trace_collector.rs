use vstd::prelude::*;

use crate::event::{EventType, TargetId, TargetRegistry, TraceEvent};
use std::collections::HashMap;

verus! {

/// When a function was entered.
#[derive(Debug, Clone)]
pub struct EntryData {
    pub timestamp: u64,
}

/// What processing one event tells the user.
pub enum TraceReport {
    /// A function was entered; `overwritten` is the timestamp of an entry of
    /// the same goroutine and target that had not returned yet.
    Entry { name: String, goroutine: u64, timestamp: u64, overwritten: Option<u64> },
    /// A function returned after the matching entry.
    Completed { name: String, goroutine: u64, entry: u64, ret: u64, duration: u64 },
    /// A function returned without a matching entry; `orphaned_returns`
    /// counts such returns so far.
    Orphaned { name: String, goroutine: u64, orphaned_returns: u64 },
}

/// A report as plain values.
pub enum ReportView {
    Entry { name: Seq<char>, goroutine: u64, timestamp: u64, overwritten: Option<u64> },
    Completed { name: Seq<char>, goroutine: u64, entry: u64, ret: u64, duration: u64 },
    Orphaned { name: Seq<char>, goroutine: u64, orphaned_returns: u64 },
}

impl View for TraceReport {
    type V = ReportView;

    open spec fn view(&self) -> ReportView {
        match self {
            TraceReport::Entry { name, goroutine, timestamp, overwritten } => ReportView::Entry {
                name: name@,
                goroutine: *goroutine,
                timestamp: *timestamp,
                overwritten: *overwritten,
            },
            TraceReport::Completed { name, goroutine, entry, ret, duration } => ReportView::Completed {
                name: name@,
                goroutine: *goroutine,
                entry: *entry,
                ret: *ret,
                duration: *duration,
            },
            TraceReport::Orphaned { name, goroutine, orphaned_returns } => ReportView::Orphaned {
                name: name@,
                goroutine: *goroutine,
                orphaned_returns: *orphaned_returns,
            },
        }
    }
}

/// Matches entry and return events into completed calls.
pub struct TraceCollector {
    /// Pending entries by `pending_key` of (goroutine, target).
    pending_entries: HashMap<u128, EntryData>,
    symbol_map: TargetRegistry,
    orphaned_returns: u64,
}

/// The collector's state as plain values.
#[verifier::ext_equal]
pub struct CollectorView {
    /// Entry timestamps of the calls that have not returned yet, by
    /// (goroutine, target id).
    pub pending: Map<(u64, u16), u64>,
    /// Target names by id.
    pub names: Seq<Seq<char>>,
    pub orphaned_returns: u64,
}

/// `a - b`, or 0 when `b > a` (`u64::saturating_sub`).
pub open spec fn saturating_sub(a: u64, b: u64) -> u64 {
    if a >= b { (a - b) as u64 } else { 0 }
}

/// The name of target `id` in `names`, or `<unknown>`.
pub open spec fn name_of(names: Seq<Seq<char>>, id: u16) -> Seq<char> {
    if id < names.len() { names[id as int] } else { "<unknown>"@ }
}

/// The state after an event and the report it gives.
pub open spec fn collector_step(s: CollectorView, e: TraceEvent) -> (CollectorView, ReportView) {
    let key = (e.goroutine, e.target_id.0);
    let name = name_of(s.names, e.target_id.0);
    match e.event_type {
        EventType::Entry => (
            CollectorView { pending: s.pending.insert(key, e.timestamp), ..s },
            ReportView::Entry {
                name,
                goroutine: e.goroutine,
                timestamp: e.timestamp,
                overwritten: if s.pending.contains_key(key) { Some(s.pending[key]) } else { None },
            },
        ),
        EventType::Return => if s.pending.contains_key(key) {
            (
                CollectorView { pending: s.pending.remove(key), ..s },
                ReportView::Completed {
                    name,
                    goroutine: e.goroutine,
                    entry: s.pending[key],
                    ret: e.timestamp,
                    duration: saturating_sub(e.timestamp, s.pending[key]),
                },
            )
        } else {
            (
                CollectorView { orphaned_returns: (s.orphaned_returns + 1) as u64, ..s },
                ReportView::Orphaned {
                    name,
                    goroutine: e.goroutine,
                    orphaned_returns: (s.orphaned_returns + 1) as u64,
                },
            )
        },
    }
}

/// The event is accepted: an orphaned return does not overflow the counter.
pub open spec fn step_fits(s: CollectorView, e: TraceEvent) -> bool {
    (e.event_type == EventType::Return && !s.pending.contains_key((e.goroutine, e.target_id.0)))
        ==> s.orphaned_returns < u64::MAX
}

/// The key of the pending entry of a goroutine and a target: both numbers
/// in one, the target in the low 16 bits.
pub open spec fn pending_key(goroutine: u64, target: u16) -> u128 {
    (goroutine as int * 0x1_0000 + target as int) as u128
}

/// The pending entries as a map from (goroutine, target) to entry timestamp.
pub open spec fn pending_map(m: Map<u128, EntryData>) -> Map<(u64, u16), u64> {
    Map::new(
        |k: (u64, u16)| m.contains_key(pending_key(k.0, k.1)),
        |k: (u64, u16)| m[pending_key(k.0, k.1)].timestamp,
    )
}

fn key_of(goroutine: u64, target: u16) -> (r: u128)
    ensures
        r == pending_key(goroutine, target),
{
    goroutine as u128 * 0x1_0000 + target as u128
}

proof fn lemma_pending_key_injective(a: (u64, u16), b: (u64, u16))
    ensures
        pending_key(a.0, a.1) == pending_key(b.0, b.1) ==> a == b,
{
}

impl View for TraceCollector {
    type V = CollectorView;

    closed spec fn view(&self) -> CollectorView {
        CollectorView {
            pending: pending_map(self.pending_entries@),
            names: self.symbol_map@,
            orphaned_returns: self.orphaned_returns,
        }
    }
}

impl TraceCollector {
    pub fn new(symbol_map: TargetRegistry) -> (r: Self)
        ensures
            r@.pending == Map::<(u64, u16), u64>::empty(),
            r@.names == symbol_map@,
            r@.orphaned_returns == 0,
    {
        let r = TraceCollector { pending_entries: HashMap::new(), symbol_map, orphaned_returns: 0 };
        assert(r@.pending =~= Map::<(u64, u16), u64>::empty());
        r
    }

    /// Registers the name of the next target, so that its events are reported
    /// under it; returns its id.
    pub fn add_target(&mut self, name: String) -> (r: TargetId)
        requires
            old(self)@.names.len() < u16::MAX,
        ensures
            r.0 == old(self)@.names.len(),
            final(self)@.names == old(self)@.names.push(name@),
            final(self)@.pending == old(self)@.pending,
            final(self)@.orphaned_returns == old(self)@.orphaned_returns,
    {
        let mut names = TargetRegistry::new();
        std::mem::swap(&mut names, &mut self.symbol_map);
        let id = names.add(name);
        self.symbol_map = names;
        id
    }

    /// The number of targets whose names are known.
    pub fn target_count(&self) -> (r: usize)
        ensures
            r == self@.names.len(),
    {
        self.symbol_map.len()
    }

    /// The name of target `id`, or `<unknown>`.
    fn symbol_name(&self, id: TargetId) -> (r: &str)
        ensures
            r@ == name_of(self@.names, id.0),
    {
        self.symbol_map.name(id)
    }

    /// Updates the pending entries with `event` and says what to report.
    pub fn process_event(&mut self, event: TraceEvent) -> (r: TraceReport)
        requires
            step_fits(old(self)@, event),
        ensures
            (final(self)@, r@) == collector_step(old(self)@, event),
    {
        broadcast use vstd::std_specs::hash::group_hash_axioms;

        let goroutine_id = event.goroutine;
        let timestamp = event.timestamp;
        let symbol_id = event.target_id;
        let name = self.symbol_name(symbol_id).to_owned();
        let key = key_of(goroutine_id, symbol_id.0);
        let ghost k = (goroutine_id, symbol_id.0);
        let ghost before = self.pending_entries@;
        assert forall|other: (u64, u16)| pending_key(other.0, other.1) == key implies other == k by {
            lemma_pending_key_injective(other, k);
        }
        match event.event_type {
            EventType::Entry => {
                let prev = self.pending_entries.insert(key, EntryData { timestamp });
                let overwritten = match prev {
                    Some(e) => Some(e.timestamp),
                    None => None,
                };
                assert(pending_map(self.pending_entries@) =~= pending_map(before).insert(k, timestamp));
                let r = TraceReport::Entry { name, goroutine: goroutine_id, timestamp, overwritten };
                assert(self@ =~= collector_step(old(self)@, event).0);
                r
            },
            EventType::Return => {
                match self.pending_entries.remove(&key) {
                    Some(entry) => {
                        let entry_ts = entry.timestamp;
                        assert(pending_map(self.pending_entries@) =~= pending_map(before).remove(k));
                        let duration = timestamp.saturating_sub(entry_ts);
                        TraceReport::Completed { name, goroutine: goroutine_id, entry: entry_ts, ret: timestamp, duration }
                    },
                    None => {
                        self.orphaned_returns += 1;
                        TraceReport::Orphaned { name, goroutine: goroutine_id, orphaned_returns: self.orphaned_returns }
                    },
                }
            },
        }
    }
}

} // verus!

verus! {

/// An entry followed by the return of the same goroutine and target completes
/// the call: the report carries the entry's timestamp, the return's, and
/// their saturating difference as the duration, and nothing stays pending
/// for that goroutine and target.
pub proof fn lemma_entry_then_return(s: CollectorView, entry: TraceEvent, ret: TraceEvent)
    requires
        entry.event_type == EventType::Entry,
        ret.event_type == EventType::Return,
        entry.goroutine == ret.goroutine,
        entry.target_id == ret.target_id,
    ensures
        ({
            let key = (entry.goroutine, entry.target_id.0);
            let s1 = collector_step(s, entry).0;
            let (s2, r) = collector_step(s1, ret);
            &&& r == ReportView::Completed {
                name: name_of(s.names, entry.target_id.0),
                goroutine: entry.goroutine,
                entry: entry.timestamp,
                ret: ret.timestamp,
                duration: saturating_sub(ret.timestamp, entry.timestamp),
            }
            &&& s2.pending == s.pending.remove(key)
            &&& s2.orphaned_returns == s.orphaned_returns
        }),
{
    let key = (entry.goroutine, entry.target_id.0);
    let s1 = collector_step(s, entry).0;
    assert(s1.pending.contains_key(key));
    assert(s1.pending.remove(key) =~= s.pending.remove(key));
}

/// An event of another goroutine or target leaves a pending entry as it is.
pub proof fn lemma_other_calls_untouched(s: CollectorView, e: TraceEvent, key: (u64, u16))
    requires
        key != (e.goroutine, e.target_id.0),
    ensures
        collector_step(s, e).0.pending.contains_key(key) == s.pending.contains_key(key),
        s.pending.contains_key(key) ==> collector_step(s, e).0.pending[key] == s.pending[key],
{
}

/// A return without a pending entry is reported as orphaned and counted.
pub proof fn lemma_orphaned_return_counted(s: CollectorView, e: TraceEvent)
    requires
        e.event_type == EventType::Return,
        !s.pending.contains_key((e.goroutine, e.target_id.0)),
        step_fits(s, e),
    ensures
        collector_step(s, e).1 is Orphaned,
        collector_step(s, e).0.orphaned_returns == s.orphaned_returns + 1,
        collector_step(s, e).0.pending == s.pending,
{
}

} // verus!
