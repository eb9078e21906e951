use vstd::prelude::*;

use crate::dwarf::RuntimeOffsets;
use crate::error::{DwarfError, InstrumentError};
use crate::event::TargetId;
use crate::instruction::patch::BranchStrategy;
use crate::maps::{
    find_free_region, free_region_available, free_region_fits, free_region_start, lemma_free_region_disjoint,
    lemma_free_region_end, lemma_sort_by_start_contains, sort_by_start,
};
use crate::symbol_analyzer::FunctionAnalysis;

verus! {

/// The size of the region mapped for each trampoline.
pub const TRAMPOLINE_SIZE: u64 = 1024;

/// An address to patch, with what its trampoline records.
#[derive(Clone, Copy)]
pub struct InstrumentTarget {
    pub addr: u64,
    /// 0 at a function's entry, 1 at a `ret`.
    pub event_type: u8,
    /// Where the trampoline should preferably be mapped.
    pub trampoline_hint: u64,
    /// The descriptor of the shared event buffer, as the tracee sees it.
    pub buffer_fd: i32,
    pub target_id: TargetId,
}

/// A target whose trampoline and event buffer have been mapped in the tracee.
#[derive(Clone, Copy)]
pub struct AllocatedTarget {
    pub patch: BranchStrategy,
    pub trampoline_addr: u64,
    pub child_buffer_addr: u64,
    pub event_type: u8,
    pub target_id: TargetId,
}

/// The targets of one function, and the runtime offsets its trampolines use.
pub struct InstrumentationPlan {
    pub targets: Vec<InstrumentTarget>,
    pub runtime_offsets: RuntimeOffsets,
}

/// The addresses a function is patched at: its entry, then each `ret`.
pub open spec fn target_addrs(entry_addr: u64, ret_addrs: Seq<u64>) -> Seq<u64> {
    seq![entry_addr] + ret_addrs
}

/// The regions after a trampoline region is picked near `hint`.
pub open spec fn after_alloc(regions: Seq<(u64, u64)>, hint: u64) -> Seq<(u64, u64)> {
    let r = free_region_start(regions, hint, TRAMPOLINE_SIZE);
    sort_by_start(regions).push((r as u64, (r + TRAMPOLINE_SIZE) as u64))
}

/// The regions after trampoline regions are picked for the first `n` addresses.
pub open spec fn regions_after(regions: Seq<(u64, u64)>, addrs: Seq<u64>, n: int) -> Seq<(u64, u64)>
    decreases n,
{
    if n <= 0 || n > addrs.len() {
        regions
    } else {
        after_alloc(regions_after(regions, addrs, n - 1), addrs[n - 1])
    }
}

/// The trampoline region picked for address `i`.
pub open spec fn hint_at(regions: Seq<(u64, u64)>, addrs: Seq<u64>, i: int) -> u64 {
    free_region_start(regions_after(regions, addrs, i), addrs[i], TRAMPOLINE_SIZE) as u64
}

/// Every pick stays within `u64`.
pub open spec fn plan_fits(regions: Seq<(u64, u64)>, addrs: Seq<u64>) -> bool {
    forall|i: int| 0 <= i < addrs.len() ==> free_region_fits(#[trigger] regions_after(regions, addrs, i), addrs[i], TRAMPOLINE_SIZE)
}

/// The target planned for address `i`.
pub open spec fn planned_target(
    regions: Seq<(u64, u64)>,
    addrs: Seq<u64>,
    i: int,
    buffer_fd: i32,
    target_id: TargetId,
) -> InstrumentTarget {
    InstrumentTarget {
        addr: addrs[i],
        event_type: if i == 0 { 0 } else { 1 },
        trampoline_hint: hint_at(regions, addrs, i),
        buffer_fd,
        target_id,
    }
}

/// Whether `plan_instrumentation` can run on these arguments without leaving
/// `u64` when it picks trampoline regions.
pub fn plan_available(regions: &Vec<(u64, u64)>, analysis: &FunctionAnalysis) -> (r: bool)
    ensures
        r == plan_fits(regions@, target_addrs(analysis.entry_addr, analysis.ret_addrs@)),
{
    let ghost addrs = target_addrs(analysis.entry_addr, analysis.ret_addrs@);
    let mut rs: Vec<(u64, u64)> = Vec::new();
    let mut k: usize = 0;
    while k < regions.len()
        invariant
            k <= regions@.len(),
            rs@ == regions@.subrange(0, k as int),
        decreases regions@.len() - k,
    {
        rs.push(regions[k]);
        k += 1;
    }
    assert(rs@ == regions@);
    assert(analysis.entry_addr == addrs[0]);
    assert(regions_after(regions@, addrs, 0) == regions@);
    if !free_region_available(&rs, analysis.entry_addr, TRAMPOLINE_SIZE) {
        return false;
    }
    find_free_region(&mut rs, analysis.entry_addr, TRAMPOLINE_SIZE);
    assert(rs@ == regions_after(regions@, addrs, 1));
    let n = analysis.ret_addrs.len();
    let mut j: usize = 0;
    while j < n
        invariant
            addrs == target_addrs(analysis.entry_addr, analysis.ret_addrs@),
            n == analysis.ret_addrs@.len(),
            j <= n,
            rs@ == regions_after(regions@, addrs, j + 1),
            forall|k: int| 0 <= k <= j ==> free_region_fits(#[trigger] regions_after(regions@, addrs, k), addrs[k], TRAMPOLINE_SIZE),
        decreases n - j,
    {
        let addr = analysis.ret_addrs[j];
        assert(addr == addrs[j + 1]);
        if !free_region_available(&rs, addr, TRAMPOLINE_SIZE) {
            return false;
        }
        find_free_region(&mut rs, addr, TRAMPOLINE_SIZE);
        assert(rs@ == regions_after(regions@, addrs, j + 2));
        j += 1;
    }
    true
}

/// Plans the instrumentation of a function: one target at its entry and one
/// at each `ret`, each with a trampoline region picked near it, all sharing
/// one event buffer and target id. Fails when the image's runtime offsets are
/// unknown.
pub fn plan_instrumentation(
    regions: &mut Vec<(u64, u64)>,
    analysis: &FunctionAnalysis,
    runtime_offsets: Option<RuntimeOffsets>,
    buffer_fd: i32,
    target_id: TargetId,
) -> (r: Result<InstrumentationPlan, InstrumentError>)
    requires
        runtime_offsets is Some ==> plan_fits(old(regions)@, target_addrs(analysis.entry_addr, analysis.ret_addrs@)),
    ensures
        match r {
            Ok(plan) => {
                let addrs = target_addrs(analysis.entry_addr, analysis.ret_addrs@);
                &&& runtime_offsets == Some(plan.runtime_offsets)
                &&& plan.targets@.len() == addrs.len()
                &&& forall|i: int| 0 <= i < addrs.len() ==> #[trigger] plan.targets@[i] == planned_target(
                    old(regions)@,
                    addrs,
                    i,
                    buffer_fd,
                    target_id,
                )
                &&& final(regions)@ == regions_after(old(regions)@, addrs, addrs.len() as int)
            },
            Err(e) => {
                &&& runtime_offsets is None
                &&& e == InstrumentError::DwarfError(DwarfError::NoDwarfInfo)
                &&& final(regions)@ == old(regions)@
            },
        },
{
    let runtime_offsets = match runtime_offsets {
        Some(o) => o,
        None => {
            return Err(InstrumentError::DwarfError(DwarfError::NoDwarfInfo));
        },
    };
    let ghost addrs = target_addrs(analysis.entry_addr, analysis.ret_addrs@);
    let ghost start = regions@;
    let mut targets: Vec<InstrumentTarget> = Vec::new();
    assert(analysis.entry_addr == addrs[0]);
    assert(regions_after(start, addrs, 0) == start);
    assert(free_region_fits(regions_after(start, addrs, 0), addrs[0], TRAMPOLINE_SIZE));
    let hint = find_free_region(regions, analysis.entry_addr, TRAMPOLINE_SIZE);
    targets.push(
        InstrumentTarget { addr: analysis.entry_addr, event_type: 0, trampoline_hint: hint, buffer_fd, target_id },
    );
    assert(regions@ == regions_after(start, addrs, 1));
    let n = analysis.ret_addrs.len();
    let mut j: usize = 0;
    while j < n
        invariant
            addrs == target_addrs(analysis.entry_addr, analysis.ret_addrs@),
            n == analysis.ret_addrs@.len(),
            plan_fits(start, addrs),
            j <= n,
            regions@ == regions_after(start, addrs, j + 1),
            targets@.len() == j + 1,
            forall|k: int| 0 <= k <= j ==> #[trigger] targets@[k] == planned_target(start, addrs, k, buffer_fd, target_id),
        decreases n - j,
    {
        let addr = analysis.ret_addrs[j];
        assert(addr == addrs[j + 1]);
        assert(free_region_fits(regions_after(start, addrs, j + 1), addrs[j + 1], TRAMPOLINE_SIZE));
        let hint = find_free_region(regions, addr, TRAMPOLINE_SIZE);
        targets.push(InstrumentTarget { addr, event_type: 1, trampoline_hint: hint, buffer_fd, target_id });
        assert(regions@ == regions_after(start, addrs, j + 2));
        j += 1;
    }
    Ok(InstrumentationPlan { targets, runtime_offsets })
}

/// The regions after `n` picks hold the given regions and every region
/// picked so far.
proof fn lemma_regions_after_holds(regions: Seq<(u64, u64)>, addrs: Seq<u64>, n: int)
    requires
        0 <= n <= addrs.len(),
        plan_fits(regions, addrs),
    ensures
        forall|r: (u64, u64)| #[trigger] regions.contains(r) ==> regions_after(regions, addrs, n).contains(r),
        forall|j: int| 0 <= j < n ==> regions_after(regions, addrs, n).contains(
            (#[trigger] hint_at(regions, addrs, j), (hint_at(regions, addrs, j) + TRAMPOLINE_SIZE) as u64),
        ),
    decreases n,
{
    if n > 0 {
        lemma_regions_after_holds(regions, addrs, n - 1);
        let prev = regions_after(regions, addrs, n - 1);
        let cur = regions_after(regions, addrs, n);
        lemma_sort_by_start_contains(prev);
        let picked = free_region_start(prev, addrs[n - 1], TRAMPOLINE_SIZE);
        assert(free_region_fits(prev, addrs[n - 1], TRAMPOLINE_SIZE));
        lemma_free_region_end(prev, addrs[n - 1], TRAMPOLINE_SIZE);
        lemma_free_region_disjoint(prev, addrs[n - 1], TRAMPOLINE_SIZE);
        let new_region = (picked as u64, (picked + TRAMPOLINE_SIZE) as u64);
        assert(cur == sort_by_start(prev).push(new_region));
        assert forall|r: (u64, u64)| #[trigger] regions.contains(r) implies cur.contains(r) by {
            assert(prev.contains(r));
            assert(sort_by_start(prev).contains(r));
            let k = choose|k: int| 0 <= k < sort_by_start(prev).len() && sort_by_start(prev)[k] == r;
            assert(cur[k] == r);
        }
        assert forall|j: int| 0 <= j < n implies cur.contains(
            (#[trigger] hint_at(regions, addrs, j), (hint_at(regions, addrs, j) + TRAMPOLINE_SIZE) as u64),
        ) by {
            let y = (hint_at(regions, addrs, j), (hint_at(regions, addrs, j) + TRAMPOLINE_SIZE) as u64);
            if j < n - 1 {
                assert(prev.contains(y));
                assert(sort_by_start(prev).contains(y));
                let k = choose|k: int| 0 <= k < sort_by_start(prev).len() && sort_by_start(prev)[k] == y;
                assert(cur[k] == y);
            } else {
                assert(cur[cur.len() - 1] == new_region);
                assert(new_region == y);
            }
        }
    }
}

/// The trampoline regions planned for a function are page aligned, start at
/// or above their target address, and overlap neither the regions mapped
/// before nor each other.
pub proof fn lemma_plan_regions_disjoint(regions: Seq<(u64, u64)>, addrs: Seq<u64>)
    requires
        plan_fits(regions, addrs),
    ensures
        forall|i: int| 0 <= i < addrs.len() ==> {
            let h = #[trigger] hint_at(regions, addrs, i);
            &&& h >= addrs[i]
            &&& h % 0x1000 == 0
            &&& h + TRAMPOLINE_SIZE <= u64::MAX
            &&& forall|r: (u64, u64)| #[trigger] regions.contains(r) ==> h + TRAMPOLINE_SIZE <= r.0 || r.1 <= h
        },
        forall|i: int, j: int| 0 <= j < i < addrs.len() ==> #[trigger] hint_at(regions, addrs, i) + TRAMPOLINE_SIZE
            <= #[trigger] hint_at(regions, addrs, j) || hint_at(regions, addrs, j) + TRAMPOLINE_SIZE <= hint_at(
            regions,
            addrs,
            i,
        ),
{
    assert forall|i: int| 0 <= i < addrs.len() implies {
        let h = #[trigger] hint_at(regions, addrs, i);
        &&& h >= addrs[i]
        &&& h % 0x1000 == 0
        &&& h + TRAMPOLINE_SIZE <= u64::MAX
        &&& forall|r: (u64, u64)| #[trigger] regions.contains(r) ==> h + TRAMPOLINE_SIZE <= r.0 || r.1 <= h
    } by {
        let ra = regions_after(regions, addrs, i);
        assert(free_region_fits(ra, addrs[i], TRAMPOLINE_SIZE));
        lemma_free_region_end(ra, addrs[i], TRAMPOLINE_SIZE);
        lemma_free_region_disjoint(ra, addrs[i], TRAMPOLINE_SIZE);
        lemma_regions_after_holds(regions, addrs, i);
    }
    assert forall|i: int, j: int| 0 <= j < i < addrs.len() implies #[trigger] hint_at(regions, addrs, i)
        + TRAMPOLINE_SIZE <= #[trigger] hint_at(regions, addrs, j) || hint_at(regions, addrs, j) + TRAMPOLINE_SIZE
        <= hint_at(regions, addrs, i) by {
        let ra = regions_after(regions, addrs, i);
        assert(free_region_fits(ra, addrs[i], TRAMPOLINE_SIZE));
        assert(free_region_fits(regions_after(regions, addrs, j), addrs[j], TRAMPOLINE_SIZE));
        lemma_free_region_end(regions_after(regions, addrs, j), addrs[j], TRAMPOLINE_SIZE);
        lemma_free_region_disjoint(ra, addrs[i], TRAMPOLINE_SIZE);
        lemma_regions_after_holds(regions, addrs, i);
        lemma_free_region_end(ra, addrs[i], TRAMPOLINE_SIZE);
        lemma_free_region_disjoint(regions_after(regions, addrs, j), addrs[j], TRAMPOLINE_SIZE);
        let y = (hint_at(regions, addrs, j), (hint_at(regions, addrs, j) + TRAMPOLINE_SIZE) as u64);
        assert(ra.contains(y));
        assert(y.1 == hint_at(regions, addrs, j) + TRAMPOLINE_SIZE);
        let si = free_region_start(ra, addrs[i], TRAMPOLINE_SIZE);
        assert(si + TRAMPOLINE_SIZE <= y.0 || y.1 <= si);
        assert(hint_at(regions, addrs, i) == si);
    }
}

} // verus!
