use vstd::prelude::*;

use super::plan::{AllocatedTarget, InstrumentTarget, TRAMPOLINE_SIZE};
use super::svc::{syscall_failed, syscall_result, SYSCALL_MMAP, SYSCALL_MPROTECT};
use crate::dwarf::RuntimeOffsets;
use crate::error::InstrumentError;
use crate::instruction::blob::{lemma_patched_blob_len, lemma_patched_blob_loads, patched_blob_words};
use crate::instruction::semantics::full_mov_words;
use crate::instruction::patch::{choose_strategy, jump_target, lemma_patch_reaches_trampoline, offset_fits, BranchStrategy, RET};
use crate::instruction::trampoline::{build_trampoline, header_value};
use crate::instruction::{high_half, low_half, Instructions};

verus! {

/// The size of the event buffer mapped into the tracee.
pub const BUFFER_MAP_SIZE: u64 = 4096;

/// `PROT_READ | PROT_WRITE`.
pub const PROT_READ_WRITE: u64 = 3;

/// `PROT_READ | PROT_EXEC`.
pub const PROT_READ_EXEC: u64 = 5;

/// `MAP_PRIVATE | MAP_ANONYMOUS`.
pub const MAP_PRIVATE_ANONYMOUS: u64 = 0x22;

/// `MAP_SHARED`.
pub const MAP_SHARED: u64 = 0x01;

/// Targets that are planned but not yet instrumented.
pub struct NotInstrumented {
    pub targets: Vec<InstrumentTarget>,
    pub runtime_offsets: RuntimeOffsets,
}

/// What the tracer is to do next to the tracee.
pub enum Action {
    /// Stop the running tracee and wait until it traps.
    Interrupt,
    /// Let the stopped tracee run.
    Resume,
    /// Make the stopped tracee perform a system call, then let it run.
    Syscall { number: u64, params: Vec<u64> },
    /// Read the two memory words at `addr` and `addr + 8`.
    ReadCode { addr: u64 },
    /// Write instructions at `addr`.
    Write { addr: u64, instructions: Instructions },
    /// Detach from the tracee.
    Detach,
}

/// An action, with its data as mathematical values.
pub enum ActionView {
    Interrupt,
    Resume,
    Syscall(u64, Seq<u64>),
    ReadCode(u64),
    Write(u64, Seq<u32>),
    Detach,
}

impl View for Action {
    type V = ActionView;

    open spec fn view(&self) -> ActionView {
        match self {
            Action::Interrupt => ActionView::Interrupt,
            Action::Resume => ActionView::Resume,
            Action::Syscall { number, params } => ActionView::Syscall(*number, params@),
            Action::ReadCode { addr } => ActionView::ReadCode(*addr),
            Action::Write { addr, instructions } => ActionView::Write(*addr, instructions@),
            Action::Detach => ActionView::Detach,
        }
    }
}

/// What came of the last action.
pub enum Event {
    /// The action completed.
    Done,
    /// The system call returned this value.
    Returned(u64),
    /// The two memory words read.
    Read(i64, i64),
}

/// The action whose outcome the instrumentation waits for.
#[derive(Clone, Copy)]
pub enum Pending {
    StopForAlloc,
    MapTrampoline(usize),
    StopAfterTrampoline(usize, u64),
    MapBuffer(usize, u64),
    StopAfterBuffer(usize),
    ResumeAfterAlloc,
    StopForWrite,
    ReadCode(usize),
    WriteTrampoline(usize),
    ResumeAfterWrite,
    StopForProtect,
    Protect(usize),
    StopAfterProtect(usize),
    ResumeAfterProtect,
    StopForPatch,
    Patch(usize),
    Detach,
    Finished,
}

/// The instrumentation of planned targets: the tracee is stopped; for each
/// target a trampoline region and the event buffer are mapped in it; it runs
/// and is stopped again; the trampolines are written; it runs and is stopped;
/// they are made executable; it runs and is stopped; each target is patched
/// to branch to its trampoline; the tracer detaches.
pub struct Instrumentation {
    targets: Vec<InstrumentTarget>,
    allocated: Vec<AllocatedTarget>,
    runtime_offsets: RuntimeOffsets,
    pending: Pending,
    written: Ghost<nat>,
    protected: Ghost<nat>,
}

/// The state of an instrumentation.
pub struct InstrumentationView {
    pub targets: Seq<InstrumentTarget>,
    pub allocated: Seq<AllocatedTarget>,
    pub runtime_offsets: RuntimeOffsets,
    pub pending: Pending,
    /// How many trampolines have been written, in target order.
    pub written: nat,
    /// How many trampolines have been made executable, in target order.
    pub protected: nat,
}

impl View for Instrumentation {
    type V = InstrumentationView;

    closed spec fn view(&self) -> InstrumentationView {
        InstrumentationView {
            targets: self.targets@,
            allocated: self.allocated@,
            runtime_offsets: self.runtime_offsets,
            pending: self.pending,
            written: self.written@,
            protected: self.protected@,
        }
    }
}

/// The parameters of the `mmap` that maps a trampoline region near `hint`.
pub open spec fn trampoline_mmap_params(hint: u64) -> Seq<u64> {
    seq![hint, TRAMPOLINE_SIZE, PROT_READ_WRITE, MAP_PRIVATE_ANONYMOUS, u64::MAX]
}

/// The parameters of the `mmap` that maps the event buffer behind `fd`.
pub open spec fn buffer_mmap_params(fd: i32) -> Seq<u64> {
    seq![0, BUFFER_MAP_SIZE, PROT_READ_WRITE, MAP_SHARED, fd as u64, 0]
}

/// The parameters of the `mprotect` that makes a trampoline executable.
pub open spec fn mprotect_params(trampoline_addr: u64) -> Seq<u64> {
    seq![trampoline_addr, TRAMPOLINE_SIZE, PROT_READ_EXEC]
}

/// The four instructions held by two memory words.
pub open spec fn code_insts(w1: i64, w2: i64) -> [u32; 4] {
    [low_half(w1), high_half(w1), low_half(w2), high_half(w2)]
}

/// The target once its trampoline is at `trampoline_addr` and its buffer at
/// `child_buffer_addr`.
pub open spec fn allocated_target(t: InstrumentTarget, trampoline_addr: u64, child_buffer_addr: u64) -> AllocatedTarget {
    AllocatedTarget {
        patch: choose_strategy(t.addr, trampoline_addr),
        trampoline_addr,
        child_buffer_addr,
        event_type: t.event_type,
        target_id: t.target_id,
    }
}

/// The trampoline of `a` when the code at its patch address is `w1`, `w2`.
pub open spec fn trampoline_words(a: AllocatedTarget, offsets: RuntimeOffsets, w1: i64, w2: i64) -> Seq<u32> {
    patched_blob_words(header_value(a.event_type, a.target_id.0), offsets.goid, a.child_buffer_addr)
        + a.patch.epilogue_words(a.patch.spec_patch_addr(), (a.trampoline_addr + 256) as u64, code_insts(w1, w2))
}

/// Building the trampoline of `a` stays within `u64`.
pub open spec fn trampoline_fits(a: AllocatedTarget, w1: i64, w2: i64) -> bool {
    &&& a.trampoline_addr + 256 <= u64::MAX
    &&& a.patch.epilogue_fits(a.patch.spec_patch_addr(), (a.trampoline_addr + 256) as u64, code_insts(w1, w2))
}

/// The state waiting on `p`, with the same targets.
pub open spec fn with_pending(s: InstrumentationView, p: Pending) -> InstrumentationView {
    InstrumentationView { pending: p, ..s }
}

/// Allocation continues at target `i`, or ends.
pub open spec fn alloc_from(s: InstrumentationView, i: int) -> (InstrumentationView, Option<ActionView>) {
    if i < s.targets.len() {
        (
            with_pending(s, Pending::MapTrampoline(i as usize)),
            Some(ActionView::Syscall(SYSCALL_MMAP, trampoline_mmap_params(s.targets[i].trampoline_hint))),
        )
    } else {
        (with_pending(s, Pending::ResumeAfterAlloc), Some(ActionView::Resume))
    }
}

/// Writing trampolines continues at target `i`, or ends.
pub open spec fn write_from(s: InstrumentationView, i: int) -> (InstrumentationView, Option<ActionView>) {
    if i < s.allocated.len() {
        (with_pending(s, Pending::ReadCode(i as usize)), Some(ActionView::ReadCode(s.allocated[i].patch.spec_patch_addr())))
    } else {
        (with_pending(s, Pending::ResumeAfterWrite), Some(ActionView::Resume))
    }
}

/// Protecting trampolines continues at target `i`, or ends.
pub open spec fn protect_from(s: InstrumentationView, i: int) -> (InstrumentationView, Option<ActionView>) {
    if i < s.allocated.len() {
        (
            with_pending(s, Pending::Protect(i as usize)),
            Some(ActionView::Syscall(SYSCALL_MPROTECT, mprotect_params(s.allocated[i].trampoline_addr))),
        )
    } else {
        (with_pending(s, Pending::ResumeAfterProtect), Some(ActionView::Resume))
    }
}

/// Patching continues at target `i`, or ends.
pub open spec fn patch_from(s: InstrumentationView, i: int) -> (InstrumentationView, Option<ActionView>) {
    if i < s.allocated.len() {
        (
            with_pending(s, Pending::Patch(i as usize)),
            Some(ActionView::Write(s.allocated[i].patch.spec_patch_addr(), s.allocated[i].patch.patch_words())),
        )
    } else {
        (with_pending(s, Pending::Detach), Some(ActionView::Detach))
    }
}

/// The event is the outcome of the pending action, and handling it stays
/// within the machine's integers.
pub open spec fn step_fits(s: InstrumentationView, e: Event) -> bool {
    match s.pending {
        Pending::MapTrampoline(_) => e is Returned,
        Pending::MapBuffer(i, t) => e matches Event::Returned(r) && (!syscall_failed(r) ==> offset_fits(
            s.targets[i as int].addr,
            t,
        )),
        Pending::Protect(_) => e is Returned,
        Pending::ReadCode(i) => e matches Event::Read(w1, w2) && trampoline_fits(s.allocated[i as int], w1, w2),
        Pending::Finished => false,
        _ => e is Done,
    }
}

/// The next state and action after event `e`, `None` once detached; or the
/// error that ends the instrumentation.
pub open spec fn instrumentation_step(s: InstrumentationView, e: Event) -> Result<
    (InstrumentationView, Option<ActionView>),
    InstrumentError,
> {
    match s.pending {
        Pending::StopForAlloc => Ok(alloc_from(s, 0)),
        Pending::MapTrampoline(i) => match e {
            Event::Returned(r) => if syscall_failed(r) {
                Err(InstrumentError::SyscallFailed(r))
            } else {
                Ok((with_pending(s, Pending::StopAfterTrampoline(i, r)), Some(ActionView::Interrupt)))
            },
            _ => Ok((s, None)),
        },
        Pending::StopAfterTrampoline(i, t) => Ok(
            (
                with_pending(s, Pending::MapBuffer(i, t)),
                Some(ActionView::Syscall(SYSCALL_MMAP, buffer_mmap_params(s.targets[i as int].buffer_fd))),
            ),
        ),
        Pending::MapBuffer(i, t) => match e {
            Event::Returned(r) => if syscall_failed(r) {
                Err(InstrumentError::SyscallFailed(r))
            } else {
                Ok(
                    (
                        InstrumentationView {
                            allocated: s.allocated.push(allocated_target(s.targets[i as int], t, r)),
                            pending: Pending::StopAfterBuffer(i),
                            ..s
                        },
                        Some(ActionView::Interrupt),
                    ),
                )
            },
            _ => Ok((s, None)),
        },
        Pending::StopAfterBuffer(i) => Ok(alloc_from(s, i + 1)),
        Pending::ResumeAfterAlloc => Ok((with_pending(s, Pending::StopForWrite), Some(ActionView::Interrupt))),
        Pending::StopForWrite => Ok(write_from(s, 0)),
        Pending::ReadCode(i) => match e {
            Event::Read(w1, w2) => Ok(
                (
                    with_pending(s, Pending::WriteTrampoline(i)),
                    Some(
                        ActionView::Write(
                            s.allocated[i as int].trampoline_addr,
                            trampoline_words(s.allocated[i as int], s.runtime_offsets, w1, w2),
                        ),
                    ),
                ),
            ),
            _ => Ok((s, None)),
        },
        Pending::WriteTrampoline(i) => Ok(write_from(InstrumentationView { written: (i + 1) as nat, ..s }, i + 1)),
        Pending::ResumeAfterWrite => Ok((with_pending(s, Pending::StopForProtect), Some(ActionView::Interrupt))),
        Pending::StopForProtect => Ok(protect_from(s, 0)),
        Pending::Protect(i) => match e {
            Event::Returned(r) => if syscall_failed(r) {
                Err(InstrumentError::SyscallFailed(r))
            } else if r != 0 {
                Err(InstrumentError::MprotectFailed(r))
            } else {
                Ok(
                    (
                        InstrumentationView { protected: (i + 1) as nat, pending: Pending::StopAfterProtect(i), ..s },
                        Some(ActionView::Interrupt),
                    ),
                )
            },
            _ => Ok((s, None)),
        },
        Pending::StopAfterProtect(i) => Ok(protect_from(s, i + 1)),
        Pending::ResumeAfterProtect => Ok((with_pending(s, Pending::StopForPatch), Some(ActionView::Interrupt))),
        Pending::StopForPatch => Ok(patch_from(s, 0)),
        Pending::Patch(i) => Ok(patch_from(s, i + 1)),
        Pending::Detach => Ok((with_pending(s, Pending::Finished), None)),
        Pending::Finished => Ok((s, None)),
    }
}

/// The view of an optional action.
pub open spec fn action_view(a: Option<Action>) -> Option<ActionView> {
    match a {
        Some(x) => Some(x@),
        None => None,
    }
}

/// The state an instrumentation starts in.
pub open spec fn initial_view(targets: Seq<InstrumentTarget>, runtime_offsets: RuntimeOffsets) -> InstrumentationView {
    InstrumentationView {
        targets,
        allocated: Seq::empty(),
        runtime_offsets,
        pending: Pending::StopForAlloc,
        written: 0,
        protected: 0,
    }
}

/// The allocated target `k` is the one made from target `k`, with a
/// trampoline mapped at a non-negative address.
pub open spec fn allocated_ok(targets: Seq<InstrumentTarget>, allocated: Seq<AllocatedTarget>, k: int) -> bool {
    &&& !syscall_failed(allocated[k].trampoline_addr)
    &&& allocated[k] == allocated_target(targets[k], allocated[k].trampoline_addr, allocated[k].child_buffer_addr)
    &&& offset_fits(targets[k].addr, allocated[k].trampoline_addr)
}

/// The mapped targets are made from the planned ones, in order.
pub open spec fn targets_wf(s: InstrumentationView) -> bool {
    &&& s.allocated.len() <= s.targets.len()
    &&& forall|k: int| 0 <= k < s.allocated.len() ==> #[trigger] allocated_ok(s.targets, s.allocated, k)
}

/// How far the instrumentation has come agrees with the pending action.
pub open spec fn view_wf(s: InstrumentationView) -> bool {
    let n = s.targets.len();
    let m = s.allocated.len();
    &&& targets_wf(s)
    &&& match s.pending {
        Pending::StopForAlloc => m == 0,
        Pending::MapTrampoline(i) => i < n && m == i,
        Pending::StopAfterTrampoline(i, t) => i < n && m == i && !syscall_failed(t),
        Pending::MapBuffer(i, t) => i < n && m == i && !syscall_failed(t),
        Pending::StopAfterBuffer(i) => i < n && m == i + 1,
        Pending::ReadCode(i) => m == n && i < n,
        Pending::WriteTrampoline(i) => m == n && i < n,
        Pending::Protect(i) => m == n && i < n,
        Pending::StopAfterProtect(i) => m == n && i < n,
        Pending::Patch(i) => m == n && i < n,
        _ => m == n,
    }
    &&& match s.pending {
        Pending::ReadCode(i) => s.written == i && s.protected == 0,
        Pending::WriteTrampoline(i) => s.written == i && s.protected == 0,
        Pending::ResumeAfterWrite | Pending::StopForProtect => s.written == n && s.protected == 0,
        Pending::Protect(i) => s.written == n && s.protected == i,
        Pending::StopAfterProtect(i) => s.written == n && s.protected == i + 1,
        Pending::ResumeAfterProtect | Pending::StopForPatch | Pending::Patch(_) | Pending::Detach
        | Pending::Finished => s.written == n && s.protected == n,
        _ => s.written == 0 && s.protected == 0,
    }
}

impl NotInstrumented {
    /// Starts instrumenting the targets: the first action stops the tracee.
    pub fn instrument(self) -> (r: (Instrumentation, Action))
        ensures
            r.0@ == initial_view(self.targets@, self.runtime_offsets),
            r.0.wf(),
            r.1@ == ActionView::Interrupt,
    {
        (
            Instrumentation {
                targets: self.targets,
                allocated: Vec::new(),
                runtime_offsets: self.runtime_offsets,
                pending: Pending::StopForAlloc,
                written: Ghost(0),
                protected: Ghost(0),
            },
            Action::Interrupt,
        )
    }
}

fn offsets_fit(from: u64, to: u64) -> (r: bool)
    ensures
        r == offset_fits(from, to),
{
    let d: i128 = (to as i64) as i128 - (from as i64) as i128;
    i64::MIN as i128 <= d && d <= i64::MAX as i128
}

impl Instrumentation {
    /// The state is consistent.
    pub closed spec fn wf(&self) -> bool {
        &&& view_wf(self@)
    }

    /// All targets are patched and the tracer has detached.
    pub fn is_finished(&self) -> (r: bool)
        ensures
            r == (self@.pending is Finished),
    {
        match self.pending {
            Pending::Finished => true,
            _ => false,
        }
    }

    fn alloc_action(&mut self, i: usize) -> (r: Action)
        requires
            targets_wf(old(self)@),
            i <= old(self)@.targets.len(),
            old(self)@.allocated.len() == i,
            old(self)@.written == 0 && old(self)@.protected == 0,
        ensures
            final(self).wf(),
            (final(self)@, Some(r@)) == alloc_from(old(self)@, i as int),
    {
        if i < self.targets.len() {
            self.pending = Pending::MapTrampoline(i);
            let hint = self.targets[i].trampoline_hint;
            Action::Syscall {
                number: SYSCALL_MMAP,
                params: vec![hint, TRAMPOLINE_SIZE, PROT_READ_WRITE, MAP_PRIVATE_ANONYMOUS, u64::MAX],
            }
        } else {
            self.pending = Pending::ResumeAfterAlloc;
            Action::Resume
        }
    }

    fn write_action(&mut self, i: usize) -> (r: Action)
        requires
            targets_wf(old(self)@),
            i <= old(self)@.allocated.len(),
            old(self)@.allocated.len() == old(self)@.targets.len(),
            old(self)@.written == i && old(self)@.protected == 0,
        ensures
            final(self).wf(),
            (final(self)@, Some(r@)) == write_from(old(self)@, i as int),
    {
        if i < self.allocated.len() {
            self.pending = Pending::ReadCode(i);
            Action::ReadCode { addr: self.allocated[i].patch.patch_addr() }
        } else {
            self.pending = Pending::ResumeAfterWrite;
            Action::Resume
        }
    }

    fn protect_action(&mut self, i: usize) -> (r: Action)
        requires
            targets_wf(old(self)@),
            i <= old(self)@.allocated.len(),
            old(self)@.allocated.len() == old(self)@.targets.len(),
            old(self)@.written == old(self)@.targets.len() && old(self)@.protected == i,
        ensures
            final(self).wf(),
            (final(self)@, Some(r@)) == protect_from(old(self)@, i as int),
    {
        if i < self.allocated.len() {
            self.pending = Pending::Protect(i);
            let t = self.allocated[i].trampoline_addr;
            Action::Syscall { number: SYSCALL_MPROTECT, params: vec![t, TRAMPOLINE_SIZE, PROT_READ_EXEC] }
        } else {
            self.pending = Pending::ResumeAfterProtect;
            Action::Resume
        }
    }

    fn patch_action(&mut self, i: usize) -> (r: Action)
        requires
            targets_wf(old(self)@),
            i <= old(self)@.allocated.len(),
            old(self)@.allocated.len() == old(self)@.targets.len(),
            old(self)@.written == old(self)@.targets.len() && old(self)@.protected == old(self)@.targets.len(),
        ensures
            final(self).wf(),
            (final(self)@, Some(r@)) == patch_from(old(self)@, i as int),
    {
        if i < self.allocated.len() {
            self.pending = Pending::Patch(i);
            let a = self.allocated[i];
            assert(allocated_ok(self@.targets, self@.allocated, i as int));
            let (instructions, addr) = a.patch.apply();
            Action::Write { addr, instructions }
        } else {
            self.pending = Pending::Detach;
            Action::Detach
        }
    }

    /// Whether `event` can be handed to `step`: it is the outcome of the
    /// pending action, and the addresses it yields keep the patch and the
    /// trampoline within `u64`.
    pub fn accepts(&self, event: &Event) -> (r: bool)
        requires
            self.wf(),
        ensures
            r == step_fits(self@, *event),
    {
        match self.pending {
            Pending::MapTrampoline(_) | Pending::Protect(_) => matches!(event, Event::Returned(_)),
            Pending::MapBuffer(i, t) => match event {
                Event::Returned(r) => {
                    if *r >= 0x8000_0000_0000_0000 {
                        true
                    } else {
                        offsets_fit(self.targets[i].addr, t)
                    }
                },
                _ => false,
            },
            Pending::ReadCode(i) => match event {
                Event::Read(w1, w2) => {
                    let a = self.allocated[i];
                    if a.trampoline_addr > u64::MAX - 256 {
                        false
                    } else {
                        let e = a.trampoline_addr + 256;
                        let insts = [*w1 as u32, (*w1 >> 32) as u32, *w2 as u32, (*w2 >> 32) as u32];
                        proof {
                            lemma_code_insts(*w1, *w2);
                        }
                        assert(insts =~= code_insts(*w1, *w2));
                        epilogue_fits_exec(&a.patch, e, insts)
                    }
                },
                _ => false,
            },
            Pending::Finished => false,
            _ => matches!(event, Event::Done),
        }
    }

    /// Handles the outcome of the pending action: returns the next action,
    /// `None` once detached, or the error that ends the instrumentation (a
    /// failed system call, or an `mprotect` that did not return 0).
    pub fn step(&mut self, event: Event) -> (r: Result<Option<Action>, InstrumentError>)
        requires
            old(self).wf(),
            step_fits(old(self)@, event),
        ensures
            match r {
                Ok(a) => {
                    &&& final(self).wf()
                    &&& instrumentation_step(old(self)@, event) == Ok::<
                        (InstrumentationView, Option<ActionView>),
                        InstrumentError,
                    >((final(self)@, action_view(a)))
                },
                Err(e) => instrumentation_step(old(self)@, event) == Err::<
                    (InstrumentationView, Option<ActionView>),
                    InstrumentError,
                >(e),
            },
    {
        let n_targets = self.targets.len();
        let n_allocated = self.allocated.len();
        assert(n_targets == self@.targets.len() && n_allocated == self@.allocated.len());
        match self.pending {
            Pending::StopForAlloc => Ok(Some(self.alloc_action(0))),
            Pending::MapTrampoline(i) => {
                let ret = match event {
                    Event::Returned(r) => r,
                    _ => 0,
                };
                let t = match syscall_result(ret) {
                    Ok(t) => t,
                    Err(e) => {
                        return Err(e);
                    },
                };
                self.pending = Pending::StopAfterTrampoline(i, t);
                Ok(Some(Action::Interrupt))
            },
            Pending::StopAfterTrampoline(i, t) => {
                self.pending = Pending::MapBuffer(i, t);
                let fd = self.targets[i].buffer_fd;
                Ok(Some(Action::Syscall { number: SYSCALL_MMAP, params: vec![0, BUFFER_MAP_SIZE, PROT_READ_WRITE, MAP_SHARED, #[verifier::truncate] (fd as u64), 0] }))
            },
            Pending::MapBuffer(i, t) => {
                let ret = match event {
                    Event::Returned(r) => r,
                    _ => 0,
                };
                let b = match syscall_result(ret) {
                    Ok(b) => b,
                    Err(e) => {
                        return Err(e);
                    },
                };
                let target = self.targets[i];
                let ghost old_alloc = self.allocated@;
                let patch = BranchStrategy::new(target.addr, t);
                self.allocated.push(
                    AllocatedTarget {
                        patch,
                        trampoline_addr: t,
                        child_buffer_addr: b,
                        event_type: target.event_type,
                        target_id: target.target_id,
                    },
                );
                self.pending = Pending::StopAfterBuffer(i);
                assert forall|k: int| 0 <= k < self@.allocated.len() implies #[trigger] allocated_ok(
                    self@.targets,
                    self@.allocated,
                    k,
                ) by {
                    if k < i {
                        assert(self@.allocated[k] == old_alloc[k]);
                        assert(allocated_ok(self@.targets, old_alloc, k));
                    }
                }
                Ok(Some(Action::Interrupt))
            },
            Pending::StopAfterBuffer(i) => Ok(Some(self.alloc_action(i + 1))),
            Pending::ResumeAfterAlloc => {
                self.pending = Pending::StopForWrite;
                Ok(Some(Action::Interrupt))
            },
            Pending::StopForWrite => Ok(Some(self.write_action(0))),
            Pending::ReadCode(i) => {
                let (w1, w2) = match event {
                    Event::Read(w1, w2) => (w1, w2),
                    _ => (0, 0),
                };
                let a = self.allocated[i];
                assert(allocated_ok(self@.targets, self@.allocated, i as int));
                proof {
                    lemma_code_insts(w1, w2);
                }
                assert([
                    #[verifier::truncate] (w1 as u32),
                    #[verifier::truncate] ((w1 >> 32) as u32),
                    #[verifier::truncate] (w2 as u32),
                    #[verifier::truncate] ((w2 >> 32) as u32),
                ] =~= code_insts(w1, w2));
                let patch_addr = a.patch.patch_addr();
                let trampoline = build_trampoline(
                    &a.patch,
                    a.child_buffer_addr,
                    patch_addr,
                    a.trampoline_addr,
                    #[verifier::truncate] (w1 as u32),
                    #[verifier::truncate] ((w1 >> 32) as u32),
                    #[verifier::truncate] (w2 as u32),
                    #[verifier::truncate] ((w2 >> 32) as u32),
                    a.event_type,
                    a.target_id,
                    &self.runtime_offsets,
                );
                self.pending = Pending::WriteTrampoline(i);
                Ok(Some(Action::Write { addr: a.trampoline_addr, instructions: trampoline }))
            },
            Pending::WriteTrampoline(i) => {
                self.written = Ghost((i + 1) as nat);
                Ok(Some(self.write_action(i + 1)))
            },
            Pending::ResumeAfterWrite => {
                self.pending = Pending::StopForProtect;
                Ok(Some(Action::Interrupt))
            },
            Pending::StopForProtect => Ok(Some(self.protect_action(0))),
            Pending::Protect(i) => {
                let ret = match event {
                    Event::Returned(r) => r,
                    _ => 0,
                };
                let result = match syscall_result(ret) {
                    Ok(result) => result,
                    Err(e) => {
                        return Err(e);
                    },
                };
                if result != 0 {
                    return Err(InstrumentError::MprotectFailed(result));
                }
                self.pending = Pending::StopAfterProtect(i);
                self.protected = Ghost((i + 1) as nat);
                Ok(Some(Action::Interrupt))
            },
            Pending::StopAfterProtect(i) => Ok(Some(self.protect_action(i + 1))),
            Pending::ResumeAfterProtect => {
                self.pending = Pending::StopForPatch;
                Ok(Some(Action::Interrupt))
            },
            Pending::StopForPatch => Ok(Some(self.patch_action(0))),
            Pending::Patch(i) => Ok(Some(self.patch_action(i + 1))),
            Pending::Detach => {
                self.pending = Pending::Finished;
                Ok(None)
            },
            Pending::Finished => Ok(None),
        }
    }
}

proof fn lemma_code_insts(w1: i64, w2: i64)
    by (bit_vector)
    ensures
        (w1 as u32) == ((w1 as u64) % 0x1_0000_0000) as u32,
        ((w1 >> 32u64) as u32) == ((w1 as u64) / 0x1_0000_0000) as u32,
        (w2 as u32) == ((w2 as u64) % 0x1_0000_0000) as u32,
        ((w2 >> 32u64) as u32) == ((w2 as u64) / 0x1_0000_0000) as u32,
{
}

fn epilogue_fits_exec(patch: &BranchStrategy, epilogue_addr: u64, insts: [u32; 4]) -> (r: bool)
    ensures
        r == patch.epilogue_fits(patch.spec_patch_addr(), epilogue_addr, insts),
{
    match patch {
        BranchStrategy::Branch { patch_addr, .. } => {
            if insts[0] == RET {
                true
            } else if epilogue_addr > u64::MAX - 4 || *patch_addr > u64::MAX - 4 {
                false
            } else {
                offsets_fit(epilogue_addr + 4, *patch_addr + 4)
            }
        },
        BranchStrategy::JumpToAbs { patch_addr, .. } => *patch_addr <= u64::MAX - 16,
    }
}

/// In every consistent state of an instrumentation, the patch prepared for
/// each target whose trampoline is mapped is written at the target's address
/// and transfers control from there to that target's trampoline.
pub proof fn lemma_patches_reach_trampolines(s: InstrumentationView)
    requires
        view_wf(s),
    ensures
        forall|k: int| 0 <= k < s.allocated.len() ==> {
            &&& (#[trigger] s.allocated[k]).patch.spec_patch_addr() == s.targets[k].addr
            &&& jump_target(s.allocated[k].patch.patch_words(), s.targets[k].addr) == s.allocated[k].trampoline_addr
        },
{
    assert forall|k: int| 0 <= k < s.allocated.len() implies {
        &&& (#[trigger] s.allocated[k]).patch.spec_patch_addr() == s.targets[k].addr
        &&& jump_target(s.allocated[k].patch.patch_words(), s.targets[k].addr) == s.allocated[k].trampoline_addr
    } by {
        assert(allocated_ok(s.targets, s.allocated, k));
        lemma_patch_reaches_trampoline(s.targets[k].addr, s.allocated[k].trampoline_addr);
    }
}

/// The trampoline written for a target loads the event header (event type
/// and target id) into x0, the goroutine-id offset into x1 and the address of
/// the target's buffer in the tracee into x9, and ends with the epilogue that
/// re-executes the overwritten code and returns to it.
pub proof fn lemma_trampoline_records_event(a: AllocatedTarget, offsets: RuntimeOffsets, w1: i64, w2: i64)
    ensures
        ({
            let t = trampoline_words(a, offsets, w1, w2);
            &&& t.subrange(16, 20) == full_mov_words(0, header_value(a.event_type, a.target_id.0))
            &&& t.subrange(21, 25) == full_mov_words(1, offsets.goid)
            &&& t.subrange(30, 34) == full_mov_words(9, a.child_buffer_addr)
            &&& t.subrange(64, t.len() as int) == a.patch.epilogue_words(
                a.patch.spec_patch_addr(),
                (a.trampoline_addr + 256) as u64,
                code_insts(w1, w2),
            )
        }),
{
    let h = header_value(a.event_type, a.target_id.0);
    let body = patched_blob_words(h, offsets.goid, a.child_buffer_addr);
    let e = a.patch.epilogue_words(a.patch.spec_patch_addr(), (a.trampoline_addr + 256) as u64, code_insts(w1, w2));
    lemma_patched_blob_loads(h, offsets.goid, a.child_buffer_addr, 0);
    lemma_patched_blob_len(h, offsets.goid, a.child_buffer_addr);
    let t = body + e;
    assert(t.subrange(16, 20) =~= body.subrange(16, 20));
    assert(t.subrange(21, 25) =~= body.subrange(21, 25));
    assert(t.subrange(30, 34) =~= body.subrange(30, 34));
    assert(t.subrange(64, t.len() as int) =~= e);
}

/// No target is patched before every trampoline is written and made
/// executable: `mprotect` is asked for only once all trampolines are written,
/// and while a patch is written, or once the tracer has detached, all
/// trampolines are written and executable.
pub proof fn lemma_patch_after_protect(s: InstrumentationView)
    requires
        view_wf(s),
    ensures
        s.pending is Protect || s.pending is StopAfterProtect ==> s.written == s.targets.len(),
        s.pending is Patch || s.pending is Detach || s.pending is Finished ==> s.written == s.targets.len()
            && s.protected == s.targets.len(),
{
}

/// Whether the tracee runs once the action that `p` waits on is done: after a
/// system call or a resume it runs, after an interrupt, a read or a write it
/// is stopped.
pub open spec fn runs_after(p: Pending) -> bool {
    match p {
        Pending::MapTrampoline(_) | Pending::MapBuffer(..) | Pending::Protect(_) | Pending::ResumeAfterAlloc
        | Pending::ResumeAfterWrite | Pending::ResumeAfterProtect => true,
        _ => false,
    }
}

/// The action needs a stopped tracee; only an interrupt needs a running one.
pub open spec fn needs_stopped(a: ActionView) -> bool {
    !(a is Interrupt)
}

/// The instrumentation never asks for an action the tracee's state does not
/// allow: it interrupts only a running tracee, and makes system calls, reads,
/// writes, resumes and detaches only when the tracee is stopped. It starts
/// with an interrupt of the running tracee.
pub proof fn lemma_actions_respect_tracee_state(s: InstrumentationView, e: Event)
    requires
        view_wf(s),
        step_fits(s, e),
    ensures
        match instrumentation_step(s, e) {
            Ok((_, Some(a))) => needs_stopped(a) == !runs_after(s.pending),
            _ => true,
        },
{
}

} // verus!
