use vstd::prelude::*;

use crate::error::InstrumentError;
use crate::instruction::Instructions;

verus! {

/// The `mmap` system call number on aarch64 Linux.
pub const SYSCALL_MMAP: u64 = 222;

/// The `mprotect` system call number on aarch64 Linux.
pub const SYSCALL_MPROTECT: u64 = 226;

/// `svc #0`.
pub const SVC_0: u32 = 0xd4000001;

/// `brk #0`.
pub const BRK_0: u32 = 0xd4200000;

/// The general registers of a stopped aarch64 tracee.
#[derive(Debug, Clone, Copy)]
pub struct Registers {
    pub regs: [u64; 31],
    pub sp: u64,
    pub pc: u64,
    pub pstate: u64,
}

/// Registers as plain values.
pub struct RegistersView {
    pub regs: Seq<u64>,
    pub sp: u64,
    pub pc: u64,
    pub pstate: u64,
}

impl View for Registers {
    type V = RegistersView;

    open spec fn view(&self) -> RegistersView {
        RegistersView { regs: self.regs@, sp: self.sp, pc: self.pc, pstate: self.pstate }
    }
}

/// The code injected at the tracee's pc to make a system call: `svc #0`, then
/// `brk #0` so that the tracer regains control.
pub fn build_svc() -> (r: Instructions)
    ensures
        r@ == seq![SVC_0, BRK_0],
{
    let mut instructions = Instructions::new();
    instructions.push(0xd4000001);
    instructions.push(0xd4200000);
    instructions
}

/// Register `i` for a system call: x8 holds the number, x0.. the parameters,
/// the others keep their saved value.
pub open spec fn syscall_reg(saved: Seq<u64>, number: u64, params: Seq<u64>, i: int) -> u64 {
    if i == 8 {
        number
    } else if i < params.len() {
        params[i]
    } else {
        saved[i]
    }
}

/// The registers with which the tracee makes system call `number` with
/// `params`: the saved registers with the parameters in x0.. (as many as there
/// are registers) and the number in x8.
pub fn syscall_registers(saved: &Registers, number: u64, params: &[u64]) -> (r: Registers)
    ensures
        r.sp == saved.sp,
        r.pc == saved.pc,
        r.pstate == saved.pstate,
        forall|i: int| 0 <= i < 31 ==> #[trigger] r.regs[i] == syscall_reg(saved.regs@, number, params@, i),
{
    let mut regs = *saved;
    let mut i: usize = 0;
    while i < params.len() && i < 31
        invariant
            i <= 31,
            regs.sp == saved.sp,
            regs.pc == saved.pc,
            regs.pstate == saved.pstate,
            forall|j: int| 0 <= j < 31 ==> #[trigger] regs.regs[j] == (if j < i && j < params@.len() {
                params@[j]
            } else {
                saved.regs[j]
            }),
        decreases 31 - i,
    {
        regs.regs[i] = params[i];
        i += 1;
    }
    regs.regs[8] = number;
    regs
}

/// A system call's return value read as signed is negative: an `-errno`.
pub open spec fn syscall_failed(ret: u64) -> bool {
    ret >= 0x8000_0000_0000_0000
}

proof fn lemma_sign(ret: u64)
    by (bit_vector)
    ensures
        ((ret as i64) < 0) == (ret >= 0x8000_0000_0000_0000),
{
}

/// The outcome of a system call made in the tracee: its return value, or
/// `SyscallFailed` when that value is negative.
pub fn syscall_result(ret: u64) -> (r: Result<u64, InstrumentError>)
    ensures
        r == (if syscall_failed(ret) {
            Err::<u64, InstrumentError>(InstrumentError::SyscallFailed(ret))
        } else {
            Ok::<u64, InstrumentError>(ret)
        }),
{
    proof {
        lemma_sign(ret);
    }
    if (ret as i64) < 0 {
        Err(InstrumentError::SyscallFailed(ret))
    } else {
        Ok(ret)
    }
}

} // verus!

verus! {

/// What the tracer is to do next for a system call made in the tracee.
pub enum SvcAction {
    /// Read the tracee's registers.
    GetRegisters,
    /// Set the tracee's registers.
    SetRegisters(Registers),
    /// Write instructions at `addr`, keeping what they replace.
    WriteCode { addr: u64, instructions: Instructions },
    /// Let the tracee run until it traps.
    RunToTrap,
    /// Let the tracee run.
    Resume,
}

/// An action, with its instructions as words.
pub enum SvcActionView {
    GetRegisters,
    SetRegisters(RegistersView),
    WriteCode(u64, Seq<u32>),
    RunToTrap,
    Resume,
}

impl View for SvcAction {
    type V = SvcActionView;

    open spec fn view(&self) -> SvcActionView {
        match self {
            SvcAction::GetRegisters => SvcActionView::GetRegisters,
            SvcAction::SetRegisters(r) => SvcActionView::SetRegisters(r@),
            SvcAction::WriteCode { addr, instructions } => SvcActionView::WriteCode(*addr, instructions@),
            SvcAction::RunToTrap => SvcActionView::RunToTrap,
            SvcAction::Resume => SvcActionView::Resume,
        }
    }
}

/// What came of the last action.
pub enum SvcEvent {
    /// The registers read.
    Registers(Registers),
    /// The instructions that a write replaced.
    Written(Instructions),
    /// The action completed.
    Done,
}

/// An event, with its instructions as words.
pub enum SvcEventView {
    Registers(RegistersView),
    Written(Seq<u32>),
    Done,
}

impl View for SvcEvent {
    type V = SvcEventView;

    open spec fn view(&self) -> SvcEventView {
        match self {
            SvcEvent::Registers(r) => SvcEventView::Registers(r@),
            SvcEvent::Written(i) => SvcEventView::Written(i@),
            SvcEvent::Done => SvcEventView::Done,
        }
    }
}

/// Where a system call stands; the saved registers and code travel along.
pub enum SvcStage {
    /// The registers are being read.
    Saving,
    /// The call's registers are being set.
    Setting(Registers),
    /// The call is being written at the pc.
    Injecting(Registers),
    /// The tracee runs the call.
    Running(Registers, Instructions),
    /// The registers after the call are being read.
    Reading(Registers, Instructions),
    /// The code at the pc is being restored; the call returned the value.
    Restoring(Registers, u64),
    /// The registers are being restored.
    Resetting(u64),
    /// The tracee is let run again.
    Resuming(u64),
    Finished,
}

/// A stage, with its instructions as words.
pub enum SvcStageView {
    Saving,
    Setting(RegistersView),
    Injecting(RegistersView),
    Running(RegistersView, Seq<u32>),
    Reading(RegistersView, Seq<u32>),
    Restoring(RegistersView, u64),
    Resetting(u64),
    Resuming(u64),
    Finished,
}

impl View for SvcStage {
    type V = SvcStageView;

    open spec fn view(&self) -> SvcStageView {
        match self {
            SvcStage::Saving => SvcStageView::Saving,
            SvcStage::Setting(r) => SvcStageView::Setting(r@),
            SvcStage::Injecting(r) => SvcStageView::Injecting(r@),
            SvcStage::Running(r, c) => SvcStageView::Running(r@, c@),
            SvcStage::Reading(r, c) => SvcStageView::Reading(r@, c@),
            SvcStage::Restoring(r, v) => SvcStageView::Restoring(r@, *v),
            SvcStage::Resetting(v) => SvcStageView::Resetting(*v),
            SvcStage::Resuming(v) => SvcStageView::Resuming(*v),
            SvcStage::Finished => SvcStageView::Finished,
        }
    }
}

/// The outcome of one step of a system call.
pub enum SvcStep {
    Act(SvcAction),
    /// The call is over and the tracee runs; it returned this value.
    Returned(u64),
}

/// A step's outcome, with its instructions as words.
pub enum SvcStepView {
    Act(SvcActionView),
    Returned(u64),
}

pub open spec fn svc_step_view(s: SvcStep) -> SvcStepView {
    match s {
        SvcStep::Act(a) => SvcStepView::Act(a@),
        SvcStep::Returned(v) => SvcStepView::Returned(v),
    }
}

/// A system call made in a stopped tracee: the registers are saved and set
/// for the call, `svc #0; brk #0` is written at the pc, the tracee runs to the
/// trap, the return value is read from x0; on success the code and the
/// registers are restored and the tracee runs again.
pub struct SyscallSession {
    number: u64,
    params: Vec<u64>,
    stage: SvcStage,
}

/// The event answers the action the call waits on.
pub open spec fn svc_event_fits(stage: SvcStageView, e: SvcEventView) -> bool {
    match stage {
        SvcStageView::Saving | SvcStageView::Reading(..) => e is Registers,
        SvcStageView::Injecting(_) | SvcStageView::Restoring(..) => e is Written,
        SvcStageView::Finished => false,
        _ => e is Done,
    }
}

/// The next stage and outcome after event `e`, or the failure of the call.
pub open spec fn svc_step(number: u64, params: Seq<u64>, stage: SvcStageView, e: SvcEventView) -> Result<
    (SvcStageView, SvcStepView),
    InstrumentError,
> {
    match (stage, e) {
        (SvcStageView::Saving, SvcEventView::Registers(saved)) => Ok(
            (
                SvcStageView::Setting(saved),
                SvcStepView::Act(SvcActionView::SetRegisters(syscall_registers_of(saved, number, params))),
            ),
        ),
        (SvcStageView::Setting(saved), _) => Ok(
            (SvcStageView::Injecting(saved), SvcStepView::Act(SvcActionView::WriteCode(saved.pc, seq![SVC_0, BRK_0]))),
        ),
        (SvcStageView::Injecting(saved), SvcEventView::Written(code)) => Ok(
            (SvcStageView::Running(saved, code), SvcStepView::Act(SvcActionView::RunToTrap)),
        ),
        (SvcStageView::Running(saved, code), _) => Ok(
            (SvcStageView::Reading(saved, code), SvcStepView::Act(SvcActionView::GetRegisters)),
        ),
        (SvcStageView::Reading(saved, code), SvcEventView::Registers(after)) => if syscall_failed(after.regs[0]) {
            Err(InstrumentError::SyscallFailed(after.regs[0]))
        } else {
            Ok(
                (
                    SvcStageView::Restoring(saved, after.regs[0]),
                    SvcStepView::Act(SvcActionView::WriteCode(saved.pc, code)),
                ),
            )
        },
        (SvcStageView::Restoring(saved, ret), _) => Ok(
            (SvcStageView::Resetting(ret), SvcStepView::Act(SvcActionView::SetRegisters(saved))),
        ),
        (SvcStageView::Resetting(ret), _) => Ok((SvcStageView::Resuming(ret), SvcStepView::Act(SvcActionView::Resume))),
        (SvcStageView::Resuming(ret), _) => Ok((SvcStageView::Finished, SvcStepView::Returned(ret))),
        _ => Ok((stage, SvcStepView::Act(SvcActionView::Resume))),
    }
}

/// The registers that `syscall_registers` gives.
pub open spec fn syscall_registers_of(saved: RegistersView, number: u64, params: Seq<u64>) -> RegistersView {
    RegistersView { regs: Seq::new(31, |i: int| syscall_reg(saved.regs, number, params, i)), ..saved }
}

impl SyscallSession {
    pub closed spec fn number(&self) -> u64 {
        self.number
    }

    pub closed spec fn params(&self) -> Seq<u64> {
        self.params@
    }

    pub closed spec fn stage(&self) -> SvcStageView {
        self.stage@
    }

    /// Starts system call `number` with `params`: the first action reads the
    /// registers.
    pub fn new(number: u64, params: Vec<u64>) -> (r: (SyscallSession, SvcAction))
        ensures
            r.0.number() == number,
            r.0.params() == params@,
            r.0.stage() == SvcStageView::Saving,
            r.1@ == SvcActionView::GetRegisters,
    {
        (SyscallSession { number, params, stage: SvcStage::Saving }, SvcAction::GetRegisters)
    }

    /// Whether `event` answers the action the call waits on.
    pub fn accepts(&self, event: &SvcEvent) -> (r: bool)
        ensures
            r == svc_event_fits(self.stage(), event@),
    {
        match &self.stage {
            SvcStage::Saving | SvcStage::Reading(..) => matches!(event, SvcEvent::Registers(_)),
            SvcStage::Injecting(_) | SvcStage::Restoring(..) => matches!(event, SvcEvent::Written(_)),
            SvcStage::Finished => false,
            _ => matches!(event, SvcEvent::Done),
        }
    }

    /// Takes in what the last action gave and says what to do next, or the
    /// value the call returned once the tracee runs again; a negative return
    /// value fails the call before anything is restored.
    pub fn step(&mut self, event: SvcEvent) -> (r: Result<SvcStep, InstrumentError>)
        requires
            svc_event_fits(old(self).stage(), event@),
        ensures
            final(self).number() == old(self).number(),
            final(self).params() == old(self).params(),
            match r {
                Ok(s) => svc_step(old(self).number(), old(self).params(), old(self).stage(), event@) == Ok::<
                    (SvcStageView, SvcStepView),
                    InstrumentError,
                >((final(self).stage(), svc_step_view(s))),
                Err(e) => svc_step(old(self).number(), old(self).params(), old(self).stage(), event@) == Err::<
                    (SvcStageView, SvcStepView),
                    InstrumentError,
                >(e),
            },
    {
        let mut stage = SvcStage::Finished;
        std::mem::swap(&mut stage, &mut self.stage);
        match (stage, event) {
            (SvcStage::Saving, SvcEvent::Registers(saved)) => {
                let regs = syscall_registers(&saved, self.number, self.params.as_slice());
                assert(regs@.regs =~= syscall_registers_of(saved@, self.number, self.params@).regs);
                self.stage = SvcStage::Setting(saved);
                Ok(SvcStep::Act(SvcAction::SetRegisters(regs)))
            },
            (SvcStage::Setting(saved), _) => {
                self.stage = SvcStage::Injecting(saved);
                Ok(SvcStep::Act(SvcAction::WriteCode { addr: saved.pc, instructions: build_svc() }))
            },
            (SvcStage::Injecting(saved), SvcEvent::Written(code)) => {
                self.stage = SvcStage::Running(saved, code);
                Ok(SvcStep::Act(SvcAction::RunToTrap))
            },
            (SvcStage::Running(saved, code), _) => {
                self.stage = SvcStage::Reading(saved, code);
                Ok(SvcStep::Act(SvcAction::GetRegisters))
            },
            (SvcStage::Reading(saved, code), SvcEvent::Registers(after)) => {
                let ret = match syscall_result(after.regs[0]) {
                    Ok(v) => v,
                    Err(e) => {
                        return Err(e);
                    },
                };
                self.stage = SvcStage::Restoring(saved, ret);
                Ok(SvcStep::Act(SvcAction::WriteCode { addr: saved.pc, instructions: code }))
            },
            (SvcStage::Restoring(saved, ret), _) => {
                self.stage = SvcStage::Resetting(ret);
                Ok(SvcStep::Act(SvcAction::SetRegisters(saved)))
            },
            (SvcStage::Resetting(ret), _) => {
                self.stage = SvcStage::Resuming(ret);
                Ok(SvcStep::Act(SvcAction::Resume))
            },
            (SvcStage::Resuming(ret), _) => {
                self.stage = SvcStage::Finished;
                Ok(SvcStep::Returned(ret))
            },
            (stage, _) => {
                self.stage = stage;
                Ok(SvcStep::Act(SvcAction::Resume))
            },
        }
    }
}

} // verus!
