pub mod plan;
pub mod svc;
pub mod trampoline;

use vstd::prelude::*;

use crate::dwarf::RuntimeOffsets;
use crate::error::{DwarfError, InstrumentError, ProcError};
use crate::event::TargetId;
use crate::symbol_analyzer::FunctionAnalysis;
use plan::{plan_available, plan_fits, plan_instrumentation, planned_target, regions_after, target_addrs};
use trampoline::NotInstrumented;

verus! {

/// Instruments functions of one tracee, one after another: it keeps the
/// address ranges mapped in the tracee, so that trampolines are placed in free
/// space, and the runtime offsets of the first function instrumented.
pub struct Instrumenter {
    regions: Vec<(u64, u64)>,
    runtime_offsets: Option<RuntimeOffsets>,
}

impl Instrumenter {
    /// The address ranges known to be mapped in the tracee.
    pub closed spec fn regions(&self) -> Seq<(u64, u64)> {
        self.regions@
    }

    /// The runtime offsets in use, once a function is instrumented.
    pub closed spec fn offsets(&self) -> Option<RuntimeOffsets> {
        self.runtime_offsets
    }

    /// Starts from the ranges mapped in the tracee; `None` when its memory map
    /// could not be read.
    pub fn new(regions: Option<Vec<(u64, u64)>>) -> (r: Result<Self, InstrumentError>)
        ensures
            match r {
                Ok(inst) => regions matches Some(rs) && inst.regions() == rs@ && inst.offsets() is None,
                Err(e) => regions is None && e == InstrumentError::ProcError(ProcError::IoError),
            },
    {
        match regions {
            Some(regions) => Ok(Instrumenter { regions, runtime_offsets: None }),
            None => Err(InstrumentError::ProcError(ProcError::IoError)),
        }
    }

    /// Whether `add_target` can place the trampolines of `analysis` without
    /// leaving `u64`.
    pub fn can_plan(&self, analysis: &FunctionAnalysis) -> (r: bool)
        ensures
            r == plan_fits(self.regions(), target_addrs(analysis.entry_addr, analysis.ret_addrs@)),
    {
        plan_available(&self.regions, analysis)
    }

    /// Plans the instrumentation of the function of `analysis`, whose image
    /// has the runtime offsets `image_offsets` (`None` when they are unknown),
    /// and returns the instrumenter with the trampoline regions recorded, and
    /// the targets to instrument. The first runtime offsets used are kept for
    /// all later functions.
    pub fn add_target(
        self,
        analysis: &FunctionAnalysis,
        image_offsets: Option<RuntimeOffsets>,
        buffer_fd: i32,
        target_id: TargetId,
    ) -> (r: Result<(Instrumenter, NotInstrumented), InstrumentError>)
        requires
            image_offsets is Some ==> plan_fits(self.regions(), target_addrs(analysis.entry_addr, analysis.ret_addrs@)),
        ensures
            match r {
                Ok((inst, planned)) => {
                    let addrs = target_addrs(analysis.entry_addr, analysis.ret_addrs@);
                    let used = match self.offsets() {
                        Some(o) => o,
                        None => image_offsets->0,
                    };
                    &&& image_offsets is Some
                    &&& inst.regions() == regions_after(self.regions(), addrs, addrs.len() as int)
                    &&& inst.offsets() == Some(used)
                    &&& planned.runtime_offsets == used
                    &&& planned.targets@.len() == addrs.len()
                    &&& forall|i: int| 0 <= i < addrs.len() ==> #[trigger] planned.targets@[i] == planned_target(
                        self.regions(),
                        addrs,
                        i,
                        buffer_fd,
                        target_id,
                    )
                },
                Err(e) => image_offsets is None && e == InstrumentError::DwarfError(DwarfError::NoDwarfInfo),
            },
    {
        let mut this = self;
        let plan = match plan_instrumentation(&mut this.regions, analysis, image_offsets, buffer_fd, target_id) {
            Ok(plan) => plan,
            Err(e) => {
                return Err(e);
            },
        };
        let runtime_offsets = match this.runtime_offsets {
            Some(o) => o,
            None => {
                this.runtime_offsets = Some(plan.runtime_offsets);
                plan.runtime_offsets
            },
        };
        Ok((this, NotInstrumented { targets: plan.targets, runtime_offsets }))
    }
}

} // verus!
