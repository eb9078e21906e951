use vstd::prelude::*;

use super::encode::{build_large_mov, large_mov_words};
use super::patch::BranchStrategy;
use super::trampoline::{event_header, header_value};
use super::{record_event, record_event_words, Instructions};
use crate::dwarf::RuntimeOffsets;
use crate::event::TargetId;

verus! {

/// The event-recording part of a generated trampoline.
pub open spec fn generated_body_words(header_val: u64, goid_offset: u64, buffer_addr: u64) -> Seq<u32> {
    record_event_words(large_mov_words(0, header_val), goid_offset, buffer_addr)
}

/// Builds a trampoline whose event-recording code is generated instruction by
/// instruction, followed by the epilogue of `patch`.
pub fn build_trampoline(
    patch: &BranchStrategy,
    buffer_addr: u64,
    replaced_addr: u64,
    trampoline_addr: u64,
    inst1: u32,
    inst2: u32,
    inst3: u32,
    inst4: u32,
    event_type: u8,
    target_id: TargetId,
    runtime_offsets: &RuntimeOffsets,
) -> (r: Instructions)
    requires
        ({
            let body = generated_body_words(header_value(event_type, target_id.0), runtime_offsets.goid, buffer_addr);
            &&& trampoline_addr + body.len() * 4 <= u64::MAX
            &&& patch.epilogue_fits(replaced_addr, (trampoline_addr + body.len() * 4) as u64, [inst1, inst2, inst3, inst4])
        }),
    ensures
        ({
            let body = generated_body_words(header_value(event_type, target_id.0), runtime_offsets.goid, buffer_addr);
            r@ == body + patch.epilogue_words(replaced_addr, (trampoline_addr + body.len() * 4) as u64, [inst1, inst2, inst3, inst4])
        }),
{
    let header_val: u64 = event_header(event_type, target_id);
    let mut instructions = record_event(build_large_mov(0, header_val), runtime_offsets.goid, buffer_addr);
    let epilogue_addr = trampoline_addr + instructions.len() as u64 * 4;
    instructions.join(patch.build_epilogue(replaced_addr, epilogue_addr, [inst1, inst2, inst3, inst4]));
    instructions
}

} // verus!
