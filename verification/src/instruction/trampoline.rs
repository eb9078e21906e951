use vstd::prelude::*;

use super::blob::{build_trampoline_from_blob, patched_blob_words};
use super::patch::BranchStrategy;
use super::Instructions;
use crate::dwarf::RuntimeOffsets;
use crate::event::TargetId;

verus! {

/// The header word of a trace event: the event type in the low byte, the
/// target id in the top 16 bits.
pub open spec fn header_value(event_type: u8, target_id: u16) -> u64 {
    (event_type as int + target_id as int * 0x1_0000_0000_0000) as u64
}

proof fn lemma_header_value(event_type: u8, target_id: u16)
    by (bit_vector)
    ensures
        ((event_type as u64) | ((target_id as u64) << 48u64)) == (event_type as int + target_id as int
            * 0x1_0000_0000_0000) as u64,
{
}

/// Computes the header word of a trace event.
pub fn event_header(event_type: u8, target_id: TargetId) -> (r: u64)
    ensures
        r == header_value(event_type, target_id.0),
{
    proof {
        lemma_header_value(event_type, target_id.0);
    }
    (event_type as u64) | ((target_id.0 as u64) << 48)
}

/// Builds the trampoline for one patched address: the blob body recording the
/// event, then the epilogue re-executing the overwritten instructions and
/// jumping back.
pub fn build_trampoline(
    patch: &BranchStrategy,
    buffer_addr: u64,
    replaced_addr: u64,
    trampoline_addr: u64,
    inst1: u32,
    inst2: u32,
    inst3: u32,
    inst4: u32,
    event_type: u8,
    target_id: TargetId,
    runtime_offsets: &RuntimeOffsets,
) -> (r: Instructions)
    requires
        trampoline_addr + 256 <= u64::MAX,
        patch.epilogue_fits(replaced_addr, (trampoline_addr + 256) as u64, [inst1, inst2, inst3, inst4]),
    ensures
        r@ == patched_blob_words(header_value(event_type, target_id.0), runtime_offsets.goid, buffer_addr)
            + patch.epilogue_words(replaced_addr, (trampoline_addr + 256) as u64, [inst1, inst2, inst3, inst4]),
{
    let header_val: u64 = event_header(event_type, target_id);
    let mut instructions = build_trampoline_from_blob(header_val, runtime_offsets.goid, buffer_addr);
    proof {
        super::blob::lemma_patched_blob_len(header_val, runtime_offsets.goid, buffer_addr);
    }
    let epilogue_addr = trampoline_addr + instructions.len() as u64 * 4;
    instructions.join(patch.build_epilogue(replaced_addr, epilogue_addr, [inst1, inst2, inst3, inst4]));
    instructions
}

} // verus!
