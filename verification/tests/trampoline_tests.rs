use binbased_tracing::dwarf::RuntimeOffsets;
use binbased_tracing::event::TargetId;
use binbased_tracing::instruction::blob::{build_trampoline_from_blob, decode_blob, patch_magic_chunks, MAGIC_GOID_OFFSET, MAGIC_HEADER_VAL};
use binbased_tracing::instruction::patch::BranchStrategy;
use binbased_tracing::instruction::trampoline::build_trampoline;
use binbased_tracing::instruction::{jump_to_abs, EntryTrampolineBuilder, Instructions, TrampolineBuilder};

fn words(i: &Instructions) -> Vec<u32> {
    (0..i.len()).map(|k| i.get(k).unwrap()).collect()
}

/// Executes the wide moves `movz`/`movk` of `ws` on a register.
fn run_wide_moves(mut reg: u64, ws: &[u32]) -> u64 {
    for w in ws {
        let opc = w >> 23;
        let hw = (w >> 21) & 3;
        let imm = ((w >> 5) & 0xffff) as u64;
        if opc == 0b1_1010_0101 {
            reg = imm << (16 * hw);
        } else if opc == 0b1_1110_0101 {
            reg = (reg & !(0xffffu64 << (16 * hw))) | (imm << (16 * hw));
        }
    }
    reg
}

#[test]
fn branch_strategy_choice() {
    assert!(matches!(BranchStrategy::new(0x401000, 0x460000), BranchStrategy::Branch { .. }));
    assert!(matches!(BranchStrategy::new(0x460000, 0x401000), BranchStrategy::Branch { .. }));
    assert!(matches!(BranchStrategy::new(0x401000, 0x401000 + 0x800_0000), BranchStrategy::JumpToAbs { .. }));
    assert!(matches!(BranchStrategy::new(0x401000, 0x401000 + 0x7ff_fffc), BranchStrategy::Branch { .. }));
    assert!(matches!(BranchStrategy::new(0x401000, 0x460002), BranchStrategy::JumpToAbs { .. }));
    assert_eq!(BranchStrategy::new(0x401000, 0x460000).patch_addr(), 0x401000);
}

#[test]
fn branch_patch_reaches_trampoline() {
    let (ins, at) = BranchStrategy::new(0x401000, 0x460000).apply();
    assert_eq!(at, 0x401000);
    assert_eq!(words(&ins), vec![0x14017c00]);
    let (ins, _) = BranchStrategy::new(0x460000, 0x401000).apply();
    let w = words(&ins)[0];
    let imm26 = (w & 0x3ff_ffff) as i64;
    let delta = if imm26 >= 0x200_0000 { imm26 - 0x400_0000 } else { imm26 };
    assert_eq!(0x460000i64 + 4 * delta, 0x401000);
}

#[test]
fn absolute_jump_carries_the_target() {
    let target = 0x0000_7fff_1234_5678u64;
    assert_eq!(words(&jump_to_abs(target)), vec![0x58000050, 0xd61f0200, 0x1234_5678, 0x7fff]);
    let (ins, at) = BranchStrategy::new(0x401000, target).apply();
    assert_eq!(at, 0x401000);
    assert_eq!(words(&ins), words(&jump_to_abs(target)));
}

#[test]
fn epilogues_return_after_the_patch() {
    let near = BranchStrategy::new(0x401000, 0x460000);
    assert_eq!(words(&near.build_epilogue(0x401000, 0x460100, [0xd65f03c0, 1, 2, 3])), vec![0xd65f03c0]);
    assert_eq!(words(&near.build_epilogue(0x401000, 0x460100, [0xa9bf7bfd, 1, 2, 3])), vec![0xa9bf7bfd, 0x17fe83c0]);
    let far = BranchStrategy::new(0x401000, 0x4000_0000_0000);
    assert_eq!(
        words(&far.build_epilogue(0x401000, 0x4000_0000_0100, [10, 11, 12, 13])),
        vec![10, 11, 12, 13, 0x58000050, 0xd61f0200, 0x401010, 0]
    );
}

#[test]
fn blob_loads_the_patched_values() {
    let header = 0x0005_0000_0000_0001u64;
    let goid = 152u64;
    let buffer = 0x0000_ffff_a7c0_1000u64;
    let w = words(&build_trampoline_from_blob(header, goid, buffer));
    assert_eq!(w.len(), 64);
    assert_eq!(run_wide_moves(0, &w[16..20]), header);
    assert_eq!(run_wide_moves(0, &w[21..25]), goid);
    assert_eq!(run_wide_moves(0, &w[30..34]), buffer);
    assert_eq!(w[0], 0xa9bf07e0);
    assert_eq!(w[63], 0xa8c107e0);
}

#[test]
fn placeholder_lookalike_values_are_loaded() {
    let header = 0xbbb1_0000_aaa3_0000u64;
    let buffer = 0x0000_ffff_ccc3_0000u64;
    let w = words(&build_trampoline_from_blob(header, 152, buffer));
    assert_eq!(run_wide_moves(0, &w[16..20]), header);
    assert_eq!(run_wide_moves(0, &w[21..25]), 152);
    assert_eq!(run_wide_moves(0, &w[30..34]), buffer);
    assert_eq!(&w[25..27], &[0x8b010381, 0xf9400021]);
}

#[test]
fn each_placeholder_gets_its_chunk() {
    let mut w = vec![0xd2955420u32, 0xf2b55440, 0xf2d55460, 0xf2f55480];
    patch_magic_chunks(&mut w, &MAGIC_HEADER_VAL, 0xaaa2);
    assert_eq!(w, vec![0xd2955440, 0xf2a00000, 0xf2c00000, 0xf2e00000]);
    let mut v = vec![0x8b010381u32, 0xd2977621, 0xf2b77641, 0xf2d77661, 0xf2f77681];
    patch_magic_chunks(&mut v, &MAGIC_GOID_OFFSET, 0x0001_0002_0003_0004);
    assert_eq!(v, vec![0x8b010381, 0xd2800081, 0xf2a00061, 0xf2c00041, 0xf2e00021]);
}

#[test]
fn trampoline_is_blob_then_epilogue() {
    let patch = BranchStrategy::new(0x401000, 0x460000);
    let t = build_trampoline(&patch, 0x7000_1000, 0x401000, 0x460000, 0xa9bf7bfd, 0, 0, 0, 1, TargetId(2), &RuntimeOffsets { goid: 152 });
    let w = words(&t);
    assert_eq!(w.len(), 66);
    assert_eq!(run_wide_moves(0, &w[16..20]), 0x0002_0000_0000_0001);
    assert_eq!(&w[64..], &[0xa9bf7bfd, 0x17fe83c0]);
}

#[test]
fn entry_builder_loads_its_values() {
    let t = EntryTrampolineBuilder().build(0x7000_1000, 0x401000, 1, 2, 3, 4, 0, &RuntimeOffsets { goid: 152 });
    let w = words(&t);
    assert_eq!(&w[w.len() - 8..w.len() - 4], &[1, 2, 3, 4]);
    assert_eq!(&w[w.len() - 4..], &[0x58000050, 0xd61f0200, 0x401010, 0]);
}

#[test]
fn blob_bytes_decode_to_words_without_ret() {
    let bytes = [0x20, 0x54, 0x95, 0xd2, 0xe0, 0x03, 0x00, 0xf9, 0xc0, 0x03, 0x5f, 0xd6, 0x07];
    assert_eq!(decode_blob(&bytes), vec![0xd2955420, 0xf90003e0]);
    assert_eq!(decode_blob(&[0xc0, 0x03, 0x5f, 0xd6]), Vec::<u32>::new());
}

#[test]
fn blob_stores_the_event_then_publishes_the_count() {
    let w = words(&build_trampoline_from_blob(0x0005_0000_0000_0001, 152, 0x0000_ffff_a7c0_1000));
    assert_eq!((w[15], w[20], w[27], w[28], w[29]), (0xd10083ff, 0xf90003e0, 0xf90007e1, 0xd53be040, 0xf9000be0));
    assert_eq!(
        &w[34..49],
        &[
            0xc8dffd2a, 0x9240194b, 0xd37ced6c, 0x8b0b0d8c, 0x8b09018c, 0x9101018c, 0xf94003ed, 0xf900018d, 0xf94007ed,
            0xf900058d, 0xf9400bed, 0xf900098d, 0x9100054a, 0xc89ffd2a, 0x910083ff,
        ]
    );
}
