use binbased_tracing::dwarf::RuntimeOffsets;
use binbased_tracing::error::{DwarfError, InstrumentError, ProcError};
use binbased_tracing::event::TargetId;
use binbased_tracing::instrument::plan::{plan_instrumentation, TRAMPOLINE_SIZE};
use binbased_tracing::instrument::svc::{
    build_svc, syscall_registers, syscall_result, Registers, SYSCALL_MMAP, SYSCALL_MPROTECT,
};
use binbased_tracing::instrument::trampoline::{Action, Event, Instrumentation, NotInstrumented};
use binbased_tracing::instrument::Instrumenter;
use binbased_tracing::symbol_analyzer::FunctionAnalysis;

fn analysis() -> FunctionAnalysis {
    FunctionAnalysis { entry_addr: 0x401000, ret_addrs: vec![0x401040, 0x401080] }
}

fn regions() -> Vec<(u64, u64)> {
    vec![(0x452000, 0x460000), (0x400000, 0x452000)]
}

#[test]
fn plan_without_runtime_offsets_fails() {
    let mut rs = regions();
    let r = plan_instrumentation(&mut rs, &analysis(), None, 3, TargetId(0));
    assert!(matches!(r, Err(InstrumentError::DwarfError(DwarfError::NoDwarfInfo))));
    assert_eq!(rs, regions());
}

#[test]
fn plan_places_trampolines_in_free_pages() {
    let mut rs = regions();
    let plan = plan_instrumentation(&mut rs, &analysis(), Some(RuntimeOffsets { goid: 152 }), 3, TargetId(5)).unwrap();
    assert_eq!(plan.runtime_offsets.goid, 152);
    assert_eq!(plan.targets.len(), 3);
    let addrs = [0x401000u64, 0x401040, 0x401080];
    let hints = [0x460000u64, 0x461000, 0x462000];
    for i in 0..3 {
        let t = plan.targets[i];
        assert_eq!(t.addr, addrs[i]);
        assert_eq!(t.event_type, if i == 0 { 0 } else { 1 });
        assert_eq!(t.trampoline_hint, hints[i]);
        assert_eq!(t.buffer_fd, 3);
        assert_eq!(t.target_id, TargetId(5));
    }
    assert_eq!(
        rs,
        vec![
            (0x400000, 0x452000),
            (0x452000, 0x460000),
            (0x460000, 0x460000 + TRAMPOLINE_SIZE),
            (0x461000, 0x461000 + TRAMPOLINE_SIZE),
            (0x462000, 0x462000 + TRAMPOLINE_SIZE),
        ]
    );
}

#[test]
fn instrumenter_needs_the_memory_map() {
    assert!(matches!(Instrumenter::new(None), Err(InstrumentError::ProcError(ProcError::IoError))));
    let inst = Instrumenter::new(Some(regions())).unwrap();
    assert!(inst.can_plan(&analysis()));
    let far = FunctionAnalysis { entry_addr: u64::MAX - 10, ret_addrs: vec![] };
    assert!(!inst.can_plan(&far));
}

#[test]
fn instrumenter_keeps_the_first_runtime_offsets() {
    let inst = Instrumenter::new(Some(regions())).unwrap();
    let (inst, planned) = inst.add_target(&analysis(), Some(RuntimeOffsets { goid: 152 }), 3, TargetId(0)).unwrap();
    assert_eq!(planned.runtime_offsets.goid, 152);
    assert_eq!(planned.targets.len(), 3);
    let other = FunctionAnalysis { entry_addr: 0x402000, ret_addrs: vec![] };
    let (inst, planned) = inst.add_target(&other, Some(RuntimeOffsets { goid: 999 }), 4, TargetId(1)).unwrap();
    assert_eq!(planned.runtime_offsets.goid, 152);
    assert_eq!(planned.targets[0].trampoline_hint, 0x463000);
    assert!(matches!(inst.add_target(&other, None, 4, TargetId(2)), Err(InstrumentError::DwarfError(DwarfError::NoDwarfInfo))));
}

#[test]
fn svc_code_and_registers() {
    let svc = build_svc();
    assert_eq!(svc.len(), 2);
    assert_eq!(svc.get(0), Some(0xd4000001));
    assert_eq!(svc.get(1), Some(0xd4200000));
    let mut saved = Registers { regs: [0; 31], sp: 0x7ff0, pc: 0x401000, pstate: 0x20 };
    for i in 0..31 {
        saved.regs[i] = 100 + i as u64;
    }
    let regs = syscall_registers(&saved, SYSCALL_MMAP, &[0, 1024, 3, 0x22, u64::MAX]);
    assert_eq!(&regs.regs[0..5], &[0, 1024, 3, 0x22, u64::MAX]);
    assert_eq!(regs.regs[5], 105);
    assert_eq!(regs.regs[8], SYSCALL_MMAP);
    assert_eq!(regs.regs[30], 130);
    assert_eq!((regs.sp, regs.pc, regs.pstate), (0x7ff0, 0x401000, 0x20));
    let many: Vec<u64> = (0..40).collect();
    let regs = syscall_registers(&saved, SYSCALL_MPROTECT, &many);
    assert_eq!(regs.regs[8], SYSCALL_MPROTECT);
    assert_eq!(regs.regs[9], 9);
    assert_eq!(regs.regs[30], 30);
}

#[test]
fn syscall_results() {
    assert_eq!(syscall_result(0x460000).unwrap(), 0x460000);
    assert_eq!(syscall_result(0).unwrap(), 0);
    assert!(matches!(syscall_result(-12i64 as u64), Err(InstrumentError::SyscallFailed(v)) if v == -12i64 as u64));
}

fn step(inst: &mut Instrumentation, e: Event) -> Result<Option<Action>, InstrumentError> {
    assert!(inst.accepts(&e));
    inst.step(e)
}

/// Runs an instrumentation in which every mmap returns its hint (or
/// `0x7000_0000` for a buffer) and the patched code is `code`.
fn run(planned: NotInstrumented, code: (i64, i64), mprotect: u64) -> (Vec<String>, Result<(), InstrumentError>) {
    let mut log = Vec::new();
    let (mut inst, first) = planned.instrument();
    let mut action = Some(first);
    let mut buffers = 0u64;
    while let Some(a) = action {
        let event = match &a {
            Action::Interrupt => {
                log.push("interrupt".to_string());
                Event::Done
            },
            Action::Resume => {
                log.push("resume".to_string());
                Event::Done
            },
            Action::Syscall { number, params } => {
                log.push(format!("syscall {} {:x?}", number, params));
                if *number == SYSCALL_MMAP && params[4] == u64::MAX {
                    Event::Returned(params[0])
                } else if *number == SYSCALL_MMAP {
                    buffers += 1;
                    Event::Returned(0x7000_0000 + buffers * 0x1000)
                } else {
                    Event::Returned(mprotect)
                }
            },
            Action::ReadCode { addr } => {
                log.push(format!("read {:x}", addr));
                Event::Read(code.0, code.1)
            },
            Action::Write { addr, instructions } => {
                log.push(format!("write {:x} {}", addr, instructions.len()));
                Event::Done
            },
            Action::Detach => {
                log.push("detach".to_string());
                Event::Done
            },
        };
        match step(&mut inst, event) {
            Ok(next) => action = next,
            Err(e) => return (log, Err(e)),
        }
    }
    assert!(inst.is_finished());
    (log, Ok(()))
}

fn one_target() -> NotInstrumented {
    let inst = Instrumenter::new(Some(regions())).unwrap();
    let a = FunctionAnalysis { entry_addr: 0x401000, ret_addrs: vec![] };
    inst.add_target(&a, Some(RuntimeOffsets { goid: 152 }), 3, TargetId(0)).unwrap().1
}

#[test]
fn instrumentation_runs_its_stages_in_order() {
    let (log, r) = run(one_target(), (0xd10083ff_a9bf7bfdu64 as i64, 0), 0);
    assert!(r.is_ok());
    assert_eq!(
        log,
        vec![
            "interrupt",
            "syscall 222 [460000, 400, 3, 22, ffffffffffffffff]",
            "interrupt",
            "syscall 222 [0, 1000, 3, 1, 3, 0]",
            "interrupt",
            "resume",
            "interrupt",
            "read 401000",
            "write 460000 66",
            "resume",
            "interrupt",
            "syscall 226 [460000, 400, 5]",
            "interrupt",
            "resume",
            "interrupt",
            "write 401000 1",
            "detach",
        ]
    );
}

#[test]
fn instrumentation_writes_trampoline_and_branch() {
    let (mut inst, a) = one_target().instrument();
    assert!(matches!(a, Action::Interrupt));
    let mut next = inst.step(Event::Done).unwrap();
    let answers = [Event::Returned(0x460000), Event::Done, Event::Returned(0x7000_1000), Event::Done, Event::Done, Event::Done];
    for e in answers {
        next = inst.step(e).unwrap();
    }
    assert!(matches!(next, Some(Action::ReadCode { addr: 0x401000 })));
    let inst1 = 0xa9bf7bfdu32;
    next = inst.step(Event::Read(((0xd10083ffu64 << 32) | inst1 as u64) as i64, 0)).unwrap();
    match &next {
        Some(Action::Write { addr, instructions }) => {
            assert_eq!(*addr, 0x460000);
            assert_eq!(instructions.len(), 66);
            assert_eq!(instructions.get(0), Some(0xa9bf07e0));
            assert_eq!(instructions.get(16), Some(0xd2800000));
            assert_eq!(instructions.get(21), Some(0xd2801301));
            assert_eq!(instructions.get(30), Some(0xd2820009));
            assert_eq!(instructions.get(31), Some(0xf2ae0009));
            assert_eq!(instructions.get(64), Some(inst1));
            assert_eq!(instructions.get(65), Some(0x17fe83c0));
        },
        _ => panic!("expected the trampoline write"),
    }
    let answers = [Event::Done, Event::Done, Event::Done, Event::Returned(0), Event::Done, Event::Done, Event::Done];
    for e in answers {
        next = inst.step(e).unwrap();
    }
    match next {
        Some(Action::Write { addr, instructions }) => {
            assert_eq!(addr, 0x401000);
            assert_eq!(instructions.len(), 1);
            assert_eq!(instructions.get(0), Some(0x14017c00));
        },
        _ => panic!("expected the patch"),
    }
}

#[test]
fn instrumentation_fails_on_negative_mmap() {
    let (mut inst, _) = one_target().instrument();
    inst.step(Event::Done).unwrap();
    let r = inst.step(Event::Returned(-12i64 as u64));
    assert!(matches!(r, Err(InstrumentError::SyscallFailed(v)) if v == -12i64 as u64));
}

#[test]
fn instrumentation_fails_when_mprotect_does_not_return_zero() {
    let (log, r) = run(one_target(), (0, 0), 1);
    assert!(matches!(r, Err(InstrumentError::MprotectFailed(1))));
    assert_eq!(log.last().unwrap(), "syscall 226 [460000, 400, 5]");
}

#[test]
fn instrumentation_accepts_only_the_pending_outcome() {
    let (inst, _) = one_target().instrument();
    assert!(inst.accepts(&Event::Done));
    assert!(!inst.accepts(&Event::Returned(0)));
    assert!(!inst.accepts(&Event::Read(0, 0)));
}

#[test]
fn far_trampoline_gets_an_absolute_jump() {
    let (mut inst, _) = one_target().instrument();
    inst.step(Event::Done).unwrap();
    let far = 0x4000_0000_0000u64;
    let answers = [Event::Returned(far), Event::Done, Event::Returned(0x7000_1000), Event::Done, Event::Done, Event::Done];
    for e in answers {
        inst.step(e).unwrap();
    }
    match inst.step(Event::Read(0x1234_5678_9abc_def0, 0x0fed_cba9_8765_4321)).unwrap() {
        Some(Action::Write { addr, instructions }) => {
            assert_eq!(addr, far);
            assert_eq!(instructions.len(), 64 + 4 + 4);
            assert_eq!(instructions.get(64), Some(0x9abc_def0));
            assert_eq!(instructions.get(67), Some(0x0fed_cba9));
            assert_eq!(instructions.get(68), Some(0x58000050));
            assert_eq!(instructions.get(69), Some(0xd61f0200));
            assert_eq!(instructions.get(70), Some(0x401010));
            assert_eq!(instructions.get(71), Some(0));
        },
        _ => panic!("expected the trampoline write"),
    }
}
