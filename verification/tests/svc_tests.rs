use binbased_tracing::error::InstrumentError;
use binbased_tracing::instruction::Instructions;
use binbased_tracing::instrument::svc::{
    Registers, SvcAction, SvcEvent, SvcStep, SyscallSession, SYSCALL_MMAP, SYSCALL_MPROTECT,
};

fn saved() -> Registers {
    let mut r = Registers { regs: [0; 31], sp: 0x7ff0, pc: 0x401000, pstate: 0 };
    for i in 0..31 {
        r.regs[i] = 1000 + i as u64;
    }
    r
}

fn code(words: &[u32]) -> Instructions {
    let mut i = Instructions::new();
    for w in words {
        i.push(*w);
    }
    i
}

/// Runs a system call whose result register holds `ret`, logging the actions.
fn run(number: u64, params: Vec<u64>, ret: u64) -> (Vec<String>, Result<u64, InstrumentError>) {
    let (mut s, mut action) = SyscallSession::new(number, params);
    let mut log = Vec::new();
    let mut trapped = false;
    loop {
        let event = match &action {
            SvcAction::GetRegisters => {
                log.push("get".to_string());
                let mut r = saved();
                if trapped {
                    r.regs[0] = ret;
                }
                SvcEvent::Registers(r)
            },
            SvcAction::SetRegisters(r) => {
                log.push(format!("set x0={:x} x8={} x9={} pc={:x}", r.regs[0], r.regs[8], r.regs[9], r.pc));
                SvcEvent::Done
            },
            SvcAction::WriteCode { addr, instructions } => {
                let words: Vec<u32> = (0..instructions.len()).map(|k| instructions.get(k).unwrap()).collect();
                log.push(format!("write {:x} {:x?}", addr, words));
                SvcEvent::Written(code(&[0xa9bf7bfd, 0x910003fd]))
            },
            SvcAction::RunToTrap => {
                log.push("run".to_string());
                trapped = true;
                SvcEvent::Done
            },
            SvcAction::Resume => {
                log.push("resume".to_string());
                SvcEvent::Done
            },
        };
        assert!(s.accepts(&event));
        match s.step(event) {
            Ok(SvcStep::Act(a)) => action = a,
            Ok(SvcStep::Returned(v)) => return (log, Ok(v)),
            Err(e) => return (log, Err(e)),
        }
    }
}

#[test]
fn syscall_saves_injects_runs_and_restores() {
    let (log, r) = run(SYSCALL_MMAP, vec![0x460000, 1024, 3, 0x22, u64::MAX], 0x460000);
    assert_eq!(r.unwrap(), 0x460000);
    assert_eq!(
        log,
        vec![
            "get",
            "set x0=460000 x8=222 x9=1009 pc=401000",
            "write 401000 [d4000001, d4200000]",
            "run",
            "get",
            "write 401000 [a9bf7bfd, 910003fd]",
            "set x0=3e8 x8=1008 x9=1009 pc=401000",
            "resume",
        ]
    );
}

#[test]
fn failed_syscall_stops_before_restoring() {
    let (log, r) = run(SYSCALL_MPROTECT, vec![0x460000, 1024, 5], -22i64 as u64);
    assert!(matches!(r, Err(InstrumentError::SyscallFailed(v)) if v == -22i64 as u64));
    assert_eq!(log.last().unwrap(), "get");
    assert_eq!(log.len(), 5);
}

#[test]
fn syscall_accepts_only_the_pending_outcome() {
    let (s, _) = SyscallSession::new(SYSCALL_MMAP, vec![]);
    assert!(s.accepts(&SvcEvent::Registers(saved())));
    assert!(!s.accepts(&SvcEvent::Done));
}
