use binbased_tracing::error::PtraceError;
use binbased_tracing::instruction::Instructions;
use binbased_tracing::ptrace::{Attached, Stopped, WaitStatus, WaitStep, SIGTRAP};

fn instructions(words: &[u32]) -> Instructions {
    let mut ins = Instructions::new();
    for w in words {
        ins.push(*w);
    }
    ins
}

/// Runs a write against a memory of 64-bit words starting at `base`.
fn run_instruction_write(memory: &mut Vec<i64>, base: u64, addr: u64, val: Instructions) -> Instructions {
    let stopped = Stopped(42);
    let mut w = stopped.write_instructions(addr, val);
    while let Some(a) = w.next_addr() {
        let idx = ((a - base) / 8) as usize;
        let (wa, nw) = w.word_read(memory[idx]);
        assert_eq!(wa, a);
        memory[((wa - base) / 8) as usize] = nw;
    }
    w.finish()
}

#[test]
fn wait_sigtrap_stop_traps() {
    match Attached(7).wait(WaitStatus::Stopped(7, SIGTRAP)) {
        Ok(WaitStep::Trapped(s)) => assert_eq!(s.0, 7),
        _ => panic!("expected a trap"),
    }
    match Attached(7).wait(WaitStatus::PtraceEvent(7, SIGTRAP, 128)) {
        Ok(WaitStep::Trapped(s)) => assert_eq!(s.0, 7),
        _ => panic!("expected a trap"),
    }
}

#[test]
fn wait_other_stop_is_forwarded() {
    match Attached(9).wait(WaitStatus::Stopped(9, 11)) {
        Ok(WaitStep::Forward(a, sig)) => {
            assert_eq!(a.0, 9);
            assert_eq!(sig, 11);
        },
        _ => panic!("expected the signal to be forwarded"),
    }
}

#[test]
fn wait_exit_and_other_statuses_fail() {
    assert!(matches!(Attached(1).wait(WaitStatus::Exited(1, 0)), Err(PtraceError::ProgramExited)));
    assert!(matches!(
        Attached(1).wait(WaitStatus::Continued(1)),
        Err(PtraceError::WaitPIDUnexpectedStatus(WaitStatus::Continued(1)))
    ));
    assert!(matches!(
        Attached(1).wait(WaitStatus::PtraceEvent(1, 19, 0)),
        Err(PtraceError::WaitPIDUnexpectedStatus(_))
    ));
    assert!(matches!(Attached(1).wait(WaitStatus::Signaled(1, 9, false)), Err(PtraceError::WaitPIDUnexpectedStatus(_))));
}

#[test]
fn write_even_number_of_instructions() {
    let base = 0x1000u64;
    let mut memory: Vec<i64> = vec![0x1111_2222_3333_4444, 0x5555_6666_7777_0888, 0x0abc];
    let saved = run_instruction_write(&mut memory, base, base, instructions(&[0xd4000001, 0xd4200000]));
    assert_eq!(memory[0], 0xd4200000_d4000001u64 as i64);
    assert_eq!(memory[1], 0x5555_6666_7777_0888);
    assert_eq!(saved.len(), 2);
    assert_eq!(saved.get(0), Some(0x3333_4444));
    assert_eq!(saved.get(1), Some(0x1111_2222));
}

#[test]
fn write_odd_number_keeps_high_half() {
    let base = 0x2000u64;
    let mut memory: Vec<i64> = vec![0, 0x7654_3210_0123_4567];
    let saved = run_instruction_write(&mut memory, base, base + 8, instructions(&[0xaaaa_bbbb]));
    assert_eq!(memory[1], 0x7654_3210_aaaa_bbbbu64 as i64);
    assert_eq!(memory[0], 0);
    assert_eq!(saved.len(), 2);
    assert_eq!(saved.get(0), Some(0x0123_4567));
    assert_eq!(saved.get(1), Some(0x7654_3210));
}

#[test]
fn write_then_restore_gives_original_memory() {
    let base = 0x3000u64;
    let original: Vec<i64> = vec![-1, 0x0102_0304_0506_0708, -0x7000_0000_0000_0000];
    let mut memory = original.clone();
    let saved = run_instruction_write(&mut memory, base, base, instructions(&[1, 2, 3, 4, 5]));
    assert_ne!(memory, original);
    run_instruction_write(&mut memory, base, base, saved);
    assert_eq!(memory, original);
}

#[test]
fn write_nothing_reads_nothing() {
    let stopped = Stopped(3);
    let w = stopped.write_instructions(0x10, Instructions::new());
    assert_eq!(w.next_addr(), None);
    assert_eq!(w.finish().len(), 0);
}

#[test]
fn write_whole_words() {
    let stopped = Stopped(3);
    let base = 0x4000u64;
    let mut memory: Vec<i64> = vec![10, 20, 30];
    let mut w = stopped.write(base, &vec![-5, 0x0000_0001_0000_0002]);
    while let Some(a) = w.next_addr() {
        let idx = ((a - base) / 8) as usize;
        let (wa, nw) = w.word_read(memory[idx]);
        memory[((wa - base) / 8) as usize] = nw;
    }
    assert_eq!(memory, vec![-5, 0x0000_0001_0000_0002, 30]);
    let saved = w.finish();
    assert_eq!(saved.len(), 4);
    assert_eq!(saved.get(0), Some(10));
    assert_eq!(saved.get(1), Some(0));
    assert_eq!(saved.get(2), Some(20));
}
