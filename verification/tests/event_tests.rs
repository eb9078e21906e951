use binbased_tracing::event::{EventType, TargetId, TargetRegistry, TraceEvent};
use binbased_tracing::instruction::trampoline::event_header;
use binbased_tracing::trace_collector::{TraceCollector, TraceReport};

fn stored(event_type: u8, target: u16, goroutine: u64, timestamp: u64) -> Vec<u8> {
    let mut b = Vec::new();
    b.extend_from_slice(&event_header(event_type, TargetId(target)).to_le_bytes());
    b.extend_from_slice(&goroutine.to_le_bytes());
    b.extend_from_slice(&timestamp.to_le_bytes());
    b
}

fn event(event_type: EventType, target: u16, goroutine: u64, timestamp: u64) -> TraceEvent {
    TraceEvent { event_type, _padding: [0; 5], target_id: TargetId(target), goroutine, timestamp }
}

#[test]
fn registry_hands_out_ids_in_order() {
    let mut r = TargetRegistry::new();
    assert!(!r.contains("main.handler"));
    assert_eq!(r.add("main.handler".to_string()), TargetId(0));
    assert_eq!(r.add("net/http.serverHandler.ServeHTTP".to_string()), TargetId(1));
    assert_eq!(r.name(TargetId(0)), "main.handler");
    assert_eq!(r.name(TargetId(1)), "net/http.serverHandler.ServeHTTP");
    assert_eq!(r.name(TargetId(2)), "<unknown>");
    assert!(r.contains("main.handler"));
    assert!(!r.contains("main"));
}

#[test]
fn header_word_layout() {
    assert_eq!(event_header(1, TargetId(3)), 0x0003_0000_0000_0001);
    assert_eq!(event_header(0, TargetId(0xffff)), 0xffff_0000_0000_0000);
}

#[test]
fn stored_event_decodes() {
    let e = TraceEvent::decode(&stored(0, 7, 0x4000148380, 1237188165626)).unwrap();
    assert_eq!(e.event_type, EventType::Entry);
    assert_eq!(e.target_id, TargetId(7));
    assert_eq!(e.goroutine, 0x4000148380);
    assert_eq!(e.timestamp, 1237188165626);
    assert_eq!(e._padding, [0; 5]);
    let r = TraceEvent::decode(&stored(1, 0x1234, 1, 2)).unwrap();
    assert_eq!(r.event_type, EventType::Return);
    assert_eq!(r.target_id, TargetId(0x1234));
}

#[test]
fn unknown_event_type_does_not_decode() {
    assert!(TraceEvent::decode(&stored(2, 0, 0, 0)).is_none());
}

#[test]
fn entry_then_return_completes() {
    let mut reg = TargetRegistry::new();
    reg.add("handler".to_string());
    let mut c = TraceCollector::new(reg);
    match c.process_event(event(EventType::Entry, 0, 0x4000148380, 1237188165626)) {
        TraceReport::Entry { name, goroutine, timestamp, overwritten } => {
            assert_eq!(name, "handler");
            assert_eq!(goroutine, 0x4000148380);
            assert_eq!(timestamp, 1237188165626);
            assert_eq!(overwritten, None);
        },
        _ => panic!("expected an entry report"),
    }
    match c.process_event(event(EventType::Return, 0, 0x4000148380, 1237188167424)) {
        TraceReport::Completed { name, goroutine, entry, ret, duration } => {
            assert_eq!(name, "handler");
            assert_eq!(goroutine, 0x4000148380);
            assert_eq!(entry, 1237188165626);
            assert_eq!(ret, 1237188167424);
            assert_eq!(duration, 1798);
        },
        _ => panic!("expected a completed report"),
    }
}

#[test]
fn return_before_entry_time_has_zero_duration() {
    let mut c = TraceCollector::new(TargetRegistry::new());
    c.process_event(event(EventType::Entry, 3, 1, 500));
    match c.process_event(event(EventType::Return, 3, 1, 100)) {
        TraceReport::Completed { name, duration, .. } => {
            assert_eq!(name, "<unknown>");
            assert_eq!(duration, 0);
        },
        _ => panic!("expected a completed report"),
    }
}

#[test]
fn orphaned_returns_are_counted() {
    let mut c = TraceCollector::new(TargetRegistry::new());
    for n in 1..=3u64 {
        match c.process_event(event(EventType::Return, 0, 9, n)) {
            TraceReport::Orphaned { orphaned_returns, goroutine, .. } => {
                assert_eq!(orphaned_returns, n);
                assert_eq!(goroutine, 9);
            },
            _ => panic!("expected an orphaned report"),
        }
    }
}

#[test]
fn second_entry_overwrites_and_other_goroutines_are_separate() {
    let mut c = TraceCollector::new(TargetRegistry::new());
    c.process_event(event(EventType::Entry, 0, 1, 10));
    c.process_event(event(EventType::Entry, 0, 2, 20));
    match c.process_event(event(EventType::Entry, 0, 1, 30)) {
        TraceReport::Entry { overwritten, .. } => assert_eq!(overwritten, Some(10)),
        _ => panic!("expected an entry report"),
    }
    match c.process_event(event(EventType::Return, 0, 2, 25)) {
        TraceReport::Completed { entry, duration, .. } => {
            assert_eq!(entry, 20);
            assert_eq!(duration, 5);
        },
        _ => panic!("expected a completed report"),
    }
    match c.process_event(event(EventType::Return, 0, 1, 35)) {
        TraceReport::Completed { entry, .. } => assert_eq!(entry, 30),
        _ => panic!("expected a completed report"),
    }
}
