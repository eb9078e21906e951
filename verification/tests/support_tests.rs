use binbased_tracing::config::{from_raw_targets, ConfigError, RawTarget};
use binbased_tracing::elf::{find_symbol, SegmentEntry, SymbolEntry};
use binbased_tracing::error::ElfError;
use binbased_tracing::event_buffer::{RingReader, BUFFER_HEADER_SIZE, BUFFER_SIZE};
use binbased_tracing::maps::{exec_start, find_free_region, free_region_available, map_ranges, parse_maps};
use binbased_tracing::monitor::process_finished;
use binbased_tracing::pipe::Pipe;
use binbased_tracing::ptrace::WaitStatus;
use binbased_tracing::symbol_analyzer::{analysis_available, analyze_function, count_buffers_needed, count_ret_instructions};

const MAPS: &str = "00400000-00452000 r--p 00000000 08:02 173521 /usr/bin/demo
00452000-00500000 r-xp 00052000 08:02 173521 /usr/bin/demo
garbage line
7fff12340000-7fff12360000 rw-p 00000000 00:00 0
";

#[test]
fn maps_text_gives_ranges_and_code_start() {
    let maps = parse_maps(MAPS);
    assert_eq!(maps.len(), 3);
    assert_eq!(exec_start(&maps), Some(0x452000));
    assert_eq!(map_ranges(&maps), vec![(0x400000, 0x452000), (0x452000, 0x500000), (0x7fff12340000, 0x7fff12360000)]);
    assert_eq!(exec_start(&parse_maps("00400000-00452000 r--p 00000000 08:02 1 /x\n")), None);
}

#[test]
fn free_region_skips_mapped_ranges() {
    let mut regions = vec![(0x2000u64, 0x3000u64), (0x1000, 0x1800)];
    assert!(free_region_available(&regions, 0x1234, 0x400));
    let start = find_free_region(&mut regions, 0x1234, 0x400);
    assert_eq!(start, 0x3000);
    assert_eq!(regions, vec![(0x1000, 0x1800), (0x2000, 0x3000), (0x3000, 0x3400)]);
    let start = find_free_region(&mut regions, 0x0, 0x400);
    assert_eq!(start, 0x0);
    assert!(!free_region_available(&regions, u64::MAX - 0x10, 0x400));
    assert!(!free_region_available(&vec![(0x1000, u64::MAX)], 0x1000, 0x400));
}

#[test]
fn pipe_paths() {
    assert_eq!(
        Pipe::path_for("/tmp", "net/http.serverHandler.ServeHTTP", 1234, Some("ret/1")),
        "/tmp/tracer/1234_net_http.serverHandler.ServeHTTP_ret_1.pipe"
    );
    assert_eq!(Pipe::path_for("/tmp/", "main.f", 7, None), "/tmp/tracer/7_main.f_.pipe");
    assert_eq!(Pipe::path_for("", "f", -3, None), "tracer/-3_f_.pipe");
    assert_eq!(Pipe::path_for("/t", "f", i32::MIN, None), "/t/tracer/-2147483648_f_.pipe");
    let p = Pipe::at("/tmp/tracer/1_f_.pipe".to_string());
    assert_eq!(p.path(), "/tmp/tracer/1_f_.pipe");
}

#[test]
fn ring_reader_follows_the_writer() {
    let mut r = RingReader::new();
    assert_eq!(r.next_slot(0), None);
    let mut offsets = Vec::new();
    for _ in 0..130 {
        let off = r.next_slot(200).unwrap();
        assert!(BUFFER_HEADER_SIZE <= off && off + 24 <= BUFFER_SIZE);
        offsets.push(off);
        r.advance();
    }
    assert_eq!(offsets[0], 64);
    assert_eq!(offsets[1], 88);
    assert_eq!(offsets[127], 64 + 127 * 24);
    assert_eq!(offsets[128], 64);
    assert_eq!(r.count(), 130);
    assert_eq!(r.next_slot(130), None);
}

#[test]
fn symbols_are_located_in_the_file() {
    let symbols = vec![
        SymbolEntry { name: "main.main".to_string(), value: 0x401000, size: 0x40 },
        SymbolEntry { name: "main.handler".to_string(), value: 0x402000, size: 0x80 },
        SymbolEntry { name: "orphan".to_string(), value: 0x900000, size: 8 },
    ];
    let segments = vec![SegmentEntry { offset: 0, vaddr: 0x400000, filesz: 0x10000 }];
    assert_eq!(find_symbol(&symbols, &segments, "main.handler").unwrap(), (0x2000, 0x80));
    assert!(matches!(find_symbol(&symbols, &segments, "missing"), Err(ElfError::NotFound)));
    assert!(matches!(find_symbol(&symbols, &segments, "orphan"), Err(ElfError::NotFound)));
    let shifted = vec![SegmentEntry { offset: 0x1000, vaddr: 0x401000, filesz: 0x2000 }];
    assert_eq!(find_symbol(&symbols, &shifted, "main.handler").unwrap(), (0x2000, 0x80));
}

#[test]
fn configuration_targets() {
    let c = from_raw_targets(vec![
        RawTarget::Name("main.handler".to_string()),
        RawTarget::Mapping(Some("main.other".to_string())),
        RawTarget::Mapping(None),
        RawTarget::Other,
    ])
    .unwrap();
    let names: Vec<&str> = c.targets.iter().map(|t| t.name.as_str()).collect();
    assert_eq!(names, vec!["main.handler", "main.other", "", ""]);
    assert!(matches!(from_raw_targets(vec![]), Err(ConfigError::NoTargets)));
}

fn code(words: &[u32]) -> Vec<u8> {
    words.iter().flat_map(|w| w.to_le_bytes()).collect()
}

#[test]
fn ret_instructions_are_found() {
    let mut bytes = code(&[0xa9bf7bfd, 0xd65f03c0, 0x910003fd, 0xd65f03c0]);
    bytes.push(0xc0);
    assert_eq!(count_ret_instructions(&bytes), 2);
    assert_eq!(count_buffers_needed(&bytes), 3);
    let a = analyze_function(&bytes, 0x400000, 0x1000);
    assert_eq!(a.entry_addr, 0x401000);
    assert_eq!(a.ret_addrs, vec![0x401004, 0x40100c]);
    assert_eq!(count_buffers_needed(&[]), 1);
}

#[test]
fn monitoring_ends_on_exit_or_signal() {
    assert!(process_finished(&WaitStatus::Exited(1, 0)));
    assert!(process_finished(&WaitStatus::Signaled(1, 9, false)));
    assert!(!process_finished(&WaitStatus::Stopped(1, 19)));
    assert!(!process_finished(&WaitStatus::Continued(1)));
}

#[test]
fn ret_addresses_up_to_the_top_of_memory() {
    let bytes = code(&[0xd503201f, 0xd65f03c0, 0xd503201f]);
    let base = u64::MAX - 4 - 0x10;
    assert!(analysis_available(&bytes, base, 0x10));
    let a = analyze_function(&bytes, base, 0x10);
    assert_eq!(a.entry_addr, u64::MAX - 4);
    assert_eq!(a.ret_addrs, vec![u64::MAX]);
    let late_ret = code(&[0xd503201f, 0xd503201f, 0xd65f03c0]);
    assert!(!analysis_available(&late_ret, base, 0x10));
}
