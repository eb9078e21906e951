use binbased_tracing::error::MapsError;
use binbased_tracing::maps::{find_free_region, get_exec_base, MemMap};
use binbased_tracing::text::{parse_u64_radix, IntErrorKind};

const SAMPLE_LINE: &str = "00400000-00452000 r-xp 00000000 08:02 173521      /usr/bin/dbus-daemon";

#[test]
fn maps_test_memmap_parse_address() {
    let m: MemMap = SAMPLE_LINE.try_into().unwrap();
    assert_eq!(m.address.0, 0x00400000);
    assert_eq!(m.address.1, 0x00452000);
    assert!(m._readable);
    assert!(!m._writable);
    assert!(m.executable);
    assert!(!m._shared);
    assert!(m._private);
    assert_eq!(m._offset, 0);
    assert_eq!(m._device.0, 0x08);
    assert_eq!(m._device.1, 0x02);
    assert_eq!(m._inode, 173521);
    assert_eq!(m._pathname, Some("/usr/bin/dbus-daemon".to_string()));
}

#[test]
fn test_memmap_parse_without_pathname() {
    let line = "7fff12340000-7fff12360000 rw-p 00000000 00:00 0";
    let m: MemMap = line.try_into().unwrap();
    assert!(m._pathname.is_none());
}

#[test]
fn test_get_exec_base() {
    let result = get_exec_base(SAMPLE_LINE).unwrap();
    assert_eq!(result, 0x00400000);
}

#[test]
fn malformed_lines_are_refused() {
    let r: Result<MemMap, MapsError> = "zz-00452000 r-xp 00000000 08:02 1 /x".try_into();
    assert!(matches!(r, Err(MapsError::FailedToParse(IntErrorKind::InvalidDigit))));
    let r: Result<MemMap, MapsError> = "00400000 r-xp 00000000 08:02 1".try_into();
    assert!(matches!(r, Err(MapsError::ParseError)));
    let r: Result<MemMap, MapsError> = "00400000-00452000 r-xp 00000000 08:02".try_into();
    assert!(matches!(r, Err(MapsError::ParseError)));
    let r: Result<MemMap, MapsError> = "00400000-00452000 r-xp 00000000 08:02 12a".try_into();
    assert!(matches!(r, Err(MapsError::FailedToParse(IntErrorKind::InvalidDigit))));
    let r: Result<MemMap, MapsError> = "00400000-1ffffffffffffffff r-xp 00000000 08:02 1".try_into();
    assert!(matches!(r, Err(MapsError::FailedToParse(IntErrorKind::PosOverflow))));
    let r: Result<MemMap, MapsError> = "00400000- r-xp 00000000 08:02 1".try_into();
    assert!(matches!(r, Err(MapsError::FailedToParse(IntErrorKind::Empty))));
}

#[test]
fn no_executable_mapping_is_not_found() {
    let maps = "00400000-00452000 r--p 00000000 08:02 1 /x\nbad line\n";
    assert!(matches!(get_exec_base(maps), Err(MapsError::NotFound)));
    let maps = "bad line\n00400000-00452000 r--p 00000000 08:02 1 /x\n00452000-00460000 r-xp 00052000 08:02 1 /x\n";
    assert_eq!(get_exec_base(maps).unwrap(), 0x452000);
}

#[test]
fn radix_numbers() {
    let chars = |s: &str| s.chars().collect::<Vec<char>>();
    assert_eq!(parse_u64_radix(&chars("00452000"), 16).unwrap(), 0x452000);
    assert_eq!(parse_u64_radix(&chars("173521"), 10).unwrap(), 173521);
    assert_eq!(parse_u64_radix(&chars("+7"), 10).unwrap(), 7);
    assert!(matches!(parse_u64_radix(&chars(""), 10), Err(IntErrorKind::Empty)));
    assert!(matches!(parse_u64_radix(&chars("+"), 10), Err(IntErrorKind::InvalidDigit)));
    assert!(matches!(parse_u64_radix(&chars("-1"), 10), Err(IntErrorKind::InvalidDigit)));
    assert!(matches!(parse_u64_radix(&chars("18446744073709551616"), 10), Err(IntErrorKind::PosOverflow)));
    assert_eq!(parse_u64_radix(&chars("18446744073709551615"), 10).unwrap(), u64::MAX);
}

#[test]
fn free_region_is_the_lowest_fit_and_regions_stay_sorted() {
    let mut regions = vec![(0x3000u64, 0x5000u64), (0x1000, 0x2000), (0x6000, 0x7000)];
    assert_eq!(find_free_region(&mut regions, 0x1000, 0x1000), 0x2000);
    assert_eq!(regions, vec![(0x1000, 0x2000), (0x3000, 0x5000), (0x6000, 0x7000), (0x2000, 0x3000)]);
    let mut regions = vec![(0x3000u64, 0x5000u64), (0x1000, 0x2000)];
    assert_eq!(find_free_region(&mut regions, 0x1001, 0x2000), 0x5000);
}

#[test]
fn free_region_at_the_last_page() {
    let mut regions: Vec<(u64, u64)> = Vec::new();
    assert!(binbased_tracing::maps::free_region_available(&regions, 0xffff_ffff_ffff_f000, 0x400));
    assert_eq!(find_free_region(&mut regions, 0xffff_ffff_ffff_f000, 0x400), 0xffff_ffff_ffff_f000);
    assert!(!binbased_tracing::maps::free_region_available(&regions, 0xffff_ffff_ffff_f001, 0x400));
}
