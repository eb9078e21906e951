use binbased_tracing::dwarf::{
    FieldSearch, MemberLocation, RuntimeOffsets, SearchAction, SearchEvent, SearchStep, DW_TAG_MEMBER,
    DW_TAG_STRUCTURE_TYPE,
};
use binbased_tracing::error::DwarfError;

/// A debugging-information entry: depth, tag, name, member location.
type Entry = (isize, u16, Option<&'static str>, MemberLocation);

/// Runs a search over units of entries, answering each action from them.
fn search(units: &[Vec<Entry>], name: &str, field: &str) -> Result<u64, DwarfError> {
    let (mut s, mut action) = FieldSearch::new(name, field);
    let mut unit: isize = -1;
    let mut pos: usize = 0;
    loop {
        let event = match action {
            SearchAction::NextUnit => {
                unit += 1;
                pos = 0;
                if (unit as usize) < units.len() { SearchEvent::UnitOpened } else { SearchEvent::EndOfUnits }
            },
            SearchAction::NextEntry => {
                let u = &units[unit as usize];
                if pos < u.len() {
                    pos += 1;
                    SearchEvent::Entry { depth: u[pos - 1].0, tag: u[pos - 1].1 }
                } else {
                    SearchEvent::EndOfUnit
                }
            },
            SearchAction::EntryName => SearchEvent::Name(units[unit as usize][pos - 1].2.map(|n| n.to_string())),
            SearchAction::EntryLocation => SearchEvent::Location(units[unit as usize][pos - 1].3),
        };
        assert!(s.accepts(&event));
        match s.step(event) {
            SearchStep::Continue(a) => action = a,
            SearchStep::Found(o) => return Ok(o),
            SearchStep::Failed(e) => return Err(e),
        }
    }
}

fn runtime_unit() -> Vec<Entry> {
    vec![
        (0, 0x11, Some("runtime"), MemberLocation::Absent),
        (1, DW_TAG_STRUCTURE_TYPE, Some("runtime.m"), MemberLocation::Absent),
        (2, DW_TAG_MEMBER, Some("goid"), MemberLocation::Udata(8)),
        (1, DW_TAG_STRUCTURE_TYPE, Some("runtime.g"), MemberLocation::Absent),
        (2, DW_TAG_MEMBER, Some("stack"), MemberLocation::Data1(0)),
        (2, DW_TAG_MEMBER, Some("_panic"), MemberLocation::Data1(32)),
        (2, DW_TAG_MEMBER, Some("goid"), MemberLocation::Data2(152)),
        (1, 0x24, Some("int"), MemberLocation::Absent),
    ]
}

#[test]
fn finds_goid_in_runtime_g() {
    let units = vec![vec![(0, 0x11, Some("main"), MemberLocation::Absent)], runtime_unit()];
    assert_eq!(search(&units, "runtime.g", "goid").unwrap(), 152);
    let offsets = RuntimeOffsets::from_goid_search(search(&units, "runtime.g", "goid")).unwrap();
    assert_eq!(offsets.goid, 152);
}

#[test]
fn each_constant_form_gives_the_offset() {
    for (loc, want) in [
        (MemberLocation::Udata(1 << 40), 1u64 << 40),
        (MemberLocation::Data1(7), 7),
        (MemberLocation::Data2(300), 300),
        (MemberLocation::Data4(70000), 70000),
        (MemberLocation::Data8(u64::MAX), u64::MAX),
    ] {
        let units = vec![vec![(0, DW_TAG_STRUCTURE_TYPE, Some("s"), MemberLocation::Absent), (1, DW_TAG_MEMBER, Some("f"), loc)]];
        assert_eq!(search(&units, "s", "f").unwrap(), want);
    }
}

#[test]
fn missing_struct_is_reported() {
    let units = vec![vec![(0, DW_TAG_STRUCTURE_TYPE, Some("other"), MemberLocation::Absent)]];
    match search(&units, "runtime.g", "goid") {
        Err(DwarfError::StructNotFound(n)) => assert_eq!(n, "runtime.g"),
        _ => panic!("expected StructNotFound"),
    }
    match search(&[], "runtime.g", "goid") {
        Err(DwarfError::StructNotFound(n)) => assert_eq!(n, "runtime.g"),
        _ => panic!("expected StructNotFound"),
    }
}

#[test]
fn missing_field_is_reported() {
    match search(&[runtime_unit()], "runtime.g", "nonexistent_field") {
        Err(DwarfError::FieldNotFound { struct_name, field }) => {
            assert_eq!(struct_name, "runtime.g");
            assert_eq!(field, "nonexistent_field");
        },
        _ => panic!("expected FieldNotFound"),
    }
    let ends_with_struct = vec![vec![(0, DW_TAG_STRUCTURE_TYPE, Some("s"), MemberLocation::Absent)]];
    assert!(matches!(search(&ends_with_struct, "s", "f"), Err(DwarfError::FieldNotFound { .. })));
}

#[test]
fn members_of_nested_types_are_skipped_only_at_lower_depth() {
    let units = vec![vec![
        (0, DW_TAG_STRUCTURE_TYPE, Some("s"), MemberLocation::Absent),
        (1, 0x13, None, MemberLocation::Absent),
        (2, DW_TAG_MEMBER, Some("f"), MemberLocation::Udata(99)),
        (1, DW_TAG_MEMBER, Some("f"), MemberLocation::Udata(16)),
    ]];
    assert_eq!(search(&units, "s", "f").unwrap(), 99);
}

#[test]
fn member_without_location_is_passed_over() {
    let units = vec![vec![
        (0, DW_TAG_STRUCTURE_TYPE, Some("s"), MemberLocation::Absent),
        (1, DW_TAG_MEMBER, Some("f"), MemberLocation::Absent),
        (1, DW_TAG_MEMBER, Some("f"), MemberLocation::Udata(24)),
    ]];
    assert_eq!(search(&units, "s", "f").unwrap(), 24);
}

#[test]
fn non_constant_location_is_an_error() {
    let units = vec![vec![
        (0, DW_TAG_STRUCTURE_TYPE, Some("s"), MemberLocation::Absent),
        (1, DW_TAG_MEMBER, Some("f"), MemberLocation::Other),
    ]];
    assert!(matches!(search(&units, "s", "f"), Err(DwarfError::AttributeNotFound)));
}

#[test]
fn search_asks_only_for_what_it_needs() {
    let (s, a) = FieldSearch::new("s", "f");
    assert_eq!(a, SearchAction::NextUnit);
    assert!(s.accepts(&SearchEvent::UnitOpened));
    assert!(!s.accepts(&SearchEvent::EndOfUnit));
    assert!(!s.accepts(&SearchEvent::Name(None)));
}
