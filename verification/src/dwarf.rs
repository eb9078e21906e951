use vstd::prelude::*;

use crate::error::DwarfError;
use crate::text::str_eq;
use gimli::{AttributeValue, Section};
use object::{Object, ObjectSection};

verus! {

/// Offsets of the fields of the Go runtime's goroutine structure (`runtime.g`)
/// that trampolines read.
#[derive(Clone, Copy)]
pub struct RuntimeOffsets {
    /// Offset of `goid` in `runtime.g`.
    pub goid: u64,
}

impl RuntimeOffsets {
    /// The offsets once the search for the offset of `goid` is over.
    pub fn from_goid_search(goid: Result<u64, DwarfError>) -> (r: Result<RuntimeOffsets, DwarfError>)
        ensures
            match goid {
                Ok(g) => r == Ok::<RuntimeOffsets, DwarfError>(RuntimeOffsets { goid: g }),
                Err(e) => r == Err::<RuntimeOffsets, DwarfError>(e),
            },
    {
        match goid {
            Ok(goid) => Ok(RuntimeOffsets { goid }),
            Err(e) => Err(e),
        }
    }
}

/// `DW_TAG_structure_type`.
pub const DW_TAG_STRUCTURE_TYPE: u16 = 0x13;

/// `DW_TAG_member`.
pub const DW_TAG_MEMBER: u16 = 0x0d;

/// The value of a member's `DW_AT_data_member_location` attribute, by form.
#[derive(Debug, Clone, Copy, PartialEq, Eq)]
pub enum MemberLocation {
    Udata(u64),
    Data1(u8),
    Data2(u16),
    Data4(u32),
    Data8(u64),
    /// Another form, such as a location expression.
    Other,
    /// The member has no such attribute.
    Absent,
}

/// What came of the last request to the debugging information.
pub enum SearchEvent {
    /// The next unit was opened.
    UnitOpened,
    /// There are no more units.
    EndOfUnits,
    /// The next entry of the unit, in depth-first order: its depth in the unit
    /// and its tag.
    Entry { depth: isize, tag: u16 },
    /// The unit has no more entries.
    EndOfUnit,
    /// The name of the current entry, when it has one given as a string.
    Name(Option<String>),
    /// The location attribute of the current entry.
    Location(MemberLocation),
}

/// An event, with its name as characters.
pub enum SearchEventView {
    UnitOpened,
    EndOfUnits,
    Entry(isize, u16),
    EndOfUnit,
    Name(Option<Seq<char>>),
    Location(MemberLocation),
}

impl View for SearchEvent {
    type V = SearchEventView;

    open spec fn view(&self) -> SearchEventView {
        match self {
            SearchEvent::UnitOpened => SearchEventView::UnitOpened,
            SearchEvent::EndOfUnits => SearchEventView::EndOfUnits,
            SearchEvent::Entry { depth, tag } => SearchEventView::Entry(*depth, *tag),
            SearchEvent::EndOfUnit => SearchEventView::EndOfUnit,
            SearchEvent::Name(n) => SearchEventView::Name(
                match n {
                    Some(s) => Some(s@),
                    None => None,
                },
            ),
            SearchEvent::Location(l) => SearchEventView::Location(*l),
        }
    }
}

/// What the search needs next.
#[derive(Debug, Clone, Copy, PartialEq, Eq)]
pub enum SearchAction {
    /// Open the next unit.
    NextUnit,
    /// Read the next entry of the current unit.
    NextEntry,
    /// Read the name of the current entry.
    EntryName,
    /// Read the `DW_AT_data_member_location` of the current entry.
    EntryLocation,
}

/// Where the search stands.
#[derive(Debug, Clone, Copy, PartialEq, Eq)]
pub enum SearchState {
    /// Waiting for the next unit.
    Unit,
    /// Looking through a unit for the structure.
    Scan,
    /// Waiting for the name of a structure entry at this depth.
    ScanName(isize),
    /// Looking through the members of the structure found at this depth.
    Members(isize),
    /// Waiting for the name of a member of the structure at this depth.
    MemberName(isize),
    /// Waiting for the location of the member sought.
    MemberLocation(isize),
    /// The search is over.
    Done,
}

/// The outcome of one step of the search.
pub enum SearchStep {
    Continue(SearchAction),
    Found(u64),
    Failed(DwarfError),
}

/// A step's outcome, with the names in its error as characters.
pub enum SearchStepView {
    Continue(SearchAction),
    Found(u64),
    StructNotFound(Seq<char>),
    FieldNotFound(Seq<char>, Seq<char>),
    AttributeNotFound,
    Other,
}

pub open spec fn search_step_view(s: SearchStep) -> SearchStepView {
    match s {
        SearchStep::Continue(a) => SearchStepView::Continue(a),
        SearchStep::Found(o) => SearchStepView::Found(o),
        SearchStep::Failed(DwarfError::StructNotFound(n)) => SearchStepView::StructNotFound(n@),
        SearchStep::Failed(DwarfError::FieldNotFound { struct_name, field }) => SearchStepView::FieldNotFound(
            struct_name@,
            field@,
        ),
        SearchStep::Failed(DwarfError::AttributeNotFound) => SearchStepView::AttributeNotFound,
        SearchStep::Failed(_) => SearchStepView::Other,
    }
}

/// The offset a location attribute gives, or `None` when its form is not a
/// constant.
pub open spec fn location_offset(l: MemberLocation) -> Option<u64> {
    match l {
        MemberLocation::Udata(v) => Some(v),
        MemberLocation::Data1(v) => Some(v as u64),
        MemberLocation::Data2(v) => Some(v as u64),
        MemberLocation::Data4(v) => Some(v as u64),
        MemberLocation::Data8(v) => Some(v),
        _ => None,
    }
}

/// The search for the member `field` of the structure `name`: the next state
/// and outcome after event `e` in state `s`.
pub open spec fn search_step(name: Seq<char>, field: Seq<char>, s: SearchState, e: SearchEventView) -> (
    SearchState,
    SearchStepView,
) {
    match (s, e) {
        (SearchState::Unit, SearchEventView::UnitOpened) => (
            SearchState::Scan,
            SearchStepView::Continue(SearchAction::NextEntry),
        ),
        (SearchState::Unit, SearchEventView::EndOfUnits) => (SearchState::Done, SearchStepView::StructNotFound(name)),
        (SearchState::Scan, SearchEventView::Entry(depth, tag)) => if tag == DW_TAG_STRUCTURE_TYPE {
            (SearchState::ScanName(depth), SearchStepView::Continue(SearchAction::EntryName))
        } else {
            (SearchState::Scan, SearchStepView::Continue(SearchAction::NextEntry))
        },
        (SearchState::Scan, SearchEventView::EndOfUnit) => (
            SearchState::Unit,
            SearchStepView::Continue(SearchAction::NextUnit),
        ),
        (SearchState::ScanName(d), SearchEventView::Name(n)) => if n == Some(name) {
            (SearchState::Members(d), SearchStepView::Continue(SearchAction::NextEntry))
        } else {
            (SearchState::Scan, SearchStepView::Continue(SearchAction::NextEntry))
        },
        (SearchState::Members(d), SearchEventView::Entry(depth, tag)) => if depth <= d {
            (SearchState::Done, SearchStepView::FieldNotFound(name, field))
        } else if tag == DW_TAG_MEMBER {
            (SearchState::MemberName(d), SearchStepView::Continue(SearchAction::EntryName))
        } else {
            (SearchState::Members(d), SearchStepView::Continue(SearchAction::NextEntry))
        },
        (SearchState::Members(_), SearchEventView::EndOfUnit) => (
            SearchState::Done,
            SearchStepView::FieldNotFound(name, field),
        ),
        (SearchState::MemberName(d), SearchEventView::Name(n)) => if n == Some(field) {
            (SearchState::MemberLocation(d), SearchStepView::Continue(SearchAction::EntryLocation))
        } else {
            (SearchState::Members(d), SearchStepView::Continue(SearchAction::NextEntry))
        },
        (SearchState::MemberLocation(d), SearchEventView::Location(l)) => match l {
            MemberLocation::Absent => (SearchState::Members(d), SearchStepView::Continue(SearchAction::NextEntry)),
            MemberLocation::Other => (SearchState::Done, SearchStepView::AttributeNotFound),
            _ => (SearchState::Done, SearchStepView::Found(location_offset(l)->0)),
        },
        _ => (s, SearchStepView::Other),
    }
}

/// The event answers the action the search waits on.
pub open spec fn event_fits(s: SearchState, e: SearchEventView) -> bool {
    match s {
        SearchState::Unit => e is UnitOpened || e is EndOfUnits,
        SearchState::Scan | SearchState::Members(_) => e is Entry || e is EndOfUnit,
        SearchState::ScanName(_) | SearchState::MemberName(_) => e is Name,
        SearchState::MemberLocation(_) => e is Location,
        SearchState::Done => false,
    }
}

/// Searches the debugging information, one unit and one entry at a time in
/// depth-first order, for the offset of the member `field` of the first
/// structure named `name`: the member's constant `DW_AT_data_member_location`.
pub struct FieldSearch {
    struct_name: String,
    field_name: String,
    state: SearchState,
}

impl FieldSearch {
    pub closed spec fn name(&self) -> Seq<char> {
        self.struct_name@
    }

    pub closed spec fn field(&self) -> Seq<char> {
        self.field_name@
    }

    pub closed spec fn state(&self) -> SearchState {
        self.state
    }

    /// Starts the search; the first action opens a unit.
    pub fn new(struct_name: &str, field_name: &str) -> (r: (FieldSearch, SearchAction))
        ensures
            r.0.name() == struct_name@,
            r.0.field() == field_name@,
            r.0.state() == SearchState::Unit,
            r.1 == SearchAction::NextUnit,
    {
        (
            FieldSearch {
                struct_name: struct_name.to_owned(),
                field_name: field_name.to_owned(),
                state: SearchState::Unit,
            },
            SearchAction::NextUnit,
        )
    }

    /// Whether `event` answers the action the search waits on.
    pub fn accepts(&self, event: &SearchEvent) -> (r: bool)
        ensures
            r == event_fits(self.state(), event@),
    {
        match self.state {
            SearchState::Unit => matches!(event, SearchEvent::UnitOpened | SearchEvent::EndOfUnits),
            SearchState::Scan | SearchState::Members(_) => matches!(
                event,
                SearchEvent::Entry { .. } | SearchEvent::EndOfUnit
            ),
            SearchState::ScanName(_) | SearchState::MemberName(_) => matches!(event, SearchEvent::Name(_)),
            SearchState::MemberLocation(_) => matches!(event, SearchEvent::Location(_)),
            SearchState::Done => false,
        }
    }

    /// Takes in what the last action gave, and says what to do next, or ends
    /// the search with the offset or the error.
    pub fn step(&mut self, event: SearchEvent) -> (r: SearchStep)
        requires
            event_fits(old(self).state(), event@),
        ensures
            final(self).name() == old(self).name(),
            final(self).field() == old(self).field(),
            (final(self).state(), search_step_view(r)) == search_step(
                old(self).name(),
                old(self).field(),
                old(self).state(),
                event@,
            ),
    {
        match (self.state, event) {
            (SearchState::Unit, SearchEvent::UnitOpened) => {
                self.state = SearchState::Scan;
                SearchStep::Continue(SearchAction::NextEntry)
            },
            (SearchState::Unit, _) => {
                self.state = SearchState::Done;
                SearchStep::Failed(DwarfError::StructNotFound(self.struct_name.clone()))
            },
            (SearchState::Scan, SearchEvent::Entry { depth, tag }) => {
                if tag == DW_TAG_STRUCTURE_TYPE {
                    self.state = SearchState::ScanName(depth);
                    SearchStep::Continue(SearchAction::EntryName)
                } else {
                    SearchStep::Continue(SearchAction::NextEntry)
                }
            },
            (SearchState::Scan, _) => {
                self.state = SearchState::Unit;
                SearchStep::Continue(SearchAction::NextUnit)
            },
            (SearchState::ScanName(d), SearchEvent::Name(n)) => {
                let found = match &n {
                    Some(s) => str_eq(s.as_str(), self.struct_name.as_str()),
                    None => false,
                };
                if found {
                    self.state = SearchState::Members(d);
                } else {
                    self.state = SearchState::Scan;
                }
                SearchStep::Continue(SearchAction::NextEntry)
            },
            (SearchState::Members(d), SearchEvent::Entry { depth, tag }) => {
                if depth <= d {
                    self.state = SearchState::Done;
                    SearchStep::Failed(
                        DwarfError::FieldNotFound {
                            struct_name: self.struct_name.clone(),
                            field: self.field_name.clone(),
                        },
                    )
                } else if tag == DW_TAG_MEMBER {
                    self.state = SearchState::MemberName(d);
                    SearchStep::Continue(SearchAction::EntryName)
                } else {
                    SearchStep::Continue(SearchAction::NextEntry)
                }
            },
            (SearchState::Members(_), _) => {
                self.state = SearchState::Done;
                SearchStep::Failed(
                    DwarfError::FieldNotFound { struct_name: self.struct_name.clone(), field: self.field_name.clone() },
                )
            },
            (SearchState::MemberName(d), SearchEvent::Name(n)) => {
                let found = match &n {
                    Some(s) => str_eq(s.as_str(), self.field_name.as_str()),
                    None => false,
                };
                if found {
                    self.state = SearchState::MemberLocation(d);
                    SearchStep::Continue(SearchAction::EntryLocation)
                } else {
                    self.state = SearchState::Members(d);
                    SearchStep::Continue(SearchAction::NextEntry)
                }
            },
            (SearchState::MemberLocation(d), SearchEvent::Location(l)) => {
                match l {
                    MemberLocation::Udata(v) => {
                        self.state = SearchState::Done;
                        SearchStep::Found(v)
                    },
                    MemberLocation::Data1(v) => {
                        self.state = SearchState::Done;
                        SearchStep::Found(v as u64)
                    },
                    MemberLocation::Data2(v) => {
                        self.state = SearchState::Done;
                        SearchStep::Found(v as u64)
                    },
                    MemberLocation::Data4(v) => {
                        self.state = SearchState::Done;
                        SearchStep::Found(v as u64)
                    },
                    MemberLocation::Data8(v) => {
                        self.state = SearchState::Done;
                        SearchStep::Found(v)
                    },
                    MemberLocation::Other => {
                        self.state = SearchState::Done;
                        SearchStep::Failed(DwarfError::AttributeNotFound)
                    },
                    MemberLocation::Absent => {
                        self.state = SearchState::Members(d);
                        SearchStep::Continue(SearchAction::NextEntry)
                    },
                }
            },
            _ => SearchStep::Continue(SearchAction::NextEntry),
        }
    }
}


/// gimli's loaded DWARF sections, carried through as they are.
#[verifier::external_type_specification]
#[verifier::external_body]
#[verifier::reject_recursive_types(T)]
pub struct ExDwarfSections<T>(gimli::DwarfSections<T>);

/// gimli's run-time byte order.
#[verifier::external_type_specification]
#[verifier::external_body]
pub struct ExRunTimeEndian(gimli::RunTimeEndian);

/// The DWARF sections of an ELF image, loaded from it with its byte order.
pub struct DwarfData<'a> {
    elf: &'a [u8],
    sections: gimli::DwarfSections<Vec<u8>>,
    endian: gimli::RunTimeEndian,
}

impl<'a> DwarfData<'a> {
    /// The image the sections were loaded from.
    pub closed spec fn elf(&self) -> Seq<u8> {
        self.elf@
    }
}

/// Whether `object::File::parse` accepts the image.
pub uninterp spec fn object_parses(elf: Seq<u8>) -> bool;

/// The length of the image's `.debug_info` section.
pub uninterp spec fn debug_info_len(elf: Seq<u8>) -> usize;

/// The length, header included, of the unit whose header is at `offset` in
/// `.debug_info`; `None` when the header cannot be read.
pub uninterp spec fn unit_length(elf: Seq<u8>, offset: usize) -> Option<usize>;

/// The first entry of the unit at `unit`: its offset in the unit, its depth
/// and its tag; `Some(None)` when the unit has none, `None` when it cannot be
/// read.
pub uninterp spec fn first_entry(elf: Seq<u8>, unit: usize) -> Option<Option<(usize, isize, u16)>>;

/// The entry after the one at offset `entry` of the unit at `unit`, in
/// depth-first order: its offset, its depth relative to that entry, its tag.
pub uninterp spec fn entry_after(elf: Seq<u8>, unit: usize, entry: usize) -> Option<Option<(usize, isize, u16)>>;

/// The `DW_AT_name` of an entry when it is a string or a `.debug_str`
/// reference; `None` when it cannot be read.
pub uninterp spec fn entry_name(elf: Seq<u8>, unit: usize, entry: usize) -> Option<Option<Seq<char>>>;

/// The `DW_AT_data_member_location` of an entry; `None` when it cannot be
/// read.
pub uninterp spec fn entry_location(elf: Seq<u8>, unit: usize, entry: usize) -> Option<MemberLocation>;

/// Loads the DWARF sections of an ELF image: `object::File::parse`, then
/// `gimli::DwarfSections::load` with each section's uncompressed data (empty
/// when the image has none). `None` exactly when the image does not parse.
#[verifier::external_body]
fn load_dwarf<'a>(elf: &'a [u8]) -> (r: Option<DwarfData<'a>>)
    ensures
        (r is Some) == object_parses(elf@),
        r matches Some(d) ==> d.elf() == elf@,
{
    let file = object::File::parse(elf).ok()?;
    let endian = match file.endianness() {
        object::Endianness::Little => gimli::RunTimeEndian::Little,
        object::Endianness::Big => gimli::RunTimeEndian::Big,
    };
    let sections = gimli::DwarfSections::load(|id| {
        Ok::<Vec<u8>, ()>(file.section_by_name(id.name()).and_then(|s| s.uncompressed_data().ok()).unwrap_or_default().into_owned())
    }).ok()?;
    Some(DwarfData { elf, sections, endian })
}

/// The length of `.debug_info` (`Reader::len` of the section's reader).
#[verifier::external_body]
fn info_len(d: &DwarfData) -> (r: usize)
    ensures
        r == debug_info_len(d.elf()),
{
    let dwarf = d.sections.borrow(|s| gimli::EndianSlice::new(s, d.endian));
    gimli::Reader::len(dwarf.debug_info.reader())
}

/// `DebugInfo::header_from_offset`, then `UnitHeader::length_including_self`.
/// gimli reads the initial length (4 or 12 bytes) and splits the unit off
/// the rest of the section, so the unit is not empty and fits in it.
#[verifier::external_body]
fn read_unit_length(d: &DwarfData, offset: usize) -> (r: Result<usize, gimli::Error>)
    ensures
        match r {
            Ok(n) => unit_length(d.elf(), offset) == Some(n) && 0 < n && offset + n <= debug_info_len(d.elf()),
            Err(_) => unit_length(d.elf(), offset) is None,
        },
{
    let dwarf = d.sections.borrow(|s| gimli::EndianSlice::new(s, d.endian));
    dwarf.debug_info.header_from_offset(gimli::DebugInfoOffset(offset)).map(|h| h.length_including_self())
}

/// The first entry of a unit: `Dwarf::unit`, `Unit::entries`, then
/// `EntriesCursor::next_dfs`. Entries lie inside their unit.
#[verifier::external_body]
fn read_first_entry(d: &DwarfData, unit: usize) -> (r: Result<Option<(usize, isize, u16)>, gimli::Error>)
    ensures
        match r {
            Ok(e) => first_entry(d.elf(), unit) == Some(e),
            Err(_) => first_entry(d.elf(), unit) is None,
        },
        r matches Ok(Some(e)) ==> (unit_length(d.elf(), unit) matches Some(n) && e.0 < n),
{
    let dwarf = d.sections.borrow(|s| gimli::EndianSlice::new(s, d.endian));
    let u = dwarf.unit(dwarf.debug_info.header_from_offset(gimli::DebugInfoOffset(unit))?)?;
    let mut cursor = u.entries();
    Ok(cursor.next_dfs()?.map(|e| (e.offset().0, e.depth(), e.tag().0)))
}

/// The entry after the one at `entry`: the unit's abbreviations
/// (`Dwarf::abbreviations`), `UnitHeader::entries_at_offset`, then
/// `EntriesCursor::next_dfs` twice. Each entry takes at least one byte, so
/// the next one lies further on, and still inside the unit.
#[verifier::external_body]
fn read_entry_after(d: &DwarfData, unit: usize, entry: usize) -> (r: Result<Option<(usize, isize, u16)>, gimli::Error>)
    ensures
        match r {
            Ok(e) => entry_after(d.elf(), unit, entry) == Some(e),
            Err(_) => entry_after(d.elf(), unit, entry) is None,
        },
        r matches Ok(Some(e)) ==> (entry < e.0 && (unit_length(d.elf(), unit) matches Some(n) && e.0 < n)),
{
    let dwarf = d.sections.borrow(|s| gimli::EndianSlice::new(s, d.endian));
    let header = dwarf.debug_info.header_from_offset(gimli::DebugInfoOffset(unit))?;
    let abbrevs = dwarf.abbreviations(&header)?;
    let mut cursor = header.entries_at_offset(&abbrevs, gimli::UnitOffset(entry))?;
    cursor.next_dfs()?;
    Ok(cursor.next_dfs()?.map(|e| (e.offset().0, e.depth(), e.tag().0)))
}

/// The name of an entry (`UnitHeader::entry` with the unit's
/// abbreviations): its `DW_AT_name` read through `.debug_str`
/// (`DebugStr::get_str`) or inline, as a string.
#[verifier::external_body]
fn read_entry_name(d: &DwarfData, unit: usize, entry: usize) -> (r: Result<Option<String>, gimli::Error>)
    ensures
        match r {
            Ok(Some(s)) => entry_name(d.elf(), unit, entry) == Some(Some(s@)),
            Ok(None) => entry_name(d.elf(), unit, entry) == Some(None::<Seq<char>>),
            Err(_) => entry_name(d.elf(), unit, entry) is None,
        },
{
    let dwarf = d.sections.borrow(|s| gimli::EndianSlice::new(s, d.endian));
    let header = dwarf.debug_info.header_from_offset(gimli::DebugInfoOffset(unit))?;
    let abbrevs = dwarf.abbreviations(&header)?;
    match header.entry(&abbrevs, gimli::UnitOffset(entry))?.attr(gimli::DW_AT_name).map(|a| a.value()) {
        Some(AttributeValue::DebugStrRef(o)) => Ok(Some(dwarf.debug_str.get_str(o)?.to_string()?.to_string())),
        Some(AttributeValue::String(s)) => Ok(Some(s.to_string()?.to_string())),
        _ => Ok(None),
    }
}

/// The `DW_AT_data_member_location` of an entry (`UnitHeader::entry` with
/// the unit's abbreviations), by form.
#[verifier::external_body]
fn read_entry_location(d: &DwarfData, unit: usize, entry: usize) -> (r: Result<MemberLocation, gimli::Error>)
    ensures
        match r {
            Ok(l) => entry_location(d.elf(), unit, entry) == Some(l),
            Err(_) => entry_location(d.elf(), unit, entry) is None,
        },
{
    let dwarf = d.sections.borrow(|s| gimli::EndianSlice::new(s, d.endian));
    let header = dwarf.debug_info.header_from_offset(gimli::DebugInfoOffset(unit))?;
    let abbrevs = dwarf.abbreviations(&header)?;
    Ok(match header.entry(&abbrevs, gimli::UnitOffset(entry))?.attr(gimli::DW_AT_data_member_location).map(|a| a.value()) {
        None => MemberLocation::Absent,
        Some(AttributeValue::Udata(v)) => MemberLocation::Udata(v),
        Some(AttributeValue::Data1(v)) => MemberLocation::Data1(v),
        Some(AttributeValue::Data2(v)) => MemberLocation::Data2(v),
        Some(AttributeValue::Data4(v)) => MemberLocation::Data4(v),
        Some(AttributeValue::Data8(v)) => MemberLocation::Data8(v),
        Some(_) => MemberLocation::Other,
    })
}

/// What the search for a member's offset came to, with names as characters.
pub enum FieldOutcome {
    Found(u64),
    NoDwarfInfo,
    StructNotFound(Seq<char>),
    FieldNotFound(Seq<char>, Seq<char>),
    AttributeNotFound,
    ReadFailed,
}

/// A search result as a `FieldOutcome`.
pub open spec fn outcome_of(r: Result<u64, DwarfError>) -> FieldOutcome {
    match r {
        Ok(o) => FieldOutcome::Found(o),
        Err(DwarfError::NoDwarfInfo) => FieldOutcome::NoDwarfInfo,
        Err(DwarfError::StructNotFound(n)) => FieldOutcome::StructNotFound(n@),
        Err(DwarfError::FieldNotFound { struct_name, field }) => FieldOutcome::FieldNotFound(struct_name@, field@),
        Err(DwarfError::AttributeNotFound) => FieldOutcome::AttributeNotFound,
        Err(DwarfError::GimliError(_)) => FieldOutcome::ReadFailed,
    }
}

/// Where the walk through the units and their entries stands: the search's
/// state and the action it waits on, the unit being read (the offset of its
/// header and its length), the offset of the next unit, and the entry last
/// read with its depth in the unit.
pub struct WalkState {
    pub search: SearchState,
    pub action: SearchAction,
    pub unit: usize,
    pub unit_len: usize,
    pub next_unit: usize,
    pub current: Option<(usize, isize)>,
}

/// The walk before anything is read.
pub open spec fn walk_start() -> WalkState {
    WalkState {
        search: SearchState::Unit,
        action: SearchAction::NextUnit,
        unit: 0,
        unit_len: 0,
        next_unit: 0,
        current: None,
    }
}

/// `d + rel`, kept within `isize`.
pub open spec fn depth_add(d: isize, rel: isize) -> isize {
    if d + rel > isize::MAX {
        isize::MAX
    } else if d + rel < isize::MIN {
        isize::MIN
    } else {
        (d + rel) as isize
    }
}

/// `w` at another place of the debugging information.
pub open spec fn walk_at(w: WalkState, unit: usize, unit_len: usize, next_unit: usize, current: Option<(usize, isize)>) -> WalkState {
    WalkState { search: w.search, action: w.action, unit, unit_len, next_unit, current }
}

/// What the action the search waits on reads from the image: the event and
/// where the walk then stands; `None` when the read fails. A new unit is
/// opened at the offset after the last one until `.debug_info` ends; entries
/// are read in depth-first order, their depths added up from the unit's
/// first entry.
pub open spec fn walk_read(elf: Seq<u8>, w: WalkState) -> Option<(SearchEventView, WalkState)> {
    match w.action {
        SearchAction::NextUnit => if w.next_unit >= debug_info_len(elf) {
            Some((SearchEventView::EndOfUnits, w))
        } else {
            match unit_length(elf, w.next_unit) {
                None => None,
                Some(n) => Some(
                    (SearchEventView::UnitOpened, walk_at(w, w.next_unit, n, (w.next_unit + n) as usize, None)),
                ),
            }
        },
        SearchAction::NextEntry => {
            let got = match w.current {
                None => first_entry(elf, w.unit),
                Some(c) => entry_after(elf, w.unit, c.0),
            };
            match got {
                None => None,
                Some(None) => Some((SearchEventView::EndOfUnit, w)),
                Some(Some(e)) => {
                    let depth = match w.current {
                        None => e.1,
                        Some(c) => depth_add(c.1, e.1),
                    };
                    Some(
                        (
                            SearchEventView::Entry(depth, e.2),
                            walk_at(w, w.unit, w.unit_len, w.next_unit, Some((e.0, depth))),
                        ),
                    )
                },
            }
        },
        SearchAction::EntryName => match w.current {
            None => None,
            Some(c) => match entry_name(elf, w.unit, c.0) {
                None => None,
                Some(n) => Some((SearchEventView::Name(n), w)),
            },
        },
        SearchAction::EntryLocation => match w.current {
            None => None,
            Some(c) => match entry_location(elf, w.unit, c.0) {
                None => None,
                Some(l) => Some((SearchEventView::Location(l), w)),
            },
        },
    }
}

/// One step of the walk: read what the search asks for and hand it over;
/// the search goes on from the new place or ends with its outcome.
pub open spec fn walk_step(elf: Seq<u8>, name: Seq<char>, field: Seq<char>, w: WalkState) -> Result<WalkState, FieldOutcome> {
    match walk_read(elf, w) {
        None => Err(FieldOutcome::ReadFailed),
        Some((ev, w2)) => {
            let (s, out) = search_step(name, field, w.search, ev);
            match out {
                SearchStepView::Continue(a) => Ok(
                    WalkState {
                        search: s,
                        action: a,
                        unit: w2.unit,
                        unit_len: w2.unit_len,
                        next_unit: w2.next_unit,
                        current: w2.current,
                    },
                ),
                SearchStepView::Found(o) => Err(FieldOutcome::Found(o)),
                SearchStepView::StructNotFound(n) => Err(FieldOutcome::StructNotFound(n)),
                SearchStepView::FieldNotFound(n, f) => Err(FieldOutcome::FieldNotFound(n, f)),
                SearchStepView::AttributeNotFound => Err(FieldOutcome::AttributeNotFound),
                SearchStepView::Other => Err(FieldOutcome::ReadFailed),
            }
        },
    }
}

/// Units left to open (twice over, less one once the search asks for the
/// next unit).
pub open spec fn walk_units_left(elf: Seq<u8>, w: WalkState) -> int {
    2 * (debug_info_len(elf) - w.next_unit) + if w.action is NextUnit {
        0int
    } else {
        1int
    }
}

/// Bytes of the unit left after the entry last read.
pub open spec fn walk_entries_left(w: WalkState) -> int {
    w.unit_len - match w.current {
        None => 0int,
        Some(c) => c.0 + 1,
    }
}

/// Reads left about the entry last read.
pub open spec fn walk_rank(w: WalkState) -> int {
    match w.action {
        SearchAction::EntryName => 2int,
        SearchAction::EntryLocation => 1int,
        _ => 0int,
    }
}

/// The outcome of the walk from `w`: each step reads further into the image
/// (gimli never reads backwards), until the search ends.
pub open spec fn run_walk(elf: Seq<u8>, name: Seq<char>, field: Seq<char>, w: WalkState) -> FieldOutcome
    decreases walk_units_left(elf, w), walk_entries_left(w), walk_rank(w),
{
    match walk_step(elf, name, field, w) {
        Err(o) => o,
        Ok(next) => if decreases_to!(walk_units_left(elf, w), walk_entries_left(w), walk_rank(w) =>
            walk_units_left(elf, next), walk_entries_left(next), walk_rank(next)) {
            run_walk(elf, name, field, next)
        } else {
            FieldOutcome::ReadFailed
        },
    }
}

/// The action is the one the search state waits on.
pub open spec fn action_matches(s: SearchState, a: SearchAction) -> bool {
    match s {
        SearchState::Unit => a is NextUnit,
        SearchState::Scan | SearchState::Members(_) => a is NextEntry,
        SearchState::ScanName(_) | SearchState::MemberName(_) => a is EntryName,
        SearchState::MemberLocation(_) => a is EntryLocation,
        SearchState::Done => false,
    }
}

/// The walk's place is consistent with what was read from `elf`.
pub open spec fn walk_wf(elf: Seq<u8>, w: WalkState) -> bool {
    &&& action_matches(w.search, w.action)
    &&& w.next_unit <= debug_info_len(elf)
    &&& (w.action is EntryName || w.action is EntryLocation) ==> w.current is Some
    &&& !(w.action is NextUnit) ==> unit_length(elf, w.unit) == Some(w.unit_len)
    &&& w.current matches Some(c) ==> c.0 < w.unit_len
}

fn add_depth(d: isize, rel: isize) -> (r: isize)
    ensures
        r == depth_add(d, rel),
{
    if rel > 0 && d > isize::MAX - rel {
        isize::MAX
    } else if rel < 0 && d < isize::MIN - rel {
        isize::MIN
    } else {
        d + rel
    }
}

/// Walks the units of the image's debugging information and their entries
/// in depth-first order, as the search for the member `field_name` of the
/// first structure named `struct_name` asks, and returns what it found.
pub fn find_field_offset(d: &DwarfData, struct_name: &str, field_name: &str) -> (r: Result<u64, DwarfError>)
    ensures
        outcome_of(r) == run_walk(d.elf(), struct_name@, field_name@, walk_start()),
{
    let ghost elf = d.elf();
    let (mut search, mut action) = FieldSearch::new(struct_name, field_name);
    let info = info_len(d);
    let mut unit: usize = 0;
    let mut unit_len: usize = 0;
    let mut next_unit: usize = 0;
    let mut current: Option<(usize, isize)> = None;
    loop
        invariant
            elf == d.elf(),
            info == debug_info_len(elf),
            search.name() == struct_name@,
            search.field() == field_name@,
            walk_wf(elf, WalkState { search: search.state(), action, unit, unit_len, next_unit, current }),
            run_walk(elf, struct_name@, field_name@, WalkState { search: search.state(), action, unit, unit_len, next_unit, current })
                == run_walk(elf, struct_name@, field_name@, walk_start()),
        decreases
            walk_units_left(elf, WalkState { search: search.state(), action, unit, unit_len, next_unit, current }),
            walk_entries_left(WalkState { search: search.state(), action, unit, unit_len, next_unit, current }),
            walk_rank(WalkState { search: search.state(), action, unit, unit_len, next_unit, current }),
    {
        let ghost w = WalkState { search: search.state(), action, unit, unit_len, next_unit, current };
        let event = match action {
            SearchAction::NextUnit => {
                if next_unit >= info {
                    SearchEvent::EndOfUnits
                } else {
                    match read_unit_length(d, next_unit) {
                        Err(e) => return Err(DwarfError::GimliError(e)),
                        Ok(n) => {
                            unit = next_unit;
                            unit_len = n;
                            next_unit = next_unit + n;
                            current = None;
                            SearchEvent::UnitOpened
                        },
                    }
                }
            },
            SearchAction::NextEntry => {
                let got = match current {
                    None => read_first_entry(d, unit),
                    Some(c) => read_entry_after(d, unit, c.0),
                };
                match got {
                    Err(e) => return Err(DwarfError::GimliError(e)),
                    Ok(None) => SearchEvent::EndOfUnit,
                    Ok(Some(e)) => {
                        let depth = match current {
                            None => e.1,
                            Some(c) => add_depth(c.1, e.1),
                        };
                        current = Some((e.0, depth));
                        SearchEvent::Entry { depth, tag: e.2 }
                    },
                }
            },
            SearchAction::EntryName => {
                let c = match current {
                    Some(c) => c,
                    None => {
                        proof {
                            assert(false);
                        }
                        return Err(DwarfError::AttributeNotFound);
                    },
                };
                match read_entry_name(d, unit, c.0) {
                    Err(e) => return Err(DwarfError::GimliError(e)),
                    Ok(n) => SearchEvent::Name(n),
                }
            },
            SearchAction::EntryLocation => {
                let c = match current {
                    Some(c) => c,
                    None => {
                        proof {
                            assert(false);
                        }
                        return Err(DwarfError::AttributeNotFound);
                    },
                };
                match read_entry_location(d, unit, c.0) {
                    Err(e) => return Err(DwarfError::GimliError(e)),
                    Ok(l) => SearchEvent::Location(l),
                }
            },
        };
        let ghost w2 = WalkState { search: w.search, action: w.action, unit, unit_len, next_unit, current };
        assert(walk_read(elf, w) == Some((event@, w2)));
        let step = search.step(event);
        match step {
            SearchStep::Continue(a) => {
                action = a;
                let ghost next = WalkState { search: search.state(), action, unit, unit_len, next_unit, current };
                assert(walk_step(elf, struct_name@, field_name@, w) == Ok::<WalkState, FieldOutcome>(next));
                assert(decreases_to!(walk_units_left(elf, w), walk_entries_left(w), walk_rank(w) =>
                    walk_units_left(elf, next), walk_entries_left(next), walk_rank(next)));
            },
            SearchStep::Found(o) => {
                return Ok(o);
            },
            SearchStep::Failed(e) => {
                return Err(e);
            },
        }
    }
}

/// What the search for the member `field` of the structure `name` comes to
/// in an ELF image: `NoDwarfInfo` when `object` cannot parse the image, else
/// the walk through its debugging information.
pub open spec fn elf_field_outcome(elf: Seq<u8>, name: Seq<char>, field: Seq<char>) -> FieldOutcome {
    if !object_parses(elf) {
        FieldOutcome::NoDwarfInfo
    } else {
        run_walk(elf, name, field, walk_start())
    }
}

/// The offsets, or why they were not found, as a `FieldOutcome`.
pub open spec fn offsets_outcome(r: Result<RuntimeOffsets, DwarfError>) -> FieldOutcome {
    match r {
        Ok(o) => FieldOutcome::Found(o.goid),
        Err(e) => outcome_of(Err(e)),
    }
}

impl RuntimeOffsets {
    /// Reads the offsets from an ELF image's debugging information: the
    /// offset of `goid` is the constant location of the member `goid` of the
    /// first structure named `runtime.g`.
    pub fn from_elf(elf_bytes: &[u8]) -> (r: Result<RuntimeOffsets, DwarfError>)
        ensures
            offsets_outcome(r) == elf_field_outcome(elf_bytes@, "runtime.g"@, "goid"@),
    {
        match load_dwarf(elf_bytes) {
            None => Err(DwarfError::NoDwarfInfo),
            Some(d) => RuntimeOffsets::from_goid_search(find_field_offset(&d, "runtime.g", "goid")),
        }
    }
}

} // verus!
