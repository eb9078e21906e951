use vstd::prelude::*;

use crate::ptrace::WaitStatus;
use crate::text::IntErrorKind;

verus! {

/// Why a file was not accepted as an ELF image.
#[derive(Debug)]
pub enum ElfError {
    /// The first 16 bytes could not be read.
    ReadError,
    /// The file does not start with the ELF magic.
    NotAnElfFile,
    /// A looked-up item is absent.
    NotFound,
}

/// Why a line of `/proc/<pid>/maps` was not understood.
#[derive(Debug)]
pub enum MapsError {
    /// The maps file could not be read.
    ReadFailed,
    /// A number field is malformed.
    FailedToParse(IntErrorKind),
    /// The line has too few fields, or a range lacks its separator.
    ParseError,
    /// No executable mapping was found.
    NotFound,
}

/// Why an operation on a traced process failed; the numbers are `errno`
/// values.
#[derive(Debug)]
pub enum PtraceError {
    AttachFailed(i32),
    InterruptFailed(i32),
    ContinueFailed(i32),
    WaitPIDFailed(i32),
    /// `waitpid` reported a status that is neither a stop nor an exit.
    WaitPIDUnexpectedStatus(WaitStatus),
    /// The process exited while it was waited for.
    ProgramExited,
    DetachFailed(i32),
    GetRegistersFailed(i32),
    SetRegistersFailed(i32),
    ReadFailed(i32),
    WriteFailed(i32),
}

/// Why information about a process could not be obtained.
#[derive(Debug)]
pub enum ProcError {
    /// `/proc/<pid>/status` could not be opened.
    FailedToGetStatus,
    /// `waitpid` failed with this `errno`.
    FailedToWaitPid(i32),
    /// A file under `/proc/<pid>` could not be read.
    IoError,
    ElfError(ElfError),
}

/// gimli's error type, carried through as it is.
#[verifier::external_type_specification]
#[verifier::external_body]
pub struct ExGimliError(gimli::Error);

/// Why the offsets of the Go runtime's structures were not found.
#[derive(Debug)]
pub enum DwarfError {
    /// The image has no usable debugging information.
    NoDwarfInfo,
    /// No structure of this name is described.
    StructNotFound(String),
    /// The structure has no member of this name.
    FieldNotFound { struct_name: String, field: String },
    /// The member's location is not a constant offset.
    AttributeNotFound,
    /// The debugging information could not be read.
    GimliError(gimli::Error),
}

/// Why a shared event buffer could not be created; the numbers are `errno`
/// values.
#[derive(Debug)]
pub enum EventBufferError {
    MemfdCreateFailed(i32),
    FtruncateFailed(i32),
    MmapFailed(i32),
}

/// Why instrumenting a target failed.
#[derive(Debug)]
pub enum InstrumentError {
    PtraceError(PtraceError),
    /// `mprotect` returned this nonzero value.
    MprotectFailed(u64),
    /// A system call made in the tracee returned this (negative) value.
    SyscallFailed(u64),
    DwarfError(DwarfError),
    ElfError(ElfError),
    ProcError(ProcError),
}

} // verus!
