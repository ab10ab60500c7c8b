//! Error values: what a failed system call is reported as.

use vstd::prelude::*;

verus! {

/// The category of an operating system error.
#[derive(Clone, Copy, Debug, PartialEq, Eq, Structural)]
pub enum ErrorKind {
    NotFound,
    PermissionDenied,
    ConnectionRefused,
    ConnectionReset,
    HostUnreachable,
    NetworkUnreachable,
    ConnectionAborted,
    NotConnected,
    AddrInUse,
    AddrNotAvailable,
    NetworkDown,
    BrokenPipe,
    AlreadyExists,
    WouldBlock,
    NotADirectory,
    IsADirectory,
    DirectoryNotEmpty,
    ReadOnlyFilesystem,
    StaleNetworkFileHandle,
    InvalidInput,
    InvalidData,
    TimedOut,
    WriteZero,
    StorageFull,
    NotSeekable,
    QuotaExceeded,
    FileTooLarge,
    ResourceBusy,
    ExecutableFileBusy,
    Deadlock,
    CrossesDevices,
    TooManyLinks,
    InvalidFilename,
    ArgumentListTooLong,
    Interrupted,
    Unsupported,
    UnexpectedEof,
    OutOfMemory,
    Other,
    FilesystemLoop,
    InProgress,
    /// A category that has no name of its own.
    Uncategorized,
}

/// A failed system call: its category and the operating system's words for it.
#[derive(Debug, PartialEq, Eq)]
pub struct IoError {
    pub kind: ErrorKind,
    pub text: String,
}

/// Why an I/O request did not succeed.
#[derive(Clone, Copy, Debug, PartialEq, Eq)]
pub enum CompletionError {
    /// The operating system refused the named operation.
    IOError(ErrorKind, &'static str),
    /// The request was given up before it finished.
    Aborted,
}

/// The errors of this library.
#[derive(Debug, PartialEq, Eq)]
pub enum LimboError {
    InternalError(String),
    LockingError(String),
    CompletionError(CompletionError),
}

/// The error of an operation `op` that the operating system refused.
pub fn io_error(kind: ErrorKind, op: &'static str) -> (error: LimboError)
    ensures
        error == LimboError::CompletionError(CompletionError::IOError(kind, op)),
{
    LimboError::CompletionError(CompletionError::IOError(kind, op))
}

} // verus!
