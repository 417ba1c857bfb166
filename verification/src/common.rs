//! The event contract between the kernel-side programs and the userspace agent:
//! fixed-layout records, written on one ring buffer and told apart by their
//! leading `event_type`.

use vstd::prelude::*;

verus! {

/// A process called `execve()`.
pub const EVENT_PROCESS_EXEC: u32 = 1;

/// A process terminated.
pub const EVENT_PROCESS_EXIT: u32 = 2;

/// A file access (open / openat2 / rename / unlink / truncate).
pub const EVENT_FILE_ACCESS: u32 = 3;

/// Length of the kernel `comm` field (`TASK_COMM_LEN`).
pub const COMM_LEN: usize = 16;

/// Maximum captured path length.
pub const PATH_LEN: usize = 256;

/// File was opened for reading (a candidate input).
pub const ACCESS_READ: u32 = 0;

/// File was opened for writing or modification (a candidate output).
pub const ACCESS_WRITE: u32 = 1;

/// File was created (`O_CREAT`) (a candidate output).
pub const ACCESS_CREATE: u32 = 2;

/// File was removed (`unlinkat`) (an output removal).
pub const ACCESS_DELETE: u32 = 3;

/// File was truncated in place (an output).
pub const ACCESS_TRUNCATE: u32 = 4;

/// Written when a process executes a new program.
#[derive(Clone, Copy, Debug)]
pub struct ProcessExecEvent {
    pub event_type: u32,
    pub pid: u32,
    pub ppid: u32,
    pub comm: [u8; COMM_LEN],
}

/// Written when a process terminates.
#[derive(Clone, Copy, Debug)]
pub struct ProcessExitEvent {
    pub event_type: u32,
    pub pid: u32,
    /// The exit status; only meaningful when `code_observed != 0`.
    pub exit_code: i32,
    /// `1` when `exit_code` was captured, `0` when it could not be observed.
    pub code_observed: u32,
    pub comm: [u8; COMM_LEN],
}

/// Written when a process touches a file.
#[derive(Clone, Copy, Debug)]
pub struct FileAccessEvent {
    pub event_type: u32,
    pub pid: u32,
    /// One of the `ACCESS_*` constants.
    pub access: u32,
    pub comm: [u8; COMM_LEN],
    pub filename: [u8; PATH_LEN],
}

} // verus!
