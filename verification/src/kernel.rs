//! What the kernel-side handlers compute between reading a tracepoint and writing
//! a record on the ring buffer.

use vstd::prelude::*;

use crate::common::{
    ACCESS_CREATE, ACCESS_READ, ACCESS_WRITE, COMM_LEN, EVENT_FILE_ACCESS, EVENT_PROCESS_EXEC,
    EVENT_PROCESS_EXIT, ProcessExecEvent, ProcessExitEvent,
};
use crate::events::{access_of, Access};

verus! {

/// `open` flag: write only.
pub const O_WRONLY: u64 = 1;

/// `open` flag: read and write.
pub const O_RDWR: u64 = 2;

/// `open` flag: create the file when it does not exist.
pub const O_CREAT: u64 = 0o100;

/// The access that opening a file with `flags` is: creation before writing
/// before reading.
pub open spec fn open_access(flags: u64) -> u32 {
    if flags & O_CREAT != 0 {
        ACCESS_CREATE
    } else if flags & 3 != 0 {
        ACCESS_WRITE
    } else {
        ACCESS_READ
    }
}

/// The access that opening a file with `flags` is.
pub fn classify_open(flags: u64) -> (r: u32)
    ensures
        r == open_access(flags),
{
    assert(O_WRONLY | O_RDWR == 3) by (bit_vector);
    if flags & O_CREAT != 0 {
        ACCESS_CREATE
    } else if flags & (O_WRONLY | O_RDWR) != 0 {
        ACCESS_WRITE
    } else {
        ACCESS_READ
    }
}

/// The thread id and the process id of the kernel's combined number: the low and
/// the high half.
pub fn split_pid_tgid(pid_tgid: u64) -> (r: (u32, u32))
    ensures
        r.0 == pid_tgid % 0x1_0000_0000,
        r.1 == pid_tgid / 0x1_0000_0000,
{
    ((pid_tgid % 0x1_0000_0000) as u32, (pid_tgid / 0x1_0000_0000) as u32)
}

/// The exit code in the status that a process passes to `exit_group`: its low byte.
pub fn exit_status(raw: u64) -> (code: i32)
    ensures
        code == raw % 256,
{
    (raw % 256) as i32
}

/// The record of an exec, with parent 0 when the parent is not known; none for the
/// idle process.
pub fn exec_record(pid: u32, parent: Option<u32>, comm: [u8; COMM_LEN]) -> (r: Option<ProcessExecEvent>)
    ensures
        r is Some <==> pid != 0,
        r matches Some(e) ==> e == (ProcessExecEvent {
            event_type: EVENT_PROCESS_EXEC,
            pid,
            ppid: match parent {
                Some(p) => p,
                None => 0,
            },
            comm,
        }),
{
    if pid == 0 {
        return None;
    }
    let ppid: u32 = match parent {
        Some(p) => p,
        None => 0,
    };
    Some(ProcessExecEvent { event_type: EVENT_PROCESS_EXEC, pid, ppid, comm })
}

/// The record of an exit: the code that was captured, or the mark that none was,
/// and an empty name when the name could not be read; none for the idle process.
pub fn exit_record(pid: u32, code: Option<i32>, comm: Option<[u8; COMM_LEN]>) -> (r: Option<ProcessExitEvent>)
    ensures
        r is Some <==> pid != 0,
        r matches Some(e) ==> {
            &&& e.event_type == EVENT_PROCESS_EXIT
            &&& e.pid == pid
            &&& (code matches Some(c) ==> e.exit_code == c && e.code_observed == 1)
            &&& (code is None ==> e.exit_code == 0 && e.code_observed == 0)
            &&& (comm matches Some(c) ==> e.comm == c)
            &&& (comm is None ==> e.comm@ == Seq::new(COMM_LEN as nat, |i: int| 0u8))
        },
{
    if pid == 0 {
        return None;
    }
    let (exit_code, code_observed): (i32, u32) = match code {
        Some(c) => (c, 1),
        None => (0, 0),
    };
    let name: [u8; COMM_LEN] = match comm {
        Some(c) => c,
        None => [0u8; 16],
    };
    assert(comm is None ==> name@ =~= Seq::new(COMM_LEN as nat, |i: int| 0u8));
    Some(ProcessExitEvent { event_type: EVENT_PROCESS_EXIT, pid, exit_code, code_observed, comm: name })
}

/// What stands before the path in the record of a file access.
#[derive(Clone, Copy, Debug)]
pub struct FileHeader {
    pub event_type: u32,
    pub pid: u32,
    pub access: u32,
    pub comm: [u8; COMM_LEN],
}

/// What stands before the path in the record of a file access; none for the idle process.
pub fn file_header(pid: u32, access: u32, comm: [u8; COMM_LEN]) -> (r: Option<FileHeader>)
    ensures
        r is Some <==> pid != 0,
        r matches Some(h) ==> h == (FileHeader { event_type: EVENT_FILE_ACCESS, pid, access, comm }),
{
    if pid == 0 {
        return None;
    }
    Some(FileHeader { event_type: EVENT_FILE_ACCESS, pid, access, comm })
}

/// Every way of opening a file is an access that the agent knows: a creation, a
/// write or a read.
pub proof fn opening_is_a_known_access(flags: u64)
    ensures
        access_of(open_access(flags)) == Some(
            if flags & O_CREAT != 0 {
                Access::Create
            } else if flags & 3 != 0 {
                Access::Write
            } else {
                Access::Read
            },
        ),
{
}

/// How a file is opened is told by two of its flags: the creation flag (64) makes it a
/// creation, else either of the two write flags (1 and 2) makes it a write, else it is a
/// read.
pub proof fn the_flags_tell_how_a_file_is_opened(flags: u64)
    ensures
        open_access(flags) == 2 <==> flags / 64 % 2 == 1,
        open_access(flags) == 1 <==> flags / 64 % 2 == 0 && flags % 4 != 0,
        open_access(flags) == 0 <==> flags / 64 % 2 == 0 && flags % 4 == 0,
{
    assert(flags & 0o100 != 0 <==> flags / 64 % 2 == 1) by (bit_vector);
    assert(flags & 3 != 0 <==> flags % 4 != 0) by (bit_vector);
}

/// An exit record carries a code exactly when one was captured: it is never made up.
pub proof fn an_exit_code_is_never_made_up(
    pid: u32,
    code: Option<i32>,
    comm: Option<[u8; COMM_LEN]>,
    r: Option<ProcessExitEvent>,
)
    requires
        call_ensures(exit_record, (pid, code, comm), r),
    ensures
        r is Some <==> pid != 0,
        r matches Some(e) ==> e.event_type == 2 && e.pid == pid && (e.code_observed != 0 <==> code is Some) && (
        code is Some ==> e.exit_code == code->0),
{
}

/// An exec record tells the process, its parent (0 when that is not known) and its name; the
/// idle process gets none.
pub proof fn an_exec_record_tells_the_parent(
    pid: u32,
    parent: Option<u32>,
    comm: [u8; COMM_LEN],
    r: Option<ProcessExecEvent>,
)
    requires
        call_ensures(exec_record, (pid, parent, comm), r),
    ensures
        r is Some <==> pid != 0,
        r matches Some(e) ==> e.event_type == 1 && e.pid == pid && e.comm == comm && (parent is Some ==> e.ppid
            == parent->0) && (parent is None ==> e.ppid == 0),
{
}

} // verus!
