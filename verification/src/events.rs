//! Decoding of raw ring-buffer bytes into typed, owned events.
//!
//! A record has the byte order of the host and the field order of the structs in
//! [`crate::common`], with no padding.

use vstd::prelude::*;
use vstd::slice::slice_subrange;
use vstd::utf8::{decode_utf8, valid_utf8};

use crate::common::{
    ACCESS_CREATE, ACCESS_DELETE, ACCESS_READ, ACCESS_TRUNCATE, ACCESS_WRITE, EVENT_FILE_ACCESS,
    EVENT_PROCESS_EXEC, EVENT_PROCESS_EXIT, FileAccessEvent, ProcessExecEvent, ProcessExitEvent,
};

verus! {

/// A decoded kernel event.
#[derive(Clone, Debug)]
pub enum Event {
    Exec(ExecEvent),
    Exit(ExitEvent),
    File(FileEvent),
}

/// A process executed a new program.
#[derive(Clone, Debug)]
pub struct ExecEvent {
    pub pid: u32,
    pub ppid: u32,
    pub comm: String,
}

/// A process terminated.
#[derive(Clone, Debug)]
pub struct ExitEvent {
    pub pid: u32,
    pub exit_code: Option<i32>,
    pub comm: String,
}

/// A process touched a file.
#[derive(Clone, Debug)]
pub struct FileEvent {
    pub pid: u32,
    pub access: Access,
    pub comm: String,
    pub path: String,
}

/// How a path was accessed.
#[derive(Clone, Copy, Debug, PartialEq, Eq, Structural)]
pub enum Access {
    Read,
    Write,
    Create,
    Delete,
    Truncate,
}

/// What an [`ExecEvent`] says.
pub struct ExecView {
    pub pid: u32,
    pub ppid: u32,
    pub comm: Seq<char>,
}

/// What an [`ExitEvent`] says.
pub struct ExitView {
    pub pid: u32,
    pub exit_code: Option<i32>,
    pub comm: Seq<char>,
}

/// What a [`FileEvent`] says.
pub struct FileView {
    pub pid: u32,
    pub access: Access,
    pub comm: Seq<char>,
    pub path: Seq<char>,
}

/// What an [`Event`] says.
pub enum EventView {
    Exec(ExecView),
    Exit(ExitView),
    File(FileView),
}

impl View for ExecEvent {
    type V = ExecView;

    open spec fn view(&self) -> ExecView {
        ExecView { pid: self.pid, ppid: self.ppid, comm: self.comm@ }
    }
}

impl View for ExitEvent {
    type V = ExitView;

    open spec fn view(&self) -> ExitView {
        ExitView { pid: self.pid, exit_code: self.exit_code, comm: self.comm@ }
    }
}

impl View for FileEvent {
    type V = FileView;

    open spec fn view(&self) -> FileView {
        FileView { pid: self.pid, access: self.access, comm: self.comm@, path: self.path@ }
    }
}

impl View for Event {
    type V = EventView;

    open spec fn view(&self) -> EventView {
        match *self {
            Event::Exec(e) => EventView::Exec(e@),
            Event::Exit(e) => EventView::Exit(e@),
            Event::File(e) => EventView::File(e@),
        }
    }
}

/// The access that a kernel `ACCESS_*` tag stands for.
pub open spec fn access_of(raw: u32) -> Option<Access> {
    if raw == ACCESS_READ {
        Some(Access::Read)
    } else if raw == ACCESS_WRITE {
        Some(Access::Write)
    } else if raw == ACCESS_CREATE {
        Some(Access::Create)
    } else if raw == ACCESS_DELETE {
        Some(Access::Delete)
    } else if raw == ACCESS_TRUNCATE {
        Some(Access::Truncate)
    } else {
        None
    }
}

impl Access {
    /// The access that a kernel `ACCESS_*` tag stands for.
    pub fn from_raw(raw: u32) -> (r: Option<Access>)
        ensures
            r == access_of(raw),
    {
        match raw {
            ACCESS_READ => Some(Access::Read),
            ACCESS_WRITE => Some(Access::Write),
            ACCESS_CREATE => Some(Access::Create),
            ACCESS_DELETE => Some(Access::Delete),
            ACCESS_TRUNCATE => Some(Access::Truncate),
            _ => None,
        }
    }
}

// ---------------------------------------------------------------------------
// Fields of a record
// ---------------------------------------------------------------------------

/// Bytes of an exec record: three words and `comm`.
pub const EXEC_SIZE: usize = 28;

/// Bytes of an exit record: four words and `comm`.
pub const EXIT_SIZE: usize = 32;

/// Bytes of a file-access record: three words, `comm` and the path.
pub const FILE_SIZE: usize = 284;

/// In which order the bytes of a word stand.
#[derive(Clone, Copy, Debug, PartialEq, Eq, Structural)]
pub enum ByteOrder {
    /// Least significant byte first.
    Little,
    /// Most significant byte first.
    Big,
}

/// The word at `at`.
pub open spec fn word(data: Seq<u8>, order: ByteOrder, at: int) -> u32 {
    match order {
        ByteOrder::Little => (data[at] + data[at + 1] * 0x100 + data[at + 2] * 0x1_0000 + data[at + 3]
            * 0x100_0000) as u32,
        ByteOrder::Big => (data[at + 3] + data[at + 2] * 0x100 + data[at + 1] * 0x1_0000 + data[at]
            * 0x100_0000) as u32,
    }
}

/// `u32::from_ne_bytes`: the word that these bytes make on this host, in one of the two
/// orders. Which order it is depends on the host.
#[verifier::external_body]
fn native_word(bytes: [u8; 4]) -> (w: u32)
    ensures
        w == word(bytes@, ByteOrder::Little, 0) || w == word(bytes@, ByteOrder::Big, 0),
{
    u32::from_ne_bytes(bytes)
}

impl ByteOrder {
    /// Whether this is the order of the host: the one in which the host reads the bytes
    /// 1, 0, 0, 0.
    pub closed spec fn is_native(self) -> bool {
        exists|bytes: [u8; 4], w: u32|
            #![trigger call_ensures(native_word, (bytes,), w)]
            {
                &&& bytes@ == seq![1u8, 0u8, 0u8, 0u8]
                &&& call_ensures(native_word, (bytes,), w)
                &&& w == word(bytes@, self, 0)
            }
    }

    /// The order of the host.
    pub fn native() -> (order: ByteOrder)
        ensures
            order.is_native(),
    {
        let bytes: [u8; 4] = [1, 0, 0, 0];
        let w = native_word(bytes);
        assert(bytes@ =~= seq![1u8, 0u8, 0u8, 0u8]);
        assert(call_ensures(native_word, (bytes,), w));
        if w == 1 {
            ByteOrder::Little
        } else {
            ByteOrder::Big
        }
    }
}

/// A word read as a two's-complement number.
pub open spec fn signed(w: u32) -> i32 {
    if w < 0x8000_0000 {
        w as i32
    } else {
        (w - 0x1_0000_0000) as i32
    }
}

/// The bytes before the first NUL, or all of them when there is none.
pub open spec fn until_nul(bytes: Seq<u8>) -> Seq<u8>
    decreases bytes.len(),
{
    if bytes.len() == 0 || bytes[0] == 0 {
        Seq::empty()
    } else {
        seq![bytes[0]] + until_nul(bytes.drop_first())
    }
}

/// `String::from_utf8_lossy`: the text of the bytes, with a replacement character
/// for each invalid sequence.
pub uninterp spec fn utf8_lossy(bytes: Seq<u8>) -> Seq<char>;

/// The text of some bytes: their decoding when they are valid UTF-8, and otherwise what
/// `String::from_utf8_lossy` makes of them.
pub open spec fn loose_text(bytes: Seq<u8>) -> Seq<char> {
    if valid_utf8(bytes) {
        decode_utf8(bytes)
    } else {
        utf8_lossy(bytes)
    }
}

/// The text of a NUL-terminated byte field.
pub open spec fn field_text(bytes: Seq<u8>) -> Seq<char> {
    loose_text(until_nul(bytes))
}

/// `String::from_utf8_lossy`: a text that depends on the bytes alone, and that is
/// their decoding when they are valid UTF-8. Which replacement characters stand
/// for invalid sequences is left to the name.
#[verifier::external_body]
pub(crate) fn lossy_text(bytes: &[u8]) -> (s: String)
    ensures
        s@ == utf8_lossy(bytes@),
        valid_utf8(bytes@) ==> s@ == decode_utf8(bytes@),
{
    String::from_utf8_lossy(bytes).into_owned()
}

fn read_word(data: &[u8], order: ByteOrder, at: usize) -> (w: u32)
    requires
        at + 4 <= data@.len(),
    ensures
        w == word(data@, order, at as int),
{
    let (a, b, c, d) = (data[at] as u32, data[at + 1] as u32, data[at + 2] as u32, data[at + 3] as u32);
    match order {
        ByteOrder::Little => a + b * 0x100 + c * 0x1_0000 + d * 0x100_0000,
        ByteOrder::Big => d + c * 0x100 + b * 0x1_0000 + a * 0x100_0000,
    }
}

fn read_signed(w: u32) -> (r: i32)
    ensures
        r == signed(w),
{
    if w < 0x8000_0000 {
        w as i32
    } else {
        (w as i64 - 0x1_0000_0000) as i32
    }
}

proof fn lemma_until_nul(bytes: Seq<u8>, n: int)
    requires
        0 <= n <= bytes.len(),
        forall|j: int| 0 <= j < n ==> bytes[j] != 0,
        n < bytes.len() ==> bytes[n] == 0,
    ensures
        until_nul(bytes) == bytes.take(n),
    decreases n,
{
    if n == 0 {
        assert(bytes.take(0) =~= Seq::<u8>::empty());
    } else {
        let t = bytes.drop_first();
        assert(bytes[0] != 0);
        assert forall|j: int| 0 <= j < n - 1 implies t[j] != 0 by {
            assert(t[j] == bytes[j + 1]);
        }
        lemma_until_nul(t, n - 1);
        assert(seq![bytes[0]] + t.take(n - 1) =~= bytes.take(n));
    }
}

/// Convert a NUL-terminated kernel byte field into an owned `String`.
pub fn cstr(bytes: &[u8]) -> (s: String)
    ensures
        s@ == field_text(bytes@),
        valid_utf8(until_nul(bytes@)) ==> s@ == decode_utf8(until_nul(bytes@)),
{
    let mut n: usize = 0;
    while n < bytes.len() && bytes[n] != 0
        invariant
            n <= bytes@.len(),
            forall|j: int| 0 <= j < n ==> bytes@[j] != 0,
        decreases bytes@.len() - n,
    {
        n += 1;
    }
    proof {
        lemma_until_nul(bytes@, n as int);
    }
    assert(bytes@.subrange(0, n as int) =~= bytes@.take(n as int));
    lossy_text(slice_subrange(bytes, 0, n))
}

// ---------------------------------------------------------------------------
// Decoding
// ---------------------------------------------------------------------------

/// The exec event in a record, if the record is long enough.
pub open spec fn exec_of(data: Seq<u8>, order: ByteOrder) -> Option<EventView> {
    if data.len() < EXEC_SIZE {
        None
    } else {
        Some(EventView::Exec(ExecView {
            pid: word(data, order, 4),
            ppid: word(data, order, 8),
            comm: field_text(data.subrange(12, 28)),
        }))
    }
}

/// The exit event in a record, if the record is long enough. A code that was not
/// observed is absent.
pub open spec fn exit_of(data: Seq<u8>, order: ByteOrder) -> Option<EventView> {
    if data.len() < EXIT_SIZE {
        None
    } else {
        Some(EventView::Exit(ExitView {
            pid: word(data, order, 4),
            exit_code: if word(data, order, 12) != 0 { Some(signed(word(data, order, 8))) } else { None },
            comm: field_text(data.subrange(16, 32)),
        }))
    }
}

/// The file event in a record, if the record is long enough and its access known.
pub open spec fn file_of(data: Seq<u8>, order: ByteOrder) -> Option<EventView> {
    if data.len() < FILE_SIZE {
        None
    } else {
        match access_of(word(data, order, 8)) {
            Some(access) => Some(EventView::File(FileView {
                pid: word(data, order, 4),
                access,
                comm: field_text(data.subrange(12, 28)),
                path: field_text(data.subrange(28, 284)),
            })),
            None => None,
        }
    }
}

/// The event that a ring-buffer record holds, written in this byte order.
pub open spec fn decoded(data: Seq<u8>, order: ByteOrder) -> Option<EventView> {
    if data.len() < 4 {
        None
    } else if word(data, order, 0) == EVENT_PROCESS_EXEC {
        exec_of(data, order)
    } else if word(data, order, 0) == EVENT_PROCESS_EXIT {
        exit_of(data, order)
    } else if word(data, order, 0) == EVENT_FILE_ACCESS {
        file_of(data, order)
    } else {
        None
    }
}

/// What an optional event says.
pub open spec fn opt_event(e: Option<Event>) -> Option<EventView> {
    match e {
        Some(e) => Some(e@),
        None => None,
    }
}

/// Decode one ring-buffer record, written in the byte order of the host. Returns `None` for
/// short or unknown records.
pub fn decode(data: &[u8]) -> (r: Option<Event>)
    ensures
        exists|order: ByteOrder| #[trigger] order.is_native() && opt_event(r) == decoded(data@, order),
{
    decode_in(data, ByteOrder::native())
}

/// Decode one ring-buffer record, written in the given byte order.
pub fn decode_in(data: &[u8], order: ByteOrder) -> (r: Option<Event>)
    ensures
        opt_event(r) == decoded(data@, order),
{
    if data.len() < 4 {
        return None;
    }
    match read_word(data, order, 0) {
        EVENT_PROCESS_EXEC => decode_exec(data, order),
        EVENT_PROCESS_EXIT => decode_exit(data, order),
        EVENT_FILE_ACCESS => decode_file(data, order),
        _ => None,
    }
}

fn decode_exec(data: &[u8], order: ByteOrder) -> (r: Option<Event>)
    ensures
        opt_event(r) == exec_of(data@, order),
{
    if data.len() < EXEC_SIZE {
        return None;
    }
    Some(Event::Exec(ExecEvent {
        pid: read_word(data, order, 4),
        ppid: read_word(data, order, 8),
        comm: cstr(slice_subrange(data, 12, 28)),
    }))
}

fn decode_exit(data: &[u8], order: ByteOrder) -> (r: Option<Event>)
    ensures
        opt_event(r) == exit_of(data@, order),
{
    if data.len() < EXIT_SIZE {
        return None;
    }
    Some(Event::Exit(ExitEvent {
        pid: read_word(data, order, 4),
        exit_code: if read_word(data, order, 12) != 0 {
            Some(read_signed(read_word(data, order, 8)))
        } else {
            None
        },
        comm: cstr(slice_subrange(data, 16, 32)),
    }))
}

fn decode_file(data: &[u8], order: ByteOrder) -> (r: Option<Event>)
    ensures
        opt_event(r) == file_of(data@, order),
{
    if data.len() < FILE_SIZE {
        return None;
    }
    match Access::from_raw(read_word(data, order, 8)) {
        Some(access) => Some(Event::File(FileEvent {
            pid: read_word(data, order, 4),
            access,
            comm: cstr(slice_subrange(data, 12, 28)),
            path: cstr(slice_subrange(data, 28, 284)),
        })),
        None => None,
    }
}

// ---------------------------------------------------------------------------
// What the kernel writes, the agent reads
// ---------------------------------------------------------------------------

/// The four bytes of a word.
pub open spec fn word_bytes(w: u32, order: ByteOrder) -> Seq<u8> {
    let little = seq![
        (w % 0x100) as u8,
        (w / 0x100 % 0x100) as u8,
        (w / 0x1_0000 % 0x100) as u8,
        (w / 0x100_0000) as u8,
    ];
    match order {
        ByteOrder::Little => little,
        ByteOrder::Big => little.reverse(),
    }
}

/// A two's-complement number as a word.
pub open spec fn unsigned(x: i32) -> u32 {
    if x >= 0 {
        x as u32
    } else {
        (x + 0x1_0000_0000) as u32
    }
}

/// The bytes of an exec record as it lies on the ring buffer.
pub open spec fn exec_bytes(e: ProcessExecEvent, order: ByteOrder) -> Seq<u8> {
    word_bytes(e.event_type, order) + word_bytes(e.pid, order) + word_bytes(e.ppid, order) + e.comm@
}

/// The bytes of an exit record as it lies on the ring buffer.
pub open spec fn exit_bytes(e: ProcessExitEvent, order: ByteOrder) -> Seq<u8> {
    word_bytes(e.event_type, order) + word_bytes(e.pid, order) + word_bytes(unsigned(e.exit_code), order) + word_bytes(
        e.code_observed,
        order,
    ) + e.comm@
}

/// The bytes of a file-access record as it lies on the ring buffer.
pub open spec fn file_bytes(e: FileAccessEvent, order: ByteOrder) -> Seq<u8> {
    word_bytes(e.event_type, order) + word_bytes(e.pid, order) + word_bytes(e.access, order) + e.comm@ + e.filename@
}

proof fn lemma_word_back(data: Seq<u8>, order: ByteOrder, at: int, w: u32)
    requires
        0 <= at,
        at + 4 <= data.len(),
        data.subrange(at, at + 4) == word_bytes(w, order),
    ensures
        word(data, order, at) == w,
{
    let s = data.subrange(at, at + 4);
    assert(data[at] == s[0] && data[at + 1] == s[1] && data[at + 2] == s[2] && data[at + 3] == s[3]);
    assert(w == (w % 0x100) + (w / 0x100 % 0x100) * 0x100 + (w / 0x1_0000 % 0x100) * 0x1_0000 + (w
        / 0x100_0000) * 0x100_0000);
}

/// The first three words of a record, and what follows them.
proof fn lemma_header(data: Seq<u8>, order: ByteOrder, a: u32, b: u32, c: u32, tail: Seq<u8>)
    requires
        data == word_bytes(a, order) + word_bytes(b, order) + word_bytes(c, order) + tail,
    ensures
        data.len() == 12 + tail.len(),
        word(data, order, 0) == a,
        word(data, order, 4) == b,
        word(data, order, 8) == c,
        data.skip(12) == tail,
{
    let (x, y, z) = (word_bytes(a, order), word_bytes(b, order), word_bytes(c, order));
    assert(x.len() == 4 && y.len() == 4 && z.len() == 4);
    lemma_parts(data, x, y, z, tail);
    lemma_word_back(data, order, 0, a);
    lemma_word_back(data, order, 4, b);
    lemma_word_back(data, order, 8, c);
}

proof fn lemma_parts(data: Seq<u8>, x: Seq<u8>, y: Seq<u8>, z: Seq<u8>, tail: Seq<u8>)
    requires
        data == x + y + z + tail,
        x.len() == 4,
        y.len() == 4,
        z.len() == 4,
    ensures
        data.len() == 12 + tail.len(),
        data.subrange(0, 4) == x,
        data.subrange(4, 8) == y,
        data.subrange(8, 12) == z,
        data.skip(12) == tail,
{
    assert(data.subrange(0, 4) =~= x);
    assert(data.subrange(4, 8) =~= y);
    assert(data.subrange(8, 12) =~= z);
    assert(data.skip(12) =~= tail);
}

proof fn lemma_fourth_word(data: Seq<u8>, order: ByteOrder, w: u32, tail: Seq<u8>)
    requires
        data.len() == 16 + tail.len(),
        data.skip(12) == word_bytes(w, order) + tail,
    ensures
        word(data, order, 12) == w,
        data.skip(16) == tail,
{
    let s = data.skip(12);
    let x = word_bytes(w, order);
    assert(x.len() == 4);
    assert(s.subrange(0, 4) =~= x);
    assert(data.subrange(12, 16) =~= s.subrange(0, 4));
    assert(data.skip(16) =~= s.skip(4));
    assert(s.skip(4) =~= tail);
    lemma_word_back(data, order, 12, w);
}

/// Reading an exec record in the byte order that it was written in gives back the process,
/// its parent and its name, whatever follows it in the buffer.
pub proof fn decoding_an_exec_record_gives_it_back(e: ProcessExecEvent, order: ByteOrder, rest: Seq<u8>)
    requires
        e.event_type == EVENT_PROCESS_EXEC,
    ensures
        decoded(exec_bytes(e, order) + rest, order) == Some(
            EventView::Exec(ExecView { pid: e.pid, ppid: e.ppid, comm: field_text(e.comm@) }),
        ),
{
    let d = exec_bytes(e, order) + rest;
    let tail = e.comm@ + rest;
    assert(d =~= word_bytes(e.event_type, order) + word_bytes(e.pid, order) + word_bytes(e.ppid, order) + tail);
    lemma_header(d, order, e.event_type, e.pid, e.ppid, tail);
    assert(d.subrange(12, 28) =~= d.skip(12).take(16));
    assert(tail.take(16) =~= e.comm@);
}

/// Reading an exit record gives back the process and its name, and the exit code
/// exactly when it was observed: an unobserved code is never read as 0.
pub proof fn decoding_an_exit_record_gives_it_back(e: ProcessExitEvent, order: ByteOrder, rest: Seq<u8>)
    requires
        e.event_type == EVENT_PROCESS_EXIT,
    ensures
        decoded(exit_bytes(e, order) + rest, order) == Some(
            EventView::Exit(ExitView {
                pid: e.pid,
                exit_code: if e.code_observed != 0 { Some(e.exit_code) } else { None },
                comm: field_text(e.comm@),
            }),
        ),
{
    let d = exit_bytes(e, order) + rest;
    let name = e.comm@ + rest;
    let tail = word_bytes(e.code_observed, order) + name;
    assert(d =~= word_bytes(e.event_type, order) + word_bytes(e.pid, order) + word_bytes(
        unsigned(e.exit_code),
        order,
    ) + tail);
    lemma_header(d, order, e.event_type, e.pid, unsigned(e.exit_code), tail);
    lemma_fourth_word(d, order, e.code_observed, name);
    assert(d.subrange(16, 32) =~= d.skip(16).take(16));
    assert(name.take(16) =~= e.comm@);
}

/// Reading a file-access record with a known access gives back the process, the
/// access, its name and the path.
pub proof fn decoding_a_file_record_gives_it_back(e: FileAccessEvent, order: ByteOrder, rest: Seq<u8>)
    requires
        e.event_type == EVENT_FILE_ACCESS,
        access_of(e.access) is Some,
    ensures
        decoded(file_bytes(e, order) + rest, order) == Some(
            EventView::File(FileView {
                pid: e.pid,
                access: access_of(e.access)->0,
                comm: field_text(e.comm@),
                path: field_text(e.filename@),
            }),
        ),
{
    let d = file_bytes(e, order) + rest;
    let tail = e.comm@ + e.filename@ + rest;
    assert(d =~= word_bytes(e.event_type, order) + word_bytes(e.pid, order) + word_bytes(e.access, order) + tail);
    lemma_header(d, order, e.event_type, e.pid, e.access, tail);
    assert(d.subrange(12, 28) =~= d.skip(12).subrange(0, 16));
    assert(d.subrange(28, 284) =~= d.skip(12).subrange(16, 272));
    assert(tail.subrange(0, 16) =~= e.comm@);
    assert(tail.subrange(16, 272) =~= e.filename@);
}

/// A record shorter than its kind asks for holds no event.
pub proof fn a_short_record_holds_no_event(data: Seq<u8>, order: ByteOrder)
    requires
        data.len() < EXEC_SIZE,
    ensures
        decoded(data, order) is None,
{
}

/// What the access tags stand for: 0 is a read, 1 a write, 2 a creation, 3 a deletion, 4 a
/// truncation, and no other tag stands for anything.
pub proof fn an_access_is_told_by_its_tag(raw: u32)
    ensures
        access_of(raw) == Some(Access::Read) <==> raw == 0,
        access_of(raw) == Some(Access::Write) <==> raw == 1,
        access_of(raw) == Some(Access::Create) <==> raw == 2,
        access_of(raw) == Some(Access::Delete) <==> raw == 3,
        access_of(raw) == Some(Access::Truncate) <==> raw == 4,
        access_of(raw) is None <==> raw > 4,
{
}

/// The first word of a record tells what it holds: 1 an exec, 2 an exit, 3 a file access.
/// Exactly the records that are long enough for what they tell, and whose access is known,
/// hold an event.
pub proof fn the_first_word_tells_the_event(data: Seq<u8>, order: ByteOrder)
    ensures
        decoded(data, order) matches Some(EventView::Exec(_)) <==> data.len() >= 28 && word(data, order, 0) == 1,
        decoded(data, order) matches Some(EventView::Exit(_)) <==> data.len() >= 32 && word(data, order, 0) == 2,
        decoded(data, order) matches Some(EventView::File(_)) <==> data.len() >= 284 && word(data, order, 0) == 3
            && word(data, order, 8) <= 4,
{
}

/// A text field ends at its first NUL byte, or fills the field when there is none.
pub proof fn a_field_ends_at_its_first_nul(bytes: Seq<u8>, n: int)
    requires
        0 <= n <= bytes.len(),
        forall|j: int| 0 <= j < n ==> bytes[j] != 0,
        n < bytes.len() ==> bytes[n] == 0,
    ensures
        valid_utf8(bytes.take(n)) ==> field_text(bytes) == decode_utf8(bytes.take(n)),
        !valid_utf8(bytes.take(n)) ==> field_text(bytes) == utf8_lossy(bytes.take(n)),
{
    lemma_until_nul(bytes, n);
}

/// The bytes of a word stand in their order: counted from the less significant end, each
/// weighs 256 times as much as the one before it.
pub proof fn a_word_is_the_sum_of_its_bytes(data: Seq<u8>, at: int)
    ensures
        word(data, ByteOrder::Little, at) == data[at] + 256 * (data[at + 1] + 256 * (data[at + 2] + 256 * data[at
            + 3])),
        word(data, ByteOrder::Big, at) == data[at + 3] + 256 * (data[at + 2] + 256 * (data[at + 1] + 256 * data[at])),
{
}

} // verus!
