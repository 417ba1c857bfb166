//! Observation: process-tree reconstruction and per-operation accumulation.
//!
//! An operation is the process subtree rooted at one whitelisted command
//! invocation; it produces exactly one execution record. The tree consumes decoded
//! [`crate::events::Event`]s and, when an operation's root is first identified,
//! captures its command line and working directory through a [`ProcSource`].

use std::collections::{BTreeMap, BTreeSet, HashMap};

use vstd::prelude::*;
use vstd::string::*;
use vstd::utf8::encode_utf8;

use crate::common::COMM_LEN;
use crate::events::{Access, ExecEvent, ExecView, ExitEvent, ExitView, FileEvent, FileView};
use crate::order::{ascending, ascending_lists_are_determined_by_members};
use crate::runrecord::RunRecordType;
use crate::scope::{in_scope, scoped, starts_absolute};
use crate::strmap::StrMap;
use crate::text::{clone_opt, contains_text, decimal, decimal_text, holds, opt_text, same_text, texts};
use crate::time::Timestamp;

verus! {

// ---------------------------------------------------------------------------
// Process metadata
// ---------------------------------------------------------------------------

/// Reads process metadata that only the live process exposes.
pub trait ProcSource {
    /// Full argv joined with spaces, from `/proc/<pid>/cmdline`.
    fn cmdline(&self, pid: u32) -> Option<String>;

    /// Absolute working directory, from `/proc/<pid>/cwd`.
    fn cwd(&self, pid: u32) -> Option<String>;
}

/// What is captured about a process when it becomes the root of an operation.
pub struct RootCapture {
    pub at: Timestamp,
    pub command: Option<String>,
    pub working_directory: Option<String>,
}

/// Whether `c` is what the clock gave for the instant, and `proc` for the command and
/// directory of `pid`.
pub open spec fn captured_from<P: ProcSource>(proc: &P, pid: u32, c: RootCapture) -> bool {
    &&& c.at.is_reading()
    &&& call_ensures(P::cmdline, (proc, pid), c.command)
    &&& call_ensures(P::cwd, (proc, pid), c.working_directory)
}

fn capture_root<P: ProcSource>(proc: &P, pid: u32) -> (c: RootCapture)
    ensures
        captured_from(proc, pid, c),
{
    let at = Timestamp::now();
    let command = proc.cmdline(pid);
    let working_directory = proc.cwd(pid);
    RootCapture { at, command, working_directory }
}

// ---------------------------------------------------------------------------
// The whitelist
// ---------------------------------------------------------------------------

/// One whitelist entry: a command prefix to match and an optional `type` tag.
#[derive(Clone, Debug)]
pub struct WhitelistEntry {
    pub pattern: String,
    pub type_tag: Option<RunRecordType>,
}

/// What a [`WhitelistEntry`] says.
pub struct EntryView {
    pub pattern: Seq<char>,
    pub type_tag: Option<RunRecordType>,
}

impl View for WhitelistEntry {
    type V = EntryView;

    open spec fn view(&self) -> EntryView {
        EntryView { pattern: self.pattern@, type_tag: self.type_tag }
    }
}

/// What a whitelist says.
pub open spec fn entries(w: Seq<WhitelistEntry>) -> Seq<EntryView> {
    w.map_values(|e: WhitelistEntry| e@)
}

impl WhitelistEntry {
    /// An entry for `pattern`.
    pub fn new(pattern: &str, type_tag: Option<RunRecordType>) -> (e: Self)
        ensures
            e@ == (EntryView { pattern: pattern@, type_tag }),
    {
        WhitelistEntry { pattern: pattern.to_owned(), type_tag }
    }
}

/// At most the first [`COMM_LEN`] bytes.
pub open spec fn capped(bytes: Seq<u8>) -> Seq<u8> {
    if bytes.len() <= COMM_LEN {
        bytes
    } else {
        bytes.take(COMM_LEN as int)
    }
}

/// Whether the kernel name `comm` is the pattern, cut to the length that the
/// kernel keeps.
pub open spec fn comm_matches(comm: Seq<char>, pattern: Seq<char>) -> bool {
    encode_utf8(comm) == capped(encode_utf8(pattern))
}

/// The first entry that matches `comm`.
pub open spec fn first_match(w: Seq<EntryView>, comm: Seq<char>) -> Option<EntryView>
    decreases w.len(),
{
    if w.len() == 0 {
        None
    } else if comm_matches(comm, w[0].pattern) {
        Some(w[0])
    } else {
        first_match(w.drop_first(), comm)
    }
}

fn matches_comm(comm: &str, pattern: &str) -> (r: bool)
    ensures
        r == comm_matches(comm@, pattern@),
{
    let c = comm.as_bytes();
    let p = pattern.as_bytes();
    let n: usize = if p.len() <= COMM_LEN {
        p.len()
    } else {
        COMM_LEN
    };
    if c.len() != n {
        return false;
    }
    let mut i: usize = 0;
    while i < n
        invariant
            i <= n,
            n == c@.len(),
            n <= p@.len(),
            n == capped(p@).len(),
            forall|j: int| 0 <= j < i ==> c@[j] == p@[j],
            c@ == encode_utf8(comm@),
            p@ == encode_utf8(pattern@),
        decreases n - i,
    {
        if c[i] != p[i] {
            assert(capped(p@)[i as int] == p@[i as int]);
            return false;
        }
        i += 1;
    }
    assert(c@ =~= capped(p@));
    true
}

// ---------------------------------------------------------------------------
// Operations
// ---------------------------------------------------------------------------

/// Per-path accumulated access state within an operation.
#[derive(Clone, Copy, Debug, PartialEq, Eq, Structural)]
pub struct PathState {
    pub read: bool,
    pub wrote: bool,
    pub deleted: bool,
}

impl PathState {
    /// The state of a path that was never accessed.
    pub open spec fn untouched() -> PathState {
        PathState { read: false, wrote: false, deleted: false }
    }

    /// The state after one more access.
    pub open spec fn after(self, access: Access) -> PathState {
        match access {
            Access::Read => PathState { read: true, ..self },
            Access::Write | Access::Create | Access::Truncate => PathState {
                wrote: true,
                deleted: false,
                ..self
            },
            Access::Delete => PathState { deleted: true, ..self },
        }
    }

    /// Read, never written, not deleted.
    pub open spec fn is_input(self) -> bool {
        self.read && !self.wrote && !self.deleted
    }

    /// Written or created, and not finally deleted.
    pub open spec fn is_output(self) -> bool {
        self.wrote && !self.deleted
    }

    fn touch(self, access: Access) -> (r: PathState)
        ensures
            r == self.after(access),
    {
        match access {
            Access::Read => PathState { read: true, wrote: self.wrote, deleted: self.deleted },
            Access::Write | Access::Create | Access::Truncate => PathState {
                read: self.read,
                wrote: true,
                deleted: false,
            },
            Access::Delete => PathState { read: self.read, wrote: self.wrote, deleted: true },
        }
    }
}

/// The name of an access in a sample line.
pub open spec fn access_name(a: Access) -> Seq<char> {
    match a {
        Access::Read => "Read"@,
        Access::Write => "Write"@,
        Access::Create => "Create"@,
        Access::Delete => "Delete"@,
        Access::Truncate => "Truncate"@,
    }
}

fn access_text(a: Access) -> (s: &'static str)
    ensures
        s@ == access_name(a),
{
    match a {
        Access::Read => "Read",
        Access::Write => "Write",
        Access::Create => "Create",
        Access::Delete => "Delete",
        Access::Truncate => "Truncate",
    }
}

/// A finalized (or in-progress) operation: everything observed for one whitelisted
/// root and its descendants.
#[derive(Clone, Debug)]
pub struct Operation {
    pub root_pid: u32,
    pub root_comm: String,
    /// `type` from the matched whitelist entry; `None` falls back to the adapter
    /// hint or the heuristic at assembly.
    pub whitelist_type: Option<RunRecordType>,
    pub command: Option<String>,
    pub working_directory: Option<String>,
    pub exit_code: Option<i32>,
    pub start_time: Timestamp,
    pub end_time: Option<Timestamp>,
    /// The processes that belong to the operation.
    pub pids: BTreeSet<u32>,
    /// The state of every path that the operation accessed.
    pub paths: StrMap<PathState>,
    /// Accesses recorded so far.
    pub dbg_recorded: u64,
    /// Accesses recorded with a relative path.
    pub dbg_relative: u64,
    /// The first few accesses, for the log.
    pub dbg_samples: Vec<String>,
}

/// What an [`Operation`] says.
#[verifier::ext_equal]
pub struct OperationView {
    pub root_pid: u32,
    pub root_comm: Seq<char>,
    pub whitelist_type: Option<RunRecordType>,
    pub command: Option<Seq<char>>,
    pub working_directory: Option<Seq<char>>,
    pub exit_code: Option<i32>,
    pub start_time: Timestamp,
    pub end_time: Option<Timestamp>,
    pub pids: Set<u32>,
    pub paths: Map<Seq<char>, PathState>,
    pub dbg_recorded: u64,
    pub dbg_relative: u64,
    pub dbg_samples: Seq<Seq<char>>,
}

/// Accesses that are sampled per operation.
pub const OPERATION_SAMPLES: usize = 12;

impl View for Operation {
    type V = OperationView;

    open spec fn view(&self) -> OperationView {
        OperationView {
            root_pid: self.root_pid,
            root_comm: self.root_comm@,
            whitelist_type: self.whitelist_type,
            command: opt_text(self.command),
            working_directory: opt_text(self.working_directory),
            exit_code: self.exit_code,
            start_time: self.start_time,
            end_time: self.end_time,
            pids: self.pids@,
            paths: self.paths@,
            dbg_recorded: self.dbg_recorded,
            dbg_relative: self.dbg_relative,
            dbg_samples: texts(self.dbg_samples@),
        }
    }
}

impl OperationView {
    /// A fresh operation rooted at `pid`.
    pub open spec fn fresh(
        pid: u32,
        comm: Seq<char>,
        tag: Option<RunRecordType>,
        command: Option<Seq<char>>,
        working_directory: Option<Seq<char>>,
        at: Timestamp,
    ) -> OperationView {
        OperationView {
            root_pid: pid,
            root_comm: comm,
            whitelist_type: tag,
            command,
            working_directory,
            exit_code: None,
            start_time: at,
            end_time: None,
            pids: Set::empty().insert(pid),
            paths: Map::empty(),
            dbg_recorded: 0,
            dbg_relative: 0,
            dbg_samples: Seq::empty(),
        }
    }

    /// The state of a path in this operation.
    pub open spec fn state(self, path: Seq<char>) -> PathState {
        if self.paths.contains_key(path) {
            self.paths[path]
        } else {
            PathState::untouched()
        }
    }

    /// The operation after one more access.
    pub open spec fn recorded(self, path: Seq<char>, access: Access) -> OperationView {
        OperationView {
            paths: self.paths.insert(path, self.state(path).after(access)),
            dbg_recorded: (self.dbg_recorded + 1) as u64,
            dbg_relative: if path.len() > 0 && path[0] == '/' {
                self.dbg_relative
            } else {
                (self.dbg_relative + 1) as u64
            },
            dbg_samples: if self.dbg_samples.len() < OPERATION_SAMPLES {
                self.dbg_samples.push(access_name(access) + ":"@ + path)
            } else {
                self.dbg_samples
            },
            ..self
        }
    }

    /// The directory that bounds the operation's scope.
    pub open spec fn scope_root(self) -> Seq<char> {
        match self.working_directory {
            Some(wd) => wd,
            None => Seq::empty(),
        }
    }

    /// Whether `path` is one of the operation's inputs.
    pub open spec fn has_input(self, path: Seq<char>) -> bool {
        &&& self.paths.contains_key(path)
        &&& self.paths[path].is_input()
        &&& scoped(path, self.scope_root())
    }

    /// Whether `path` is one of the operation's outputs.
    pub open spec fn has_output(self, path: Seq<char>) -> bool {
        &&& self.paths.contains_key(path)
        &&& self.paths[path].is_output()
        &&& scoped(path, self.scope_root())
    }

    /// The operation's inputs, in ascending order.
    pub open spec fn input_paths(self) -> Seq<Seq<char>> {
        choose|s: Seq<Seq<char>>| ascending(s) && (forall|p: Seq<char>| s.contains(p) <==> self.has_input(p))
    }

    /// The operation's outputs, in ascending order.
    pub open spec fn output_paths(self) -> Seq<Seq<char>> {
        choose|s: Seq<Seq<char>>| ascending(s) && (forall|p: Seq<char>| s.contains(p) <==> self.has_output(p))
    }

    /// The operation with the process as a member.
    pub open spec fn joined(self, pid: u32) -> OperationView {
        OperationView { pids: self.pids.insert(pid), ..self }
    }

    /// The operation at its boundary.
    pub open spec fn ended(self, exit_code: Option<i32>, at: Timestamp) -> OperationView {
        OperationView { exit_code, end_time: Some(at), ..self }
    }

    /// The operation with what was not captured before.
    pub open spec fn filled(self, command: Option<Seq<char>>, wd: Option<Seq<char>>) -> OperationView {
        OperationView {
            command: if self.command is None { command } else { self.command },
            working_directory: if self.working_directory is None { wd } else { self.working_directory },
            ..self
        }
    }
}

impl Operation {
    /// A fresh operation rooted at `root_pid`, with what was captured of its root.
    pub fn new(root_pid: u32, root_comm: String, whitelist_type: Option<RunRecordType>, capture: RootCapture) -> (op:
        Self)
        ensures
            op@ == OperationView::fresh(
                root_pid,
                root_comm@,
                whitelist_type,
                opt_text(capture.command),
                opt_text(capture.working_directory),
                capture.at,
            ),
    {
        let mut pids: BTreeSet<u32> = BTreeSet::new();
        pids.insert(root_pid);
        let op = Operation {
            root_pid,
            root_comm,
            whitelist_type,
            command: capture.command,
            working_directory: capture.working_directory,
            exit_code: None,
            start_time: capture.at,
            end_time: None,
            pids,
            paths: StrMap::new(),
            dbg_recorded: 0,
            dbg_relative: 0,
            dbg_samples: Vec::new(),
        };
        assert(op@.dbg_samples =~= Seq::<Seq<char>>::empty());
        op
    }

    /// Record one access to `path`.
    pub fn record(&mut self, path: &str, access: Access)
        requires
            old(self).dbg_recorded < u64::MAX,
            old(self).dbg_relative < u64::MAX,
        ensures
            final(self)@ == old(self)@.recorded(path@, access),
    {
        let ghost before = self@;
        self.dbg_recorded = self.dbg_recorded + 1;
        if !starts_absolute(path) {
            self.dbg_relative = self.dbg_relative + 1;
        }
        if self.dbg_samples.len() < OPERATION_SAMPLES {
            let mut s = String::from_str(access_text(access));
            s.append(":");
            s.append(path);
            let ghost samples = self.dbg_samples@;
            self.dbg_samples.push(s);
            assert(texts(self.dbg_samples@) =~= texts(samples).push(s@));
        }
        let st = match self.paths.get(path) {
            Some(st) => *st,
            None => PathState { read: false, wrote: false, deleted: false },
        };
        self.paths.insert(path.to_owned(), st.touch(access));
        assert(self@ =~= before.recorded(path@, access));
    }

    /// Paths classified as inputs (read, never written, not deleted), filtered to
    /// the operation's scope, in ascending order.
    pub fn scoped_inputs(&self) -> (r: Vec<String>)
        ensures
            texts(r@) == self@.input_paths(),
            ascending(texts(r@)),
            forall|p: Seq<char>| texts(r@).contains(p) <==> self@.has_input(p),
    {
        let r = self.scoped(true);
        proof {
            ascending_lists_are_determined_by_members(texts(r@), self@.input_paths());
        }
        r
    }

    /// Paths classified as outputs (written or created and not finally deleted),
    /// filtered to the operation's scope, in ascending order.
    pub fn scoped_outputs(&self) -> (r: Vec<String>)
        ensures
            texts(r@) == self@.output_paths(),
            ascending(texts(r@)),
            forall|p: Seq<char>| texts(r@).contains(p) <==> self@.has_output(p),
    {
        let r = self.scoped(false);
        proof {
            ascending_lists_are_determined_by_members(texts(r@), self@.output_paths());
        }
        r
    }

    fn scoped(&self, inputs: bool) -> (r: Vec<String>)
        ensures
            ascending(texts(r@)),
            forall|p: Seq<char>|
                texts(r@).contains(p) <==> (if inputs {
                    self@.has_input(p)
                } else {
                    self@.has_output(p)
                }),
    {
        let wd = match &self.working_directory {
            Some(wd) => wd.as_str(),
            None => "",
        };
        proof {
            reveal_strlit("");
            assert(self.working_directory is None ==> wd@ =~= Seq::<char>::empty());
        }
        let ghost keys = self.paths.keys();
        let ghost chosen = |p: Seq<char>|
            if inputs {
                self@.has_input(p)
            } else {
                self@.has_output(p)
            };
        let mut r: Vec<String> = Vec::new();
        let ghost mut from: Seq<int> = Seq::empty();
        let n = self.paths.len();
        let mut i: usize = 0;
        while i < n
            invariant
                n == keys.len(),
                i <= n,
                keys == self.paths.keys(),
                ascending(keys),
                wd@ == self@.scope_root(),
                from.len() == r@.len(),
                forall|a: int| 0 <= a < from.len() ==> 0 <= #[trigger] from[a] < i,
                forall|a: int| 0 <= a < from.len() ==> keys[#[trigger] from[a]] == r@[a]@,
                forall|a: int, b: int| 0 <= a < b < from.len() ==> from[a] < from[b],
                chosen == (|p: Seq<char>|
                    if inputs {
                        self@.has_input(p)
                    } else {
                        self@.has_output(p)
                    }),
                forall|a: int| 0 <= a < from.len() ==> chosen(keys[#[trigger] from[a]]),
                forall|j: int| 0 <= j < i && chosen(#[trigger] keys[j]) ==> from.contains(j),
            decreases n - i,
        {
            let (path, st) = self.paths.entry(i);
            let wanted = if inputs {
                st.read && !st.wrote && !st.deleted
            } else {
                st.wrote && !st.deleted
            };
            let ghost before = from;
            if wanted && in_scope(path.as_str(), wd) {
                r.push(path.clone());
                proof {
                    from = from.push(i as int);
                    assert(chosen(keys[i as int]));
                    assert(from[before.len() as int] == i);
                    assert(from.contains(i as int));
                }
            } else {
                assert(!chosen(keys[i as int]));
            }
            proof {
                assert forall|j: int| 0 <= j < i + 1 && chosen(#[trigger] keys[j]) implies from.contains(j) by {
                    if j < i {
                        assert(before.contains(j));
                        let a = choose|a: int| 0 <= a < before.len() && before[a] == j;
                        assert(from[a] == j);
                    }
                }
            }
            i += 1;
        }
        proof {
            let t = texts(r@);
            assert forall|a: int, b: int| 0 <= a < b < t.len() implies crate::order::text_before(
                #[trigger] t[a],
                #[trigger] t[b],
            ) by {
                assert(t[a] == keys[from[a]] && t[b] == keys[from[b]]);
            }
            assert forall|p: Seq<char>| t.contains(p) <==> chosen(p) by {
                if t.contains(p) {
                    let a = choose|a: int| 0 <= a < t.len() && t[a] == p;
                    assert(chosen(keys[from[a]]));
                }
                if chosen(p) {
                    assert(keys.contains(p));
                    let j = choose|j: int| 0 <= j < keys.len() && keys[j] == p;
                    assert(from.contains(j));
                    let a = choose|a: int| 0 <= a < from.len() && from[a] == j;
                    assert(t[a] == p);
                }
            }
        }
        r
    }
}

// ---------------------------------------------------------------------------
// The process tree
// ---------------------------------------------------------------------------

/// How far up the parent chain a process looks for a tracked ancestor.
pub const MAX_ANCESTORS: usize = 64;

/// Attributed and unattributed accesses that are sampled.
pub const FILE_SAMPLES: usize = 25;

/// Execs that are sampled.
pub const EXEC_SAMPLES: usize = 40;

/// Links of a parent chain that are shown.
pub const CHAIN_LINKS: usize = 16;

/// Reconstructs process trees and accumulates operations.
pub struct ProcessTree {
    whitelist: Vec<WhitelistEntry>,
    /// PID -> parent PID (from fork/exec).
    parents: HashMap<u32, u32>,
    /// PID -> root PID of the operation that it belongs to.
    roots: HashMap<u32, u32>,
    /// PID of an exited process -> root PID of the open operation that it belonged to,
    /// which it leaves to its children.
    heirs: BTreeMap<u32, u32>,
    /// Root PID -> open operation.
    operations: BTreeMap<u32, Operation>,
    dbg_file_total: u64,
    dbg_attributed: u64,
    dbg_unattributed: u64,
    dbg_unattr_samples: Vec<String>,
    dbg_attr_samples: Vec<String>,
    dbg_exec_samples: Vec<String>,
}

/// What a [`ProcessTree`] says.
#[verifier::ext_equal]
pub struct TreeView {
    pub whitelist: Seq<EntryView>,
    pub parents: Map<u32, u32>,
    pub roots: Map<u32, u32>,
    pub heirs: Map<u32, u32>,
    pub operations: Map<u32, OperationView>,
    pub dbg_file_total: nat,
    pub dbg_attributed: nat,
    pub dbg_unattributed: nat,
    pub dbg_unattr_samples: Seq<Seq<char>>,
    pub dbg_attr_samples: Seq<Seq<char>>,
    pub dbg_exec_samples: Seq<Seq<char>>,
}

/// How a process relates to the operations of a tree.
#[derive(Clone, Copy, Debug, PartialEq, Eq, Structural)]
pub enum Attribution {
    /// Already tracked, as part of the operation with this root.
    Member(u32),
    /// A whitelisted command: the root of a new operation with this `type` tag.
    Root(Option<RunRecordType>),
    /// Descends from a tracked process of the operation with this root.
    Inherited(u32),
    /// Outside every operation.
    Unattributed,
}

/// The root of the nearest ancestor of `pid`, at most `links` links up, that is tracked or
/// was tracked when it exited.
pub open spec fn inherited_root(
    parents: Map<u32, u32>,
    roots: Map<u32, u32>,
    heirs: Map<u32, u32>,
    pid: u32,
    links: nat,
) -> Option<u32>
    decreases links,
{
    if links == 0 || !parents.contains_key(pid) {
        None
    } else if roots.contains_key(parents[pid]) {
        Some(roots[parents[pid]])
    } else if heirs.contains_key(parents[pid]) {
        Some(heirs[parents[pid]])
    } else {
        inherited_root(parents, roots, heirs, parents[pid], (links - 1) as nat)
    }
}

/// What exited processes leave to their children, without what is left of the operation
/// rooted at `root`.
pub open spec fn heirs_without(heirs: Map<u32, u32>, root: u32) -> Map<u32, u32> {
    heirs.restrict(heirs.dom().filter(|p: u32| heirs[p] != root))
}

impl TreeView {
    /// A tree that has seen nothing.
    pub open spec fn empty(whitelist: Seq<EntryView>) -> TreeView {
        TreeView {
            whitelist,
            parents: Map::empty(),
            roots: Map::empty(),
            heirs: Map::empty(),
            operations: Map::empty(),
            dbg_file_total: 0,
            dbg_attributed: 0,
            dbg_unattributed: 0,
            dbg_unattr_samples: Seq::empty(),
            dbg_attr_samples: Seq::empty(),
            dbg_exec_samples: Seq::empty(),
        }
    }

    /// What every tree keeps: an open operation is filed under its root, its root
    /// is tracked as its own root and counts among its processes, and it has no exit
    /// code yet; what an exited process leaves is an open operation; every file event
    /// is either attributed or not; no operation has recorded more accesses than
    /// were attributed.
    pub open spec fn wf(self) -> bool {
        &&& forall|k: u32| #[trigger]
            self.operations.contains_key(k) ==> {
                &&& self.roots.contains_key(k)
                &&& self.roots[k] == k
                &&& self.operations[k].root_pid == k
                &&& self.operations[k].pids.contains(k)
                &&& self.operations[k].exit_code is None
                &&& self.operations[k].dbg_recorded <= self.dbg_attributed
                &&& self.operations[k].dbg_relative <= self.operations[k].dbg_recorded
            }
        &&& forall|p: u32| #[trigger]
            self.heirs.contains_key(p) ==> !self.roots.contains_key(p) && self.operations.contains_key(self.heirs[p])
        &&& self.dbg_file_total == self.dbg_attributed + self.dbg_unattributed
        &&& self.dbg_file_total <= u64::MAX
    }

    /// How a process with this name relates to the operations: what is tracked
    /// stays where it is; else a whitelisted name starts an operation; else the
    /// process belongs where its nearest ancestor does that is tracked, or was tracked
    /// when it exited.
    pub open spec fn attribution(self, pid: u32, comm: Seq<char>) -> Attribution {
        if self.roots.contains_key(pid) {
            Attribution::Member(self.roots[pid])
        } else {
            match first_match(self.whitelist, comm) {
                Some(e) => Attribution::Root(e.type_tag),
                None => match inherited_root(
                    self.parents,
                    self.roots,
                    self.heirs,
                    pid,
                    MAX_ANCESTORS as nat,
                ) {
                    Some(root) => Attribution::Inherited(root),
                    None => Attribution::Unattributed,
                },
            }
        }
    }

    /// The tree with a new operation rooted at `pid`.
    pub open spec fn opened(
        self,
        pid: u32,
        comm: Seq<char>,
        tag: Option<RunRecordType>,
        c: RootCapture,
    ) -> TreeView {
        TreeView {
            roots: self.roots.insert(pid, pid),
            heirs: self.heirs.remove(pid),
            operations: self.operations.insert(
                pid,
                OperationView::fresh(pid, comm, tag, opt_text(c.command), opt_text(c.working_directory), c.at),
            ),
            ..self
        }
    }

    /// The tree with `pid` in the operation rooted at `root`.
    pub open spec fn joined(self, pid: u32, root: u32) -> TreeView {
        TreeView {
            roots: self.roots.insert(pid, root),
            heirs: self.heirs.remove(pid),
            operations: if self.operations.contains_key(root) {
                self.operations.insert(root, self.operations[root].joined(pid))
            } else {
                self.operations
            },
            ..self
        }
    }

    /// The tree with a live process and its parent link, unless the parent is not known
    /// (0). An earlier process of the same number leaves nothing any more.
    pub open spec fn linked(self, pid: u32, ppid: u32) -> TreeView {
        TreeView {
            parents: if ppid != 0 {
                self.parents.insert(pid, ppid)
            } else {
                self.parents
            },
            heirs: self.heirs.remove(pid),
            ..self
        }
    }

    /// The tree with the exec among its samples.
    pub open spec fn exec_sampled(self, e: ExecView) -> TreeView {
        if sampled_comm(e.comm) && self.dbg_exec_samples.len() < EXEC_SAMPLES {
            TreeView { dbg_exec_samples: self.dbg_exec_samples.push(exec_sample(e)), ..self }
        } else {
            self
        }
    }

    /// The parent chain of `pid`, marking the tracked processes.
    pub open spec fn chain(self, pid: u32, links: nat) -> Seq<char>
        decreases links,
    {
        if links == 0 {
            Seq::empty()
        } else {
            let here = decimal(pid as nat) + (if self.roots.contains_key(pid) { "T"@ } else { "-"@ })
                + " "@;
            if self.parents.contains_key(pid) {
                here + self.chain(self.parents[pid], (links - 1) as nat)
            } else {
                here + "|noparent"@
            }
        }
    }

    /// The tree after a file event that belongs to the operation rooted at `root`.
    pub open spec fn file_attributed(self, e: FileView, root: u32) -> TreeView {
        TreeView {
            dbg_file_total: self.dbg_file_total + 1,
            dbg_attributed: self.dbg_attributed + 1,
            dbg_attr_samples: if interesting(e.path) && self.dbg_attr_samples.len() < FILE_SAMPLES {
                self.dbg_attr_samples.push(file_sample(e))
            } else {
                self.dbg_attr_samples
            },
            operations: if self.operations.contains_key(root) {
                self.operations.insert(root, self.operations[root].recorded(e.path, e.access))
            } else {
                self.operations
            },
            ..self
        }
    }

    /// The tree after a file event that belongs to no operation.
    pub open spec fn file_unattributed(self, e: FileView) -> TreeView {
        TreeView {
            dbg_file_total: self.dbg_file_total + 1,
            dbg_unattributed: self.dbg_unattributed + 1,
            dbg_unattr_samples: if interesting(e.path) && self.dbg_unattr_samples.len() < FILE_SAMPLES {
                self.dbg_unattr_samples.push(
                    file_sample(e) + " chain=["@ + self.chain(e.pid, CHAIN_LINKS as nat) + "]"@,
                )
            } else {
                self.dbg_unattr_samples
            },
            ..self
        }
    }

    /// Whether the exit of `pid` is an operation boundary.
    pub open spec fn closes(self, pid: u32) -> bool {
        &&& self.roots.contains_key(pid)
        &&& self.roots[pid] == pid
        &&& self.operations.contains_key(pid)
    }

    /// Whether `pid` belongs to an open operation that another process roots.
    pub open spec fn leaves(self, pid: u32) -> bool {
        &&& self.roots.contains_key(pid)
        &&& self.roots[pid] != pid
        &&& self.operations.contains_key(self.roots[pid])
    }

    /// The tree without the process, and without the operation that it rooted. What
    /// belonged to an open operation leaves that operation to its children; a closed
    /// operation is left to nobody.
    pub open spec fn departed(self, pid: u32) -> TreeView {
        TreeView {
            parents: self.parents.remove(pid),
            roots: self.roots.remove(pid),
            heirs: if self.closes(pid) {
                heirs_without(self.heirs.remove(pid), pid)
            } else if self.leaves(pid) {
                self.heirs.insert(pid, self.roots[pid])
            } else {
                self.heirs.remove(pid)
            },
            operations: if self.closes(pid) { self.operations.remove(pid) } else { self.operations },
            ..self
        }
    }

    /// The tree without any open operation; none is left to anybody.
    pub open spec fn finalized(self) -> TreeView {
        TreeView { operations: Map::empty(), heirs: Map::empty(), ..self }
    }

    /// The tree with what was not captured before of the operation rooted at `pid`.
    pub open spec fn refilled(self, pid: u32, command: Option<Seq<char>>, wd: Option<Seq<char>>) -> TreeView {
        TreeView {
            operations: self.operations.insert(pid, self.operations[pid].filled(command, wd)),
            ..self
        }
    }
}

/// Whether the tree `post` is `pre` with `pid` placed among its operations, where
/// `r` is the root of the operation that `pid` now belongs to. Only a new root has
/// its command and working directory read.
pub open spec fn placed<P: ProcSource>(
    pre: TreeView,
    post: TreeView,
    pid: u32,
    comm: Seq<char>,
    proc: &P,
    r: Option<u32>,
) -> bool {
    match pre.attribution(pid, comm) {
        Attribution::Member(root) => post == pre && r == Some(root),
        Attribution::Root(tag) => {
            &&& r == Some(pid)
            &&& exists|c: RootCapture| #[trigger]
                captured_from(proc, pid, c) && post == pre.opened(pid, comm, tag, c)
        },
        Attribution::Inherited(root) => post == pre.joined(pid, root) && r == Some(root),
        Attribution::Unattributed => post == pre && r is None,
    }
}

/// Whether `command` and `wd` are what `proc` gave for what the operation lacks.
pub open spec fn refill_from<P: ProcSource>(
    proc: &P,
    op: OperationView,
    pid: u32,
    command: Option<String>,
    wd: Option<String>,
) -> bool {
    &&& op.command is None ==> call_ensures(P::cmdline, (proc, pid), command)
    &&& op.working_directory is None ==> call_ensures(P::cwd, (proc, pid), wd)
}

/// Whether the tree `post` is `pre` after one more attempt to capture what the
/// operation rooted at `pid` lacks.
pub open spec fn refreshed<P: ProcSource>(pre: TreeView, post: TreeView, pid: u32, proc: &P) -> bool {
    if pre.operations.contains_key(pid) {
        exists|command: Option<String>, wd: Option<String>| #[trigger]
            refill_from(proc, pre.operations[pid], pid, command, wd) && post == pre.refilled(
                pid,
                opt_text(command),
                opt_text(wd),
            )
    } else {
        post == pre
    }
}

/// Whether the tree `post` is `pre` after an exec: the parent is learned, the process is
/// placed, and what the operation that it roots still lacks is captured.
pub open spec fn exec_step<P: ProcSource>(pre: TreeView, post: TreeView, e: ExecView, proc: &P) -> bool {
    exists|mid: TreeView, r: Option<u32>|
        #[trigger] placed(pre.linked(e.pid, e.ppid).exec_sampled(e), mid, e.pid, e.comm, proc, r)
            && refreshed(mid, post, e.pid, proc)
}

/// Whether the tree `post` is `pre` after a file access: the process is placed, and the
/// access is recorded in the operation that it belongs to, if any.
pub open spec fn file_step<P: ProcSource>(pre: TreeView, post: TreeView, e: FileView, proc: &P) -> bool {
    exists|mid: TreeView, r: Option<u32>| #[trigger]
        placed(pre, mid, e.pid, e.comm, proc, r) && post == (match r {
            Some(root) => mid.file_attributed(e, root),
            None => mid.file_unattributed(e),
        })
}

/// Whether the tree `post` is `pre` after an exit, and `r` the operation that it closed:
/// the process is placed, and then leaves the tree together with the operation that it
/// roots, if any.
pub open spec fn exit_step<P: ProcSource>(
    pre: TreeView,
    post: TreeView,
    e: ExitView,
    proc: &P,
    r: Option<Operation>,
) -> bool {
    exists|mid: TreeView, root: Option<u32>|
        {
            &&& #[trigger] placed(pre, mid, e.pid, e.comm, proc, root)
            &&& post == mid.departed(e.pid)
            &&& r is Some <==> mid.closes(e.pid)
            &&& r matches Some(op) ==> {
                &&& op.end_time is Some
                &&& op.end_time->0.is_reading()
                &&& op@ == mid.operations[e.pid].ended(e.exit_code, op.end_time->0)
            }
        }
}

/// Whether an exec of this name is sampled.
pub open spec fn sampled_comm(comm: Seq<char>) -> bool {
    ||| comm == "sh"@
    ||| comm == "bash"@
    ||| comm == "dash"@
    ||| comm == "cat"@
    ||| comm == "mkdir"@
    ||| comm == "node"@
    ||| comm == "nest"@
    ||| comm == "tsc"@
    ||| comm == "npm run build"@
}

/// Whether a path is part of the repo build I/O rather than system noise.
pub open spec fn interesting(path: Seq<char>) -> bool {
    !(path.len() > 0 && path[0] == '/') || holds(path, "/repo/"@)
}

/// The sample line of an exec.
pub open spec fn exec_sample(e: ExecView) -> Seq<char> {
    "pid="@ + decimal(e.pid as nat) + " ppid="@ + decimal(e.ppid as nat) + " comm="@ + e.comm
}

/// The sample line of a file access.
pub open spec fn file_sample(e: FileView) -> Seq<char> {
    "pid="@ + decimal(e.pid as nat) + " comm="@ + e.comm + " "@ + access_name(e.access) + ":"@ + e.path
}

fn exec_sample_text(e: &ExecEvent) -> (s: String)
    ensures
        s@ == exec_sample(e@),
{
    let mut s = String::from_str("pid=");
    s.append(decimal_text(e.pid as u64).as_str());
    s.append(" ppid=");
    s.append(decimal_text(e.ppid as u64).as_str());
    s.append(" comm=");
    s.append(e.comm.as_str());
    s
}

fn file_sample_text(e: &FileEvent) -> (s: String)
    ensures
        s@ == file_sample(e@),
{
    let mut s = String::from_str("pid=");
    s.append(decimal_text(e.pid as u64).as_str());
    s.append(" comm=");
    s.append(e.comm.as_str());
    s.append(" ");
    s.append(access_text(e.access));
    s.append(":");
    s.append(e.path.as_str());
    s
}

fn is_sampled_comm(comm: &str) -> (r: bool)
    ensures
        r == sampled_comm(comm@),
{
    same_text(comm, "sh") || same_text(comm, "bash") || same_text(comm, "dash") || same_text(comm, "cat")
        || same_text(comm, "mkdir") || same_text(comm, "node") || same_text(comm, "nest") || same_text(
        comm,
        "tsc",
    ) || same_text(comm, "npm run build")
}

fn is_interesting(path: &str) -> (r: bool)
    ensures
        r == interesting(path@),
{
    !starts_absolute(path) || contains_text(path, "/repo/")
}

/// What a map of operations says.
pub open spec fn operation_views(m: Map<u32, Operation>) -> Map<u32, OperationView> {
    m.map_values(|o: Operation| o@)
}

impl View for ProcessTree {
    type V = TreeView;

    closed spec fn view(&self) -> TreeView {
        TreeView {
            whitelist: entries(self.whitelist@),
            parents: self.parents@,
            roots: self.roots@,
            heirs: self.heirs@,
            operations: operation_views(self.operations@),
            dbg_file_total: self.dbg_file_total as nat,
            dbg_attributed: self.dbg_attributed as nat,
            dbg_unattributed: self.dbg_unattributed as nat,
            dbg_unattr_samples: texts(self.dbg_unattr_samples@),
            dbg_attr_samples: texts(self.dbg_attr_samples@),
            dbg_exec_samples: texts(self.dbg_exec_samples@),
        }
    }
}

proof fn lemma_views_insert(m: Map<u32, Operation>, k: u32, o: Operation)
    ensures
        operation_views(m.insert(k, o)) == operation_views(m).insert(k, o@),
{
    assert(operation_views(m.insert(k, o)) =~= operation_views(m).insert(k, o@));
}

proof fn lemma_views_remove(m: Map<u32, Operation>, k: u32)
    ensures
        operation_views(m.remove(k)) == operation_views(m).remove(k),
{
    assert(operation_views(m.remove(k)) =~= operation_views(m).remove(k));
}

proof fn lemma_texts_push(v: Seq<String>, s: String)
    ensures
        texts(v.push(s)) == texts(v).push(s@),
{
    assert(texts(v.push(s)) =~= texts(v).push(s@));
}

impl ProcessTree {
    /// A tree that has seen nothing.
    pub fn new(whitelist: Vec<WhitelistEntry>) -> (t: Self)
        ensures
            t@ == TreeView::empty(entries(whitelist@)),
            t@.wf(),
    {
        let t = ProcessTree {
            whitelist,
            parents: HashMap::new(),
            roots: HashMap::new(),
            heirs: BTreeMap::new(),
            operations: BTreeMap::new(),
            dbg_file_total: 0,
            dbg_attributed: 0,
            dbg_unattributed: 0,
            dbg_unattr_samples: Vec::new(),
            dbg_attr_samples: Vec::new(),
            dbg_exec_samples: Vec::new(),
        };
        assert(t@ =~= TreeView::empty(entries(whitelist@)));
        t
    }

    /// Number of currently open (un-finalized) operations.
    pub fn open_count(&self) -> (n: usize)
        ensures
            n == self@.operations.len(),
    {
        assert(operation_views(self.operations@).dom() =~= self.operations@.dom());
        self.operations.len()
    }

    /// Whether another file event can be counted.
    pub fn has_room(&self) -> (r: bool)
        ensures
            r == (self@.dbg_file_total < u64::MAX),
    {
        self.dbg_file_total < u64::MAX
    }

    fn set_parent(&mut self, pid: u32, ppid: u32)
        ensures
            final(self)@ == old(self)@.linked(pid, ppid),
    {
        if ppid != 0 {
            self.parents.insert(pid, ppid);
        }
        self.heirs.remove(&pid);
        assert(self@ =~= old(self)@.linked(pid, ppid));
    }

    /// The first whitelist entry that matches the kernel's `comm`.
    fn match_whitelist(&self, comm: &str) -> (r: Option<&WhitelistEntry>)
        ensures
            (match r {
                Some(e) => Some(e@),
                None => None,
            }) == first_match(self@.whitelist, comm@),
    {
        let ghost w = entries(self.whitelist@);
        let mut i: usize = 0;
        assert(w.skip(0) =~= w);
        while i < self.whitelist.len()
            invariant
                i <= self.whitelist@.len(),
                w == entries(self.whitelist@),
                first_match(w, comm@) == first_match(w.skip(i as int), comm@),
            decreases self.whitelist@.len() - i,
        {
            assert(w.skip(i as int)[0] == self.whitelist@[i as int]@);
            if matches_comm(comm, self.whitelist[i].pattern.as_str()) {
                return Some(&self.whitelist[i]);
            }
            assert(w.skip(i as int).drop_first() =~= w.skip(i + 1));
            i += 1;
        }
        None
    }

    /// How a process with this name relates to the operations of the tree.
    pub fn attribute(&self, pid: u32, comm: &str) -> (r: Attribution)
        ensures
            r == self@.attribution(pid, comm@),
    {
        if let Some(root) = self.roots.get(&pid) {
            return Attribution::Member(*root);
        }
        if let Some(e) = self.match_whitelist(comm) {
            return Attribution::Root(e.type_tag);
        }
        let mut cursor: u32 = pid;
        let mut left: usize = MAX_ANCESTORS;
        while left > 0
            invariant
                left <= MAX_ANCESTORS,
                !self@.roots.contains_key(pid),
                first_match(self@.whitelist, comm@) is None,
                inherited_root(self@.parents, self@.roots, self@.heirs, pid, MAX_ANCESTORS as nat) == inherited_root(
                    self@.parents,
                    self@.roots,
                    self@.heirs,
                    cursor,
                    left as nat,
                ),
            decreases left,
        {
            match self.parents.get(&cursor) {
                None => {
                    return Attribution::Unattributed;
                },
                Some(p) => {
                    if let Some(root) = self.roots.get(p) {
                        return Attribution::Inherited(*root);
                    }
                    if let Some(root) = self.heirs.get(p) {
                        return Attribution::Inherited(*root);
                    }
                    cursor = *p;
                },
            }
            left -= 1;
        }
        Attribution::Unattributed
    }

    /// Start the operation rooted at `pid`, with what was captured of its root.
    pub fn open_operation(&mut self, pid: u32, comm: &str, tag: Option<RunRecordType>, capture: RootCapture)
        ensures
            final(self)@ == old(self)@.opened(pid, comm@, tag, capture),
            old(self)@.wf() ==> final(self)@.wf(),
    {
        self.roots.insert(pid, pid);
        self.heirs.remove(&pid);
        let op = Operation::new(pid, comm.to_owned(), tag, capture);
        proof {
            lemma_views_insert(self.operations@, pid, op);
        }
        self.operations.insert(pid, op);
        assert(self@ =~= old(self)@.opened(pid, comm@, tag, capture));
    }

    /// Add `pid` to the operation rooted at `root`.
    pub fn join_operation(&mut self, pid: u32, root: u32)
        ensures
            final(self)@ == old(self)@.joined(pid, root),
            old(self)@.wf() && !old(self)@.operations.contains_key(pid) ==> final(self)@.wf(),
    {
        self.roots.insert(pid, root);
        self.heirs.remove(&pid);
        let ghost ops = self.operations@;
        match self.operations.remove(&root) {
            Some(mut op) => {
                let ghost o = op;
                op.pids.insert(pid);
                assert(op@ =~= o@.joined(pid));
                proof {
                    lemma_views_insert(ops, root, op);
                    assert(ops.remove(root).insert(root, op) =~= ops.insert(root, op));
                }
                self.operations.insert(root, op);
            },
            None => {
                assert(ops.remove(root) =~= ops);
            },
        }
        assert(self@ =~= old(self)@.joined(pid, root));
    }

    /// Establish (or look up) the operation of `pid` with the given `comm`. Starting
    /// a new operation eagerly captures the root's command and directory, since
    /// they may be gone by the time it exits.
    pub fn membership<P: ProcSource>(&mut self, pid: u32, comm: &str, proc: &P) -> (r: Option<u32>)
        ensures
            placed(old(self)@, final(self)@, pid, comm@, proc, r),
            old(self)@.wf() ==> final(self)@.wf(),
    {
        match self.attribute(pid, comm) {
            Attribution::Member(root) => Some(root),
            Attribution::Root(tag) => {
                let capture = capture_root(proc, pid);
                self.open_operation(pid, comm, tag, capture);
                Some(pid)
            },
            Attribution::Inherited(root) => {
                self.join_operation(pid, root);
                Some(root)
            },
            Attribution::Unattributed => None,
        }
    }

    /// The parent chain of `pid`, marking the tracked processes, so that it shows
    /// where attribution breaks.
    fn dbg_chain(&self, pid: u32) -> (r: String)
        ensures
            r@ == self@.chain(pid, CHAIN_LINKS as nat),
    {
        let mut out = String::new();
        let mut cursor: u32 = pid;
        let mut left: usize = CHAIN_LINKS;
        while left > 0
            invariant
                left <= CHAIN_LINKS,
                self@.chain(pid, CHAIN_LINKS as nat) =~= out@ + self@.chain(cursor, left as nat),
            decreases left,
        {
            let ghost before = out@;
            out.append(decimal_text(cursor as u64).as_str());
            if self.roots.contains_key(&cursor) {
                out.append("T");
            } else {
                out.append("-");
            }
            out.append(" ");
            match self.parents.get(&cursor) {
                Some(p) => {
                    cursor = *p;
                },
                None => {
                    out.append("|noparent");
                    assert(out@ =~= before + self@.chain(cursor, left as nat));
                    return out;
                },
            }
            left -= 1;
        }
        out
    }

    /// Handle an exec: learn the parent, place the process, and capture what the
    /// operation that it roots still lacks.
    pub fn on_exec<P: ProcSource>(&mut self, e: &ExecEvent, proc: &P)
        ensures
            exec_step(old(self)@, final(self)@, e@, proc),
            old(self)@.wf() ==> final(self)@.wf(),
    {
        self.set_parent(e.pid, e.ppid);
        if is_sampled_comm(e.comm.as_str()) && self.dbg_exec_samples.len() < EXEC_SAMPLES {
            let s = exec_sample_text(e);
            proof {
                lemma_texts_push(self.dbg_exec_samples@, s);
            }
            self.dbg_exec_samples.push(s);
        }
        let ghost pre = old(self)@.linked(e.pid, e.ppid).exec_sampled(e@);
        assert(self@ =~= pre);
        let r = self.membership(e.pid, e.comm.as_str(), proc);
        let ghost mid = self@;
        self.refresh_root_proc(e.pid, proc);
        proof {
            assert(placed(pre, mid, e.pid, e.comm@, proc, r));
            if old(self)@.wf() {
                assert(pre.wf());
                lemma_placed_wf(pre, mid, e.pid, e.comm@, proc, r);
            }
        }
    }

    /// Handle a file access: place the process, and record the access when it
    /// belongs to an operation.
    pub fn on_file<P: ProcSource>(&mut self, e: &FileEvent, proc: &P)
        requires
            old(self)@.wf(),
            old(self)@.dbg_file_total < u64::MAX,
        ensures
            file_step(old(self)@, final(self)@, e@, proc),
            final(self)@.wf(),
    {
        let placement = self.membership(e.pid, e.comm.as_str(), proc);
        let ghost mid = self@;
        proof {
            lemma_placed_wf(old(self)@, mid, e.pid, e.comm@, proc, placement);
            lemma_placed_counters(old(self)@, mid, e.pid, e.comm@, proc, placement);
        }
        self.dbg_file_total = self.dbg_file_total + 1;
        match placement {
            None => {
                self.dbg_unattributed = self.dbg_unattributed + 1;
                if is_interesting(e.path.as_str()) && self.dbg_unattr_samples.len() < FILE_SAMPLES {
                    let mut s = file_sample_text(e);
                    s.append(" chain=[");
                    let chain = self.dbg_chain(e.pid);
                    proof {
                        lemma_chain(mid, self@, e.pid, CHAIN_LINKS as nat);
                    }
                    s.append(chain.as_str());
                    s.append("]");
                    proof {
                        lemma_texts_push(self.dbg_unattr_samples@, s);
                    }
                    self.dbg_unattr_samples.push(s);
                }
                assert(self@ =~= mid.file_unattributed(e@));
            },
            Some(root) => {
                self.dbg_attributed = self.dbg_attributed + 1;
                if is_interesting(e.path.as_str()) && self.dbg_attr_samples.len() < FILE_SAMPLES {
                    let s = file_sample_text(e);
                    proof {
                        lemma_texts_push(self.dbg_attr_samples@, s);
                    }
                    self.dbg_attr_samples.push(s);
                }
                let ghost ops = self.operations@;
                match self.operations.remove(&root) {
                    Some(mut op) => {
                        let ghost o = op;
                        proof {
                            assert(mid.operations.contains_key(root));
                            assert(mid.operations[root] == o@);
                        }
                        op.record(e.path.as_str(), e.access);
                        proof {
                            lemma_views_insert(ops, root, op);
                            assert(ops.remove(root).insert(root, op) =~= ops.insert(root, op));
                        }
                        self.operations.insert(root, op);
                    },
                    None => {
                        assert(ops.remove(root) =~= ops);
                    },
                }
                assert(self@ =~= mid.file_attributed(e@, root));
            },
        }
        assert(placed(old(self)@, mid, e@.pid, e@.comm, proc, placement));
    }

    /// Re-attempt command and directory capture for an operation root that was
    /// created before they were available.
    fn refresh_root_proc<P: ProcSource>(&mut self, pid: u32, proc: &P)
        ensures
            refreshed(old(self)@, final(self)@, pid, proc),
            old(self)@.wf() ==> final(self)@.wf(),
    {
        let ghost ops = self.operations@;
        let ghost pre = self@;
        match self.operations.remove(&pid) {
            Some(mut op) => {
                let ghost o = op;
                let mut command: Option<String> = None;
                let mut wd: Option<String> = None;
                if op.command.is_none() {
                    command = proc.cmdline(pid);
                    op.command = clone_opt(&command);
                }
                if op.working_directory.is_none() {
                    wd = proc.cwd(pid);
                    op.working_directory = clone_opt(&wd);
                }
                proof {
                    assert(pre.operations[pid] == o@);
                    assert(op@ =~= o@.filled(opt_text(command), opt_text(wd)));
                    assert(refill_from(proc, o@, pid, command, wd));
                    lemma_views_insert(ops, pid, op);
                    assert(ops.remove(pid).insert(pid, op) =~= ops.insert(pid, op));
                }
                self.operations.insert(pid, op);
                assert(self@ =~= pre.refilled(pid, opt_text(command), opt_text(wd)));
            },
            None => {
                assert(ops.remove(pid) =~= ops);
                assert(self@ =~= pre);
            },
        }
    }

    /// Handle an exit. Returns the finalized [`Operation`] when an operation root
    /// exits (the operation boundary).
    pub fn on_exit<P: ProcSource>(&mut self, e: &ExitEvent, proc: &P) -> (r: Option<Operation>)
        ensures
            exit_step(old(self)@, final(self)@, e@, proc, r),
            old(self)@.wf() ==> final(self)@.wf(),
    {
        let placement = self.membership(e.pid, e.comm.as_str(), proc);
        let ghost mid = self@;
        proof {
            assert(placed(old(self)@, mid, e.pid, e.comm@, proc, placement));
            if old(self)@.wf() {
                lemma_placed_wf(old(self)@, mid, e.pid, e.comm@, proc, placement);
            }
        }
        self.parents.remove(&e.pid);
        self.heirs.remove(&e.pid);
        let ghost ops = self.operations@;
        let mut closed: Option<Operation> = None;
        match self.roots.remove(&e.pid) {
            Some(root) => {
                if root == e.pid {
                    proof {
                        lemma_views_remove(ops, e.pid);
                    }
                    match self.operations.remove(&e.pid) {
                        Some(mut op) => {
                            let ghost o = op;
                            op.exit_code = e.exit_code;
                            let now = Timestamp::now();
                            op.end_time = Some(now);
                            proof {
                                assert(op@ =~= o@.ended(e.exit_code, now));
                                assert(mid.operations[e.pid] == o@);
                                assert(mid.closes(e.pid));
                            }
                            closed = Some(op);
                            self.heirs = other_heirs(&self.heirs, e.pid);
                        },
                        None => {
                            assert(ops.remove(e.pid) =~= ops);
                        },
                    }
                } else if self.operations.contains_key(&root) {
                    self.heirs.insert(e.pid, root);
                    assert(mid.leaves(e.pid));
                    assert(mid.heirs.remove(e.pid).insert(e.pid, root) =~= mid.heirs.insert(e.pid, root));
                }
            },
            None => {},
        }
        proof {
            assert(self@ =~= mid.departed(e.pid));
            assert(placed(old(self)@, mid, e@.pid, e@.comm, proc, placement));
            assert(closed is Some <==> mid.closes(e.pid));
            assert(closed matches Some(op) ==> op.end_time is Some && op.end_time->0.is_reading() && op@ == mid.operations[e.pid].ended(
                e.exit_code,
                op.end_time->0,
            ));
        }
        closed
    }

    /// Finalize all still-open operations, in ascending order of their roots.
    pub fn finalize_all(&mut self) -> (r: Vec<Operation>)
        ensures
            final(self)@ == old(self)@.finalized(),
            old(self)@.wf() ==> final(self)@.wf(),
            old(self)@.wf() ==> {
                &&& r@.len() == old(self)@.operations.len()
                &&& forall|i: int, j: int| 0 <= i < j < r@.len() ==> (#[trigger] r@[i]).root_pid < (#[trigger] r@[j]).root_pid
                &&& forall|i: int|
                    0 <= i < r@.len() ==> {
                        &&& old(self)@.operations.contains_key((#[trigger] r@[i]).root_pid)
                        &&& r@[i].end_time is Some
                        &&& r@[i].end_time->0.is_reading()
                        &&& r@[i].exit_code is None
                        &&& r@[i]@ == (OperationView {
                            end_time: r@[i].end_time,
                            ..old(self)@.operations[r@[i].root_pid]
                        })
                    }
                &&& forall|k: u32| #[trigger]
                    old(self)@.operations.contains_key(k) ==> exists|i: int|
                        0 <= i < r@.len() && (#[trigger] r@[i]).root_pid == k
            },
    {
        let ghost ops = self.operations@;
        let ghost pre = self@;
        let keys = root_keys(&self.operations);
        let mut r: Vec<Operation> = Vec::new();
        let mut i: usize = 0;
        while i < keys.len()
            invariant
                i <= keys@.len(),
                keys@.len() == ops.dom().len(),
                pre.operations == operation_views(ops),
                forall|a: int, b: int| 0 <= a < b < keys@.len() ==> keys@[a] < keys@[b],
                forall|a: int| 0 <= a < keys@.len() ==> ops.contains_key(#[trigger] keys@[a]),
                forall|k: u32| ops.contains_key(k) ==> #[trigger] keys@.contains(k),
                forall|k: u32| #[trigger] self.operations@.contains_key(k) ==> ops.contains_key(k) && self.operations@[k] == ops[k],
                forall|k: u32| #[trigger] ops.contains_key(k) && !keys@.take(i as int).contains(k) ==> self.operations@.contains_key(k),
                forall|a: int| 0 <= a < i ==> !self.operations@.contains_key(#[trigger] keys@[a]),
                r@.len() == i,
                forall|a: int| 0 <= a < i ==> {
                    &&& (#[trigger] r@[a]).end_time is Some
                    &&& r@[a].end_time->0.is_reading()
                    &&& r@[a]@ == (OperationView { end_time: r@[a].end_time, ..ops[keys@[a]]@ })
                },
                self@ == (TreeView { operations: operation_views(self.operations@), ..pre }),
            decreases keys@.len() - i,
        {
            let key = keys[i];
            let ghost before = self.operations@;
            proof {
                if keys@.take(i as int).contains(key) {
                    let a = choose|a: int| 0 <= a < i && keys@.take(i as int)[a] == key;
                    assert(keys@[a] == key);
                }
                assert(before.contains_key(key));
            }
            match self.operations.remove(&key) {
                Some(mut op) => {
                    let ghost o = op;
                    let now = Timestamp::now();
                    op.end_time = Some(now);
                    assert(op@ =~= (OperationView { end_time: Some(now), ..o@ }));
                    r.push(op);
                },
                None => {
                    assert(false);
                },
            }
            proof {
                assert(self.operations@ == before.remove(key));
                assert forall|k: u32| #[trigger] ops.contains_key(k) && !keys@.take(i + 1).contains(k) implies self.operations@.contains_key(k) by {
                    if k == key {
                        assert(keys@.take(i + 1)[i as int] == key);
                    }
                    if keys@.take(i as int).contains(k) {
                        let a = choose|a: int| 0 <= a < i && keys@.take(i as int)[a] == k;
                        assert(keys@.take(i + 1)[a] == k);
                    }
                }
            }
            i += 1;
        }
        self.heirs = BTreeMap::new();
        proof {
            assert(keys@.take(i as int) =~= keys@);
            assert forall|k: u32| !self.operations@.contains_key(k) by {
                if self.operations@.contains_key(k) {
                    assert(keys@.contains(k));
                    let a = choose|a: int| 0 <= a < keys@.len() && keys@[a] == k;
                    assert(!self.operations@.contains_key(keys@[a]));
                }
            }
            assert(operation_views(self.operations@) =~= Map::<u32, OperationView>::empty());
            assert(self@ =~= pre.finalized());
            assert(operation_views(ops).dom() =~= ops.dom());
            if pre.wf() {
                assert forall|a: int| 0 <= a < r@.len() implies (#[trigger] r@[a]).root_pid == keys@[a] by {
                    assert(pre.operations.contains_key(keys@[a]));
                    assert(pre.operations[keys@[a]] == ops[keys@[a]]@);
                    assert(r@[a]@.root_pid == keys@[a]);
                }
                assert forall|k: u32| #[trigger] pre.operations.contains_key(k) implies exists|i: int|
                    0 <= i < r@.len() && (#[trigger] r@[i]).root_pid == k by {
                    assert(keys@.contains(k));
                    let a = choose|a: int| 0 <= a < keys@.len() && keys@[a] == k;
                    assert(r@[a].root_pid == k);
                }
            }
        }
        r
    }

    /// The lines of a one-shot attribution summary for the job log.
    pub fn debug_summary(&self) -> (r: Vec<String>)
        ensures
            texts(r@) == summary_lines(self@),
    {
        let mut first = String::from_str("[dbg 5d16d6 HYP=BCD] file_events_total=");
        first.append(decimal_text(self.dbg_file_total).as_str());
        first.append(" attributed=");
        first.append(decimal_text(self.dbg_attributed).as_str());
        first.append(" unattributed=");
        first.append(decimal_text(self.dbg_unattributed).as_str());
        first.append(" parents_map=");
        first.append(decimal_text(self.parents.len() as u64).as_str());
        first.append(" tracked_map=");
        first.append(decimal_text(self.roots.len() as u64).as_str());
        let mut r: Vec<String> = Vec::new();
        proof {
            lemma_texts_push(r@, first);
            assert(texts(r@) =~= Seq::<Seq<char>>::empty());
        }
        r.push(first);
        assert(texts(r@) =~= seq![first@]);
        prefixed(&mut r, "[dbg 5d16d6 HYP=BC exec] ", &self.dbg_exec_samples);
        prefixed(&mut r, "[dbg 5d16d6 HYP=AE attr_sample] ", &self.dbg_attr_samples);
        prefixed(&mut r, "[dbg 5d16d6 HYP=BC unattr_sample] ", &self.dbg_unattr_samples);
        r
    }
}

/// Every line with `tag` in front.
pub open spec fn tagged(tag: Seq<char>, lines: Seq<Seq<char>>) -> Seq<Seq<char>> {
    lines.map_values(|l: Seq<char>| tag + l)
}

/// The attribution summary of a tree.
pub open spec fn summary_lines(t: TreeView) -> Seq<Seq<char>> {
    seq![
        "[dbg 5d16d6 HYP=BCD] file_events_total="@ + decimal(t.dbg_file_total) + " attributed="@ + decimal(
            t.dbg_attributed,
        ) + " unattributed="@ + decimal(t.dbg_unattributed) + " parents_map="@ + decimal(t.parents.len())
            + " tracked_map="@ + decimal(t.roots.len()),
    ] + tagged("[dbg 5d16d6 HYP=BC exec] "@, t.dbg_exec_samples) + tagged(
        "[dbg 5d16d6 HYP=AE attr_sample] "@,
        t.dbg_attr_samples,
    ) + tagged("[dbg 5d16d6 HYP=BC unattr_sample] "@, t.dbg_unattr_samples)
}

/// Append every line with `tag` in front.
fn prefixed(out: &mut Vec<String>, tag: &str, lines: &Vec<String>)
    ensures
        texts(final(out)@) == texts(old(out)@) + tagged(tag@, texts(lines@)),
{
    let ghost start = texts(out@);
    let ghost all = tagged(tag@, texts(lines@));
    let mut i: usize = 0;
    assert(start + all.take(0) =~= start);
    while i < lines.len()
        invariant
            i <= lines@.len(),
            all == tagged(tag@, texts(lines@)),
            texts(out@) == start + all.take(i as int),
        decreases lines@.len() - i,
    {
        let mut s = String::from_str(tag);
        s.append(lines[i].as_str());
        proof {
            lemma_texts_push(out@, s);
            assert(all[i as int] == s@);
            assert(start + all.take(i + 1) =~= (start + all.take(i as int)).push(s@));
        }
        out.push(s);
        i += 1;
    }
    assert(all.take(i as int) =~= all);
}

/// What exited processes leave to their children, without what is left of the operation
/// rooted at `root`.
fn other_heirs(m: &BTreeMap<u32, u32>, root: u32) -> (r: BTreeMap<u32, u32>)
    ensures
        r@ == heirs_without(m@, root),
{
    let mut r: BTreeMap<u32, u32> = BTreeMap::new();
    let iter = m.iter();
    let ghost items = vstd::std_specs::iter::IteratorSpec::remaining(&iter);
    proof {
        assert forall|p: u32| m@.contains_key(p) implies items.contains((&p, &m@[p])) by {}
    }
    for kv in it: iter
        invariant
            it.seq() == items,
            forall|p: u32| m@.contains_key(p) ==> items.contains((&p, #[trigger] &m@[p])),
            forall|i: int| 0 <= i < items.len() ==> m@.contains_key(*(#[trigger] items[i]).0) && m@[*items[i].0] == *items[i].1,
            forall|p: u32| #[trigger] r@.contains_key(p) ==> m@.contains_key(p) && m@[p] != root && r@[p] == m@[p],
            forall|i: int| 0 <= i < it.index() && *(#[trigger] items[i]).1 != root ==> r@.contains_key(*items[i].0),
    {
        if *kv.1 != root {
            r.insert(*kv.0, *kv.1);
        }
    }
    proof {
        assert forall|p: u32| heirs_without(m@, root).contains_key(p) implies r@.contains_key(p) by {
            assert(items.contains((&p, &m@[p])));
            let i = choose|i: int| 0 <= i < items.len() && items[i] == (&p, &m@[p]);
            assert(*items[i].1 != root);
        }
        assert(r@ =~= heirs_without(m@, root));
    }
    r
}

/// The keys of a map of operations, ascending.
fn root_keys(m: &BTreeMap<u32, Operation>) -> (keys: Vec<u32>)
    ensures
        keys@.len() == m@.dom().len(),
        forall|a: int, b: int| 0 <= a < b < keys@.len() ==> keys@[a] < keys@[b],
        forall|a: int| 0 <= a < keys@.len() ==> m@.contains_key(#[trigger] keys@[a]),
        forall|k: u32| m@.contains_key(k) ==> #[trigger] keys@.contains(k),
{
    let mut keys: Vec<u32> = Vec::new();
    let iter = m.iter();
    let ghost items = vstd::std_specs::iter::IteratorSpec::remaining(&iter);
    let ghost firsts = items.map_values(|kv: (&u32, &Operation)| *kv.0);
    proof {
        lemma_increasing(firsts);
        assert forall|k: u32| m@.contains_key(k) implies firsts.contains(k) by {
            assert(items.contains((&k, &m@[k])));
            let a = choose|a: int| 0 <= a < items.len() && items[a] == (&k, &m@[k]);
            assert(firsts[a] == k);
        }
        assert forall|a: int| 0 <= a < firsts.len() implies m@.contains_key(#[trigger] firsts[a]) by {
            assert(m@.contains_key(*items[a].0));
        }
    }
    for kv in it: iter
        invariant
            it.seq() == items,
            firsts == items.map_values(|kv: (&u32, &Operation)| *kv.0),
            keys@ == firsts.take(it.index() as int),
    {
        keys.push(*kv.0);
    }
    assert(firsts.take(firsts.len() as int) =~= firsts);
    keys
}

proof fn lemma_increasing(s: Seq<u32>)
    requires
        vstd::std_specs::btree::increasing_seq(s),
    ensures
        forall|a: int, b: int| 0 <= a < b < s.len() ==> s[a] < s[b],
{
    broadcast use vstd::std_specs::btree::axiom_increasing_seq_meaning;

    assert(vstd::laws_cmp::obeys_cmp::<u32>());
    assert forall|a: int, b: int| 0 <= a < b < s.len() implies s[a] < s[b] by {
        assert(vstd::std_specs::cmp::OrdSpec::cmp_spec(&s[a], &s[b]) is Less);
    }
}

// ---------------------------------------------------------------------------
// What placement keeps
// ---------------------------------------------------------------------------

proof fn lemma_placed_wf<P: ProcSource>(
    pre: TreeView,
    post: TreeView,
    pid: u32,
    comm: Seq<char>,
    proc: &P,
    r: Option<u32>,
)
    requires
        pre.wf(),
        placed(pre, post, pid, comm, proc, r),
    ensures
        post.wf(),
{
}

proof fn lemma_placed_counters<P: ProcSource>(
    pre: TreeView,
    post: TreeView,
    pid: u32,
    comm: Seq<char>,
    proc: &P,
    r: Option<u32>,
)
    requires
        placed(pre, post, pid, comm, proc, r),
    ensures
        post.dbg_file_total == pre.dbg_file_total,
        post.dbg_attributed == pre.dbg_attributed,
        post.dbg_unattributed == pre.dbg_unattributed,
{
}

/// The chain depends on the parent links and on which processes are tracked alone.
proof fn lemma_chain(a: TreeView, b: TreeView, pid: u32, links: nat)
    requires
        a.parents == b.parents,
        a.roots == b.roots,
    ensures
        a.chain(pid, links) == b.chain(pid, links),
    decreases links,
{
    if links > 0 && a.parents.contains_key(pid) {
        lemma_chain(a, b, a.parents[pid], (links - 1) as nat);
    }
}

// ---------------------------------------------------------------------------
// What holds of every operation and every tree
// ---------------------------------------------------------------------------

/// The state of a path after a series of accesses to it.
pub open spec fn state_after(accesses: Seq<Access>) -> PathState
    decreases accesses.len(),
{
    if accesses.len() == 0 {
        PathState::untouched()
    } else {
        state_after(accesses.drop_last()).after(accesses.last())
    }
}

/// Whether an access leaves content behind.
pub open spec fn writes(a: Access) -> bool {
    a is Write || a is Create || a is Truncate
}

/// Whether the deletion at `i` was not undone by a later write.
pub open spec fn stays_deleted(accesses: Seq<Access>, i: int) -> bool {
    &&& 0 <= i < accesses.len()
    &&& accesses[i] is Delete
    &&& forall|j: int| i < j < accesses.len() ==> !writes(#[trigger] accesses[j])
}

/// Whether the write at `i` was not undone by a later deletion.
pub open spec fn stays_written(accesses: Seq<Access>, i: int) -> bool {
    &&& 0 <= i < accesses.len()
    &&& writes(accesses[i])
    &&& forall|j: int| i < j < accesses.len() ==> !(#[trigger] accesses[j] is Delete)
}

/// What a series of accesses makes of a path. It counts as read exactly when it was
/// read, as written exactly when something wrote, created or truncated it, and as
/// deleted exactly when some deletion was followed by no write. It is an input exactly
/// when it was read and nothing else ever happened to it, and an output exactly when
/// it was written and not deleted after that.
pub proof fn a_path_is_classified_by_all_its_accesses(accesses: Seq<Access>)
    ensures
        state_after(accesses).read <==> accesses.contains(Access::Read),
        state_after(accesses).wrote <==> exists|i: int| 0 <= i < accesses.len() && writes(#[trigger] accesses[i]),
        state_after(accesses).deleted <==> exists|i: int| #[trigger] stays_deleted(accesses, i),
        state_after(accesses).is_input() <==> accesses.contains(Access::Read) && forall|i: int|
            0 <= i < accesses.len() ==> #[trigger] accesses[i] is Read,
        state_after(accesses).is_output() <==> exists|i: int| #[trigger] stays_written(accesses, i),
    decreases accesses.len(),
{
    if accesses.len() > 0 {
        let before = accesses.drop_last();
        let last = accesses.last();
        let n = accesses.len() - 1;
        a_path_is_classified_by_all_its_accesses(before);
        assert(accesses[n] == last);
        assert forall|i: int| 0 <= i < n implies accesses[i] == #[trigger] before[i] by {}
        if before.contains(Access::Read) {
            let i = choose|i: int| 0 <= i < before.len() && before[i] == Access::Read;
            assert(accesses[i] == Access::Read);
        }
        if accesses.contains(Access::Read) && !(last is Read) {
            let i = choose|i: int| 0 <= i < accesses.len() && accesses[i] == Access::Read;
            assert(before[i] == Access::Read);
        }
        if exists|i: int| 0 <= i < before.len() && writes(#[trigger] before[i]) {
            let i = choose|i: int| 0 <= i < before.len() && writes(#[trigger] before[i]);
            assert(writes(accesses[i]));
        }
        if (exists|i: int| 0 <= i < accesses.len() && writes(#[trigger] accesses[i])) && !writes(last) {
            let i = choose|i: int| 0 <= i < accesses.len() && writes(#[trigger] accesses[i]);
            assert(writes(before[i]));
        }
        lemma_deleted_step(accesses);
        lemma_written_step(accesses);
        if accesses.contains(Access::Read) && forall|i: int|
            0 <= i < accesses.len() ==> #[trigger] accesses[i] is Read {
            assert forall|i: int| !(#[trigger] stays_deleted(accesses, i)) by {}
        }
        if state_after(accesses).is_input() {
            lemma_unwritten(accesses);
        }
    }
}

proof fn lemma_written_step(accesses: Seq<Access>)
    requires
        accesses.len() > 0,
        state_after(accesses.drop_last()).is_output() <==> exists|i: int|
            #[trigger] stays_written(accesses.drop_last(), i),
    ensures
        state_after(accesses).is_output() <==> exists|i: int| #[trigger] stays_written(accesses, i),
{
    let before = accesses.drop_last();
    let last = accesses.last();
    let n = accesses.len() - 1;
    if writes(last) {
        assert(stays_written(accesses, n));
    } else if last is Delete {
        assert forall|i: int| !(#[trigger] stays_written(accesses, i)) by {
            assert(accesses[n] is Delete);
        }
    } else {
        if exists|i: int| #[trigger] stays_written(before, i) {
            let i = choose|i: int| #[trigger] stays_written(before, i);
            assert forall|j: int| i < j < accesses.len() implies !(#[trigger] accesses[j] is Delete) by {
                if j < n {
                    assert(before[j] == accesses[j]);
                }
            }
            assert(stays_written(accesses, i));
        }
        if exists|i: int| #[trigger] stays_written(accesses, i) {
            let i = choose|i: int| #[trigger] stays_written(accesses, i);
            assert forall|j: int| i < j < before.len() implies !(#[trigger] before[j] is Delete) by {
                assert(before[j] == accesses[j]);
            }
            assert(stays_written(before, i));
        }
    }
}

/// A path that is neither written nor deleted was only ever read.
proof fn lemma_unwritten(accesses: Seq<Access>)
    requires
        !state_after(accesses).wrote,
        !state_after(accesses).deleted,
    ensures
        forall|i: int| 0 <= i < accesses.len() ==> #[trigger] accesses[i] is Read,
    decreases accesses.len(),
{
    if accesses.len() > 0 {
        let before = accesses.drop_last();
        lemma_unwritten(before);
        assert forall|i: int| 0 <= i < accesses.len() implies #[trigger] accesses[i] is Read by {
            if i < before.len() {
                assert(before[i] == accesses[i]);
            }
        }
    }
}

proof fn lemma_deleted_step(accesses: Seq<Access>)
    requires
        accesses.len() > 0,
        state_after(accesses.drop_last()).deleted <==> exists|i: int|
            #[trigger] stays_deleted(accesses.drop_last(), i),
    ensures
        state_after(accesses).deleted <==> exists|i: int| #[trigger] stays_deleted(accesses, i),
{
    let before = accesses.drop_last();
    let last = accesses.last();
    let n = accesses.len() - 1;
    if last is Delete {
        assert(stays_deleted(accesses, n));
    } else if writes(last) {
        assert forall|i: int| !(#[trigger] stays_deleted(accesses, i)) by {
            assert(writes(accesses[n]));
        }
    } else {
        if exists|i: int| #[trigger] stays_deleted(before, i) {
            let i = choose|i: int| #[trigger] stays_deleted(before, i);
            assert forall|j: int| i < j < accesses.len() implies !writes(#[trigger] accesses[j]) by {
                if j < n {
                    assert(before[j] == accesses[j]);
                }
            }
            assert(stays_deleted(accesses, i));
        }
        if exists|i: int| #[trigger] stays_deleted(accesses, i) {
            let i = choose|i: int| #[trigger] stays_deleted(accesses, i);
            assert forall|j: int| i < j < before.len() implies !writes(#[trigger] before[j]) by {
                assert(before[j] == accesses[j]);
            }
            assert(stays_deleted(before, i));
        }
    }
}

/// What a series of accesses, each to a path, makes of every path.
pub open spec fn paths_after(log: Seq<(Seq<char>, Access)>) -> Map<Seq<char>, PathState>
    decreases log.len(),
{
    if log.len() == 0 {
        Map::empty()
    } else {
        let before = paths_after(log.drop_last());
        let (path, access) = log.last();
        let state = if before.contains_key(path) {
            before[path]
        } else {
            PathState::untouched()
        };
        before.insert(path, state.after(access))
    }
}

/// The accesses of a log that concern `path`, in order.
pub open spec fn accesses_to(log: Seq<(Seq<char>, Access)>, path: Seq<char>) -> Seq<Access>
    decreases log.len(),
{
    if log.len() == 0 {
        Seq::empty()
    } else if log.last().0 == path {
        accesses_to(log.drop_last(), path).push(log.last().1)
    } else {
        accesses_to(log.drop_last(), path)
    }
}

/// Every path has the state that the accesses to that path alone make, in their order;
/// accesses to other paths do not matter, and a path without an access has no state.
pub proof fn every_path_has_the_state_of_its_own_accesses(log: Seq<(Seq<char>, Access)>, path: Seq<char>)
    ensures
        paths_after(log).contains_key(path) <==> accesses_to(log, path).len() > 0,
        paths_after(log).contains_key(path) ==> paths_after(log)[path] == state_after(accesses_to(log, path)),
    decreases log.len(),
{
    if log.len() > 0 {
        every_path_has_the_state_of_its_own_accesses(log.drop_last(), path);
        let before = accesses_to(log.drop_last(), path);
        if log.last().0 == path {
            assert(before.push(log.last().1).drop_last() =~= before);
            assert(before.len() == 0 ==> state_after(before) == PathState::untouched());
        }
    }
}

/// No path is both an input and an output; a path that was written is never an
/// input, even when it was read first.
pub proof fn inputs_and_outputs_are_disjoint(op: OperationView, path: Seq<char>)
    ensures
        !(op.has_input(path) && op.has_output(path)),
        op.state(path).wrote ==> !op.has_input(path),
        op.state(path).deleted ==> !op.has_input(path) && !op.has_output(path),
{
}

/// What an operation reports lies inside its working directory: without one it
/// reports nothing.
pub proof fn nothing_outside_the_working_directory_is_reported(op: OperationView, path: Seq<char>)
    requires
        op.has_input(path) || op.has_output(path),
    ensures
        op.working_directory is Some,
        scoped(path, op.working_directory->0),
{
    assert(op.scope_root().len() > 0);
}

/// The whitelist is searched in order: the entry found matches, no earlier entry
/// does, and none is found only when none matches.
pub proof fn the_first_matching_entry_wins(w: Seq<EntryView>, comm: Seq<char>)
    ensures
        match first_match(w, comm) {
            Some(e) => exists|i: int|
                {
                    &&& 0 <= i < w.len()
                    &&& #[trigger] w[i] == e
                    &&& comm_matches(comm, e.pattern)
                    &&& forall|j: int| 0 <= j < i ==> !comm_matches(comm, (#[trigger] w[j]).pattern)
                },
            None => forall|j: int| 0 <= j < w.len() ==> !comm_matches(comm, (#[trigger] w[j]).pattern),
        },
    decreases w.len(),
{
    if w.len() > 0 {
        if comm_matches(comm, w[0].pattern) {
            assert(w[0] == first_match(w, comm)->0);
        } else {
            let t = w.drop_first();
            the_first_matching_entry_wins(t, comm);
            match first_match(t, comm) {
                Some(e) => {
                    let i = choose|i: int|
                        {
                            &&& 0 <= i < t.len()
                            &&& #[trigger] t[i] == e
                            &&& comm_matches(comm, e.pattern)
                            &&& forall|j: int| 0 <= j < i ==> !comm_matches(comm, (#[trigger] t[j]).pattern)
                        };
                    assert(w[i + 1] == e);
                    assert forall|j: int| 0 <= j < i + 1 implies !comm_matches(comm, (#[trigger] w[j]).pattern) by {
                        if j > 0 {
                            assert(t[j - 1] == w[j]);
                        }
                    }
                },
                None => {
                    assert forall|j: int| 0 <= j < w.len() implies !comm_matches(comm, (#[trigger] w[j]).pattern) by {
                        if j > 0 {
                            assert(t[j - 1] == w[j]);
                        }
                    }
                },
            }
        }
    }
}

/// A pattern that the kernel's name field can hold is matched by that name alone.
pub proof fn a_short_pattern_is_matched_exactly(comm: Seq<char>, pattern: Seq<char>)
    requires
        encode_utf8(pattern).len() <= COMM_LEN,
    ensures
        comm_matches(comm, pattern) <==> comm == pattern,
{
    crate::text::lemma_same_bytes(comm, pattern);
}

/// Whether `line` goes from a process to its parent at every step.
pub open spec fn is_lineage(parents: Map<u32, u32>, line: Seq<u32>) -> bool {
    forall|i: int|
        0 <= i < line.len() - 1 ==> parents.contains_key(#[trigger] line[i]) && parents[line[i]] == line[i + 1]
}

/// The operation that an ancestor passes on: its own while it lives, and the one that it
/// left to its children once it exited.
pub open spec fn passed_on(t: TreeView, p: u32) -> Option<u32> {
    if t.roots.contains_key(p) {
        Some(t.roots[p])
    } else if t.heirs.contains_key(p) {
        Some(t.heirs[p])
    } else {
        None
    }
}

/// Inheritance: a process that is not itself tracked and whose name is on no whitelist
/// belongs to the operation of its nearest ancestor that is tracked or has left an
/// operation to its children, when that ancestor is at most [`MAX_ANCESTORS`] links away.
pub proof fn descendants_inherit_the_operation(t: TreeView, pid: u32, comm: Seq<char>, line: Seq<u32>)
    requires
        2 <= line.len() <= MAX_ANCESTORS + 1,
        line[0] == pid,
        is_lineage(t.parents, line),
        passed_on(t, line.last()) is Some,
        forall|i: int| 1 <= i < line.len() - 1 ==> passed_on(t, #[trigger] line[i]) is None,
        !t.roots.contains_key(pid),
        first_match(t.whitelist, comm) is None,
    ensures
        t.attribution(pid, comm) == Attribution::Inherited(passed_on(t, line.last())->0),
{
    lemma_lineage(t, line, MAX_ANCESTORS as nat);
}

proof fn lemma_lineage(t: TreeView, line: Seq<u32>, links: nat)
    requires
        2 <= line.len() <= links + 1,
        is_lineage(t.parents, line),
        passed_on(t, line.last()) is Some,
        forall|i: int| 1 <= i < line.len() - 1 ==> passed_on(t, #[trigger] line[i]) is None,
    ensures
        inherited_root(t.parents, t.roots, t.heirs, line[0], links) == passed_on(t, line.last()),
    decreases links,
{
    assert(t.parents.contains_key(line[0]) && t.parents[line[0]] == line[1]);
    if line.len() > 2 {
        let rest = line.drop_first();
        assert(passed_on(t, line[1]) is None);
        assert forall|i: int| 0 <= i < rest.len() - 1 implies t.parents.contains_key(#[trigger] rest[i])
            && t.parents[rest[i]] == rest[i + 1] by {
            assert(line[i + 1] == rest[i]);
        }
        assert forall|i: int| 1 <= i < rest.len() - 1 implies passed_on(t, #[trigger] rest[i]) is None by {
            assert(line[i + 1] == rest[i]);
        }
        lemma_lineage(t, rest, (links - 1) as nat);
    }
}

/// A descendant outlives its parents: when a process of an open operation exits, each of
/// its children that was not placed yet still belongs to that operation.
pub proof fn an_exit_leaves_the_operation_to_the_children(t: TreeView, pid: u32, child: u32, comm: Seq<char>)
    requires
        t.leaves(pid),
        child != pid,
        t.parents.contains_key(child),
        t.parents[child] == pid,
        !t.roots.contains_key(child),
        first_match(t.whitelist, comm) is None,
    ensures
        t.departed(pid).attribution(child, comm) == Attribution::Inherited(t.roots[pid]),
        t.attribution(child, comm) == t.departed(pid).attribution(child, comm),
{
    let (a, b) = (t, t.departed(pid));
    assert(b.parents[child] == pid && b.heirs[pid] == t.roots[pid] && !b.roots.contains_key(pid));
}

/// What an exited process has left lasts as long as its operation is open and no new
/// process has its number: no other process that is seen, placed or gone takes it away.
pub proof fn what_is_left_lasts_as_long_as_its_operation(
    t: TreeView,
    p: u32,
    pid: u32,
    ppid: u32,
    comm: Seq<char>,
    tag: Option<RunRecordType>,
    root: u32,
    c: RootCapture,
)
    requires
        t.wf(),
        t.heirs.contains_key(p),
        pid != p,
    ensures
        passed_on(t, p) == Some(t.heirs[p]),
        passed_on(t.linked(pid, ppid), p) == passed_on(t, p),
        passed_on(t.opened(pid, comm, tag, c), p) == passed_on(t, p),
        passed_on(t.joined(pid, root), p) == passed_on(t, p),
        pid != t.heirs[p] ==> passed_on(t.departed(pid), p) == passed_on(t, p),
        pid == t.heirs[p] ==> passed_on(t.departed(pid), p) is None,
{
    if t.closes(pid) && pid != t.heirs[p] {
        assert(t.departed(pid).heirs.contains_key(p));
    }
}

/// No operation is reported twice: once all are finalized there is none left to finalize,
/// and the exit of a root that was finalized closes nothing.
pub proof fn a_finalized_operation_is_not_closed_again<P: ProcSource>(
    t: TreeView,
    e: ExitView,
    proc: &P,
    post: TreeView,
    r: Option<Operation>,
)
    requires
        t.wf(),
        t.operations.contains_key(e.pid),
        exit_step(t.finalized(), post, e, proc, r),
    ensures
        r is None,
        t.finalized().operations.len() == 0,
        post.operations.len() == 0,
{
    let f = t.finalized();
    assert(f.attribution(e.pid, e.comm) == Attribution::Member(e.pid));
    assert(f.operations =~= Map::<u32, OperationView>::empty());
}

/// Isolation: a file access by a process outside every operation changes no
/// operation and places no process.
pub proof fn a_foreign_access_changes_no_operation<P: ProcSource>(
    pre: TreeView,
    mid: TreeView,
    e: FileView,
    proc: &P,
    r: Option<u32>,
)
    requires
        pre.attribution(e.pid, e.comm) is Unattributed,
        placed(pre, mid, e.pid, e.comm, proc, r),
    ensures
        r is None,
        mid.file_unattributed(e).operations == pre.operations,
        mid.file_unattributed(e).roots == pre.roots,
{
}

/// A file access by a process of the operation rooted at `root` is recorded there
/// and nowhere else.
pub proof fn an_access_is_recorded_in_one_operation(t: TreeView, e: FileView, root: u32, other: u32)
    requires
        t.operations.contains_key(root),
    ensures
        t.file_attributed(e, root).operations[root] == t.operations[root].recorded(e.path, e.access),
        t.file_attributed(e, root).operations.dom() == t.operations.dom(),
        other != root && t.operations.contains_key(other) ==> t.file_attributed(e, root).operations[other]
            == t.operations[other],
{
    assert(t.file_attributed(e, root).operations.dom() =~= t.operations.dom());
}

/// Placing a process never closes an operation and never changes what an open one
/// has recorded; at most it adds the process to one, or opens one rooted at it.
pub proof fn placement_keeps_what_was_recorded<P: ProcSource>(
    pre: TreeView,
    post: TreeView,
    pid: u32,
    comm: Seq<char>,
    proc: &P,
    r: Option<u32>,
    other: u32,
)
    requires
        placed(pre, post, pid, comm, proc, r),
        pre.operations.contains_key(other),
        other != pid,
    ensures
        post.operations.contains_key(other),
        post.operations[other].paths == pre.operations[other].paths,
        post.operations[other].pids.subset_of(pre.operations[other].pids.insert(pid)),
        pre.operations[other].pids.subset_of(post.operations[other].pids),
{
}

/// One operation yields one record: the exit of its root takes it, and the root's
/// place in it, out of the tree, and leaves every other operation as it was.
pub proof fn a_root_exit_closes_one_operation(t: TreeView, pid: u32, other: u32)
    requires
        t.closes(pid),
    ensures
        !t.departed(pid).operations.contains_key(pid),
        !t.departed(pid).roots.contains_key(pid),
        !t.departed(pid).closes(pid),
        other != pid ==> (t.departed(pid).operations.contains_key(other) <==> t.operations.contains_key(other)),
        other != pid && t.operations.contains_key(other) ==> t.departed(pid).operations[other]
            == t.operations[other],
{
}

/// The exit of a process that roots no operation closes none.
pub proof fn another_exit_closes_no_operation(t: TreeView, pid: u32)
    requires
        !t.closes(pid),
    ensures
        t.departed(pid).operations == t.operations,
{
}

/// A new operation never takes the place of an open one.
pub proof fn an_open_operation_is_never_replaced(t: TreeView, pid: u32, comm: Seq<char>)
    requires
        t.wf(),
        t.attribution(pid, comm) is Root,
    ensures
        !t.operations.contains_key(pid),
{
}

/// The exit code of an operation is the one that its root's exit carried, also when that
/// carried none.
pub proof fn an_operation_ends_with_its_roots_exit_code(op: OperationView, exit_code: Option<i32>, at: Timestamp)
    ensures
        op.ended(exit_code, at).exit_code == exit_code,
        op.ended(exit_code, at).paths == op.paths,
        op.ended(exit_code, at).command == op.command,
        op.ended(exit_code, at).working_directory == op.working_directory,
{
}

/// What is tracked stays in its operation: neither a new name nor a new parent moves
/// it while it lives.
pub proof fn a_tracked_process_keeps_its_operation(t: TreeView, pid: u32, ppid: u32, comm: Seq<char>, renamed: Seq<char>)
    requires
        t.roots.contains_key(pid),
    ensures
        t.attribution(pid, comm) == Attribution::Member(t.roots[pid]),
        t.linked(pid, ppid).attribution(pid, renamed) == t.attribution(pid, comm),
{
}

} // verus!
