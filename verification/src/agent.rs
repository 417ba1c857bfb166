//! The agent's decisions: which hooks it attaches, in which order it drains, finalizes and
//! finishes, how it feeds events to the process tree, and what becomes of each operation.

use vstd::prelude::*;

use crate::adapter::CiAdapter;
use crate::assemble::{blocked, obstacle, AssembleError};
use crate::events::{decode, decoded, opt_event, Access, ByteOrder, Event, EventView};
use crate::observe::{
    exec_step, exit_step, file_step, paths_after, placed, refreshed, Attribution, EntryView, Operation, OperationView,
    PathState, ProcSource, ProcessTree, TreeView,
};
use crate::reconcile::{Reconciler, ReconcilerView};
use crate::scope::starts_absolute;
use crate::submit::SubmitOutcome;
use crate::text::{opt_str, opt_text};

verus! {

// ---------------------------------------------------------------------------
// Hooks
// ---------------------------------------------------------------------------

/// A kernel program and the tracepoint that it is attached to.
#[derive(Clone, Copy, Debug)]
pub struct Hook {
    pub program: &'static str,
    pub category: &'static str,
    pub name: &'static str,
    /// Whether the agent cannot do without it.
    pub required: bool,
}

/// What a [`Hook`] says.
pub struct HookView {
    pub program: Seq<char>,
    pub category: Seq<char>,
    pub name: Seq<char>,
    pub required: bool,
}

impl View for Hook {
    type V = HookView;

    open spec fn view(&self) -> HookView {
        HookView {
            program: self.program@,
            category: self.category@,
            name: self.name@,
            required: self.required,
        }
    }
}

/// A hook by its parts.
pub open spec fn hook_view(program: Seq<char>, category: Seq<char>, name: Seq<char>, required: bool) -> HookView {
    HookView { program, category, name, required }
}

/// The hooks in the order in which they are attached: the core set, which is required, and
/// then the broadened set, which older kernels may lack.
pub open spec fn hook_set() -> Seq<HookView> {
    seq![
        hook_view("trace_fork"@, "sched"@, "sched_process_fork"@, true),
        hook_view("trace_exec"@, "sched"@, "sched_process_exec"@, true),
        hook_view("trace_exit"@, "sched"@, "sched_process_exit"@, true),
        hook_view("trace_exit_group"@, "syscalls"@, "sys_enter_exit_group"@, true),
        hook_view("trace_openat"@, "syscalls"@, "sys_enter_openat"@, true),
        hook_view("trace_openat2"@, "syscalls"@, "sys_enter_openat2"@, false),
        hook_view("trace_renameat2"@, "syscalls"@, "sys_enter_renameat2"@, false),
        hook_view("trace_unlinkat"@, "syscalls"@, "sys_enter_unlinkat"@, false),
        hook_view("trace_truncate"@, "syscalls"@, "sys_enter_truncate"@, false),
    ]
}

/// The hooks in the order in which they are attached.
pub fn hooks() -> (h: Vec<Hook>)
    ensures
        h@.map_values(|k: Hook| k@) == hook_set(),
{
    let mut h: Vec<Hook> = Vec::new();
    h.push(Hook { program: "trace_fork", category: "sched", name: "sched_process_fork", required: true });
    h.push(Hook { program: "trace_exec", category: "sched", name: "sched_process_exec", required: true });
    h.push(Hook { program: "trace_exit", category: "sched", name: "sched_process_exit", required: true });
    h.push(Hook { program: "trace_exit_group", category: "syscalls", name: "sys_enter_exit_group", required: true });
    h.push(Hook { program: "trace_openat", category: "syscalls", name: "sys_enter_openat", required: true });
    h.push(Hook { program: "trace_openat2", category: "syscalls", name: "sys_enter_openat2", required: false });
    h.push(Hook { program: "trace_renameat2", category: "syscalls", name: "sys_enter_renameat2", required: false });
    h.push(Hook { program: "trace_unlinkat", category: "syscalls", name: "sys_enter_unlinkat", required: false });
    h.push(Hook { program: "trace_truncate", category: "syscalls", name: "sys_enter_truncate", required: false });
    assert(h@.map_values(|k: Hook| k@) =~= hook_set());
    h
}

// ---------------------------------------------------------------------------
// Events
// ---------------------------------------------------------------------------

/// Whether the tree `post` is `pre` after a ring-buffer record that holds `event`, and `r`
/// the operation that it closed. A record that holds no event changes nothing.
pub open spec fn dispatched<P: ProcSource>(
    pre: TreeView,
    post: TreeView,
    event: Option<EventView>,
    proc: &P,
    r: Option<Operation>,
) -> bool {
    match event {
        None => post == pre && r is None,
        Some(EventView::Exec(e)) => exec_step(pre, post, e, proc) && r is None,
        Some(EventView::File(e)) => file_step(pre, post, e, proc) && r is None,
        Some(EventView::Exit(e)) => exit_step(pre, post, e, proc, r),
    }
}

/// Decode one ring-buffer record, written in the byte order of the host, and feed it to the
/// process tree, returning a finalized operation when a root exits.
pub fn dispatch<P: ProcSource>(data: &[u8], tree: &mut ProcessTree, proc: &P) -> (r: Option<Operation>)
    requires
        old(tree)@.wf(),
        old(tree)@.dbg_file_total < u64::MAX,
    ensures
        exists|order: ByteOrder| #[trigger]
            order.is_native() && dispatched(old(tree)@, final(tree)@, decoded(data@, order), proc, r),
        final(tree)@.wf(),
{
    feed(decode(data), tree, proc)
}

/// Feed what one ring-buffer record holds to the process tree, returning a finalized
/// operation when a root exits.
pub fn feed<P: ProcSource>(event: Option<Event>, tree: &mut ProcessTree, proc: &P) -> (r: Option<Operation>)
    requires
        old(tree)@.wf(),
        old(tree)@.dbg_file_total < u64::MAX,
    ensures
        dispatched(old(tree)@, final(tree)@, opt_event(event), proc, r),
        final(tree)@.wf(),
{
    match event {
        None => None,
        Some(Event::Exec(e)) => {
            tree.on_exec(&e, proc);
            None
        },
        Some(Event::File(e)) => {
            tree.on_file(&e, proc);
            None
        },
        Some(Event::Exit(e)) => tree.on_exit(&e, proc),
    }
}

/// What the processes of each operation have done to files so far, in order.
pub type AccessLogs = Map<u32, Seq<(Seq<char>, Access)>>;

/// The operation that a process with this name belongs to, or comes to belong to.
pub open spec fn operation_of(t: TreeView, pid: u32, comm: Seq<char>) -> Option<u32> {
    match t.attribution(pid, comm) {
        Attribution::Member(root) => Some(root),
        Attribution::Root(_) => Some(pid),
        Attribution::Inherited(root) => Some(root),
        Attribution::Unattributed => None,
    }
}

/// The logs with an empty one for the operation that the process starts, if it does.
pub open spec fn logs_with(t: TreeView, logs: AccessLogs, pid: u32, comm: Seq<char>) -> AccessLogs {
    if t.attribution(pid, comm) is Root {
        logs.insert(pid, Seq::empty())
    } else {
        logs
    }
}

/// The logs after a ring-buffer record that holds `event`: a file access goes to the end of the log of the
/// operation that its process belongs to, and nothing else does.
pub open spec fn logs_after(t: TreeView, logs: AccessLogs, event: Option<EventView>) -> AccessLogs {
    match event {
        None => logs,
        Some(EventView::Exec(e)) => logs_with(t.linked(e.pid, e.ppid), logs, e.pid, e.comm),
        Some(EventView::Exit(e)) => logs_with(t, logs, e.pid, e.comm),
        Some(EventView::File(e)) => {
            let l = logs_with(t, logs, e.pid, e.comm);
            match operation_of(t, e.pid, e.comm) {
                Some(root) => l.insert(root, l[root].push((e.path, e.access))),
                None => l,
            }
        },
    }
}

/// Whether every open operation holds exactly what its log makes of each path.
pub open spec fn explained(t: TreeView, logs: AccessLogs) -> bool {
    forall|k: u32| #[trigger]
        t.operations.contains_key(k) ==> logs.contains_key(k) && t.operations[k].paths == paths_after(logs[k])
}

proof fn lemma_placed_explained<P: ProcSource>(
    pre: TreeView,
    mid: TreeView,
    pid: u32,
    comm: Seq<char>,
    proc: &P,
    r: Option<u32>,
    logs: AccessLogs,
)
    requires
        explained(pre, logs),
        placed(pre, mid, pid, comm, proc, r),
    ensures
        explained(mid, logs_with(pre, logs, pid, comm)),
        r == operation_of(pre, pid, comm),
{
    let l = logs_with(pre, logs, pid, comm);
    assert(paths_after(Seq::empty()) =~= Map::<Seq<char>, PathState>::empty());
    assert forall|k: u32| #[trigger] mid.operations.contains_key(k) implies l.contains_key(k) && mid.operations[k].paths
        == paths_after(l[k]) by {
        match pre.attribution(pid, comm) {
            Attribution::Root(_) => {
                if k != pid {
                    assert(pre.operations.contains_key(k));
                }
            },
            _ => {
                assert(pre.operations.contains_key(k));
            },
        }
    }
}

/// A tree that has seen nothing has nothing to explain.
pub proof fn a_new_tree_is_explained(whitelist: Seq<EntryView>, logs: AccessLogs)
    ensures
        explained(TreeView::empty(whitelist), logs),
{
}

/// The tree holds what its processes do: every ring-buffer record keeps each open operation
/// equal to what the logged accesses of its own processes make of each path. The operation
/// that a record closes leaves with exactly what its log made of each path.
pub proof fn an_operation_holds_what_its_processes_did<P: ProcSource>(
    pre: TreeView,
    post: TreeView,
    event: Option<EventView>,
    proc: &P,
    r: Option<Operation>,
    logs: AccessLogs,
)
    requires
        explained(pre, logs),
        dispatched(pre, post, event, proc, r),
    ensures
        explained(post, logs_after(pre, logs, event)),
        r matches Some(op) ==> event matches Some(EventView::Exit(e)) && op@.paths == paths_after(
            logs_after(pre, logs, event)[e.pid],
        ),
{
    let l = logs_after(pre, logs, event);
    match event {
        None => {},
        Some(EventView::Exec(e)) => {
            let start = pre.linked(e.pid, e.ppid);
            let seen = start.exec_sampled(e);
            let (mid, root) = choose|mid: TreeView, root: Option<u32>| #[trigger]
                placed(seen, mid, e.pid, e.comm, proc, root) && refreshed(mid, post, e.pid, proc);
            assert(explained(seen, logs));
            assert(seen.attribution(e.pid, e.comm) == start.attribution(e.pid, e.comm));
            lemma_placed_explained(seen, mid, e.pid, e.comm, proc, root, logs);
            assert forall|k: u32| #[trigger] post.operations.contains_key(k) implies l.contains_key(k)
                && post.operations[k].paths == paths_after(l[k]) by {
                assert(mid.operations.contains_key(k));
            }
        },
        Some(EventView::File(e)) => {
            let (mid, root) = choose|mid: TreeView, root: Option<u32>| #[trigger]
                placed(pre, mid, e.pid, e.comm, proc, root) && post == (match root {
                    Some(root) => mid.file_attributed(e, root),
                    None => mid.file_unattributed(e),
                });
            lemma_placed_explained(pre, mid, e.pid, e.comm, proc, root, logs);
            let before = logs_with(pre, logs, e.pid, e.comm);
            assert forall|k: u32| #[trigger] post.operations.contains_key(k) implies l.contains_key(k)
                && post.operations[k].paths == paths_after(l[k]) by {
                assert(mid.operations.contains_key(k));
                if root == Some(k) {
                    assert(before[k].push((e.path, e.access)).drop_last() =~= before[k]);
                }
            }
        },
        Some(EventView::Exit(e)) => {
            let (mid, root) = choose|mid: TreeView, root: Option<u32>|
                {
                    &&& #[trigger] placed(pre, mid, e.pid, e.comm, proc, root)
                    &&& post == mid.departed(e.pid)
                    &&& r is Some <==> mid.closes(e.pid)
                    &&& r matches Some(op) ==> {
                        &&& op.end_time is Some
                        &&& op.end_time->0.is_reading()
                        &&& op@ == mid.operations[e.pid].ended(e.exit_code, op.end_time->0)
                    }
                };
            lemma_placed_explained(pre, mid, e.pid, e.comm, proc, root, logs);
            assert forall|k: u32| #[trigger] post.operations.contains_key(k) implies l.contains_key(k)
                && post.operations[k].paths == paths_after(l[k]) by {
                assert(mid.operations.contains_key(k));
            }
            if r is Some {
                assert(mid.operations.contains_key(e.pid));
            }
        },
    }
}

// ---------------------------------------------------------------------------
// The life of the agent
// ---------------------------------------------------------------------------

/// Where the agent stands.
#[derive(Clone, Copy, Debug, PartialEq, Eq, Structural)]
pub enum AgentPhase {
    /// Taking records out of the ring buffer.
    Draining,
    /// The ring buffer is empty; waiting for more or for a stop signal.
    Waiting,
    /// A stop signal came; taking what is still in the ring buffer.
    LastDrain,
    /// Finalizing the operations whose root never exited.
    Finalizing,
    /// Resending buffered records.
    Flushing,
    /// Reconciling.
    Finishing,
    /// Over.
    Over,
}

/// What happened to the agent.
#[derive(Clone, Copy, Debug, PartialEq, Eq, Structural)]
pub enum AgentEvent {
    /// A record was taken and handled.
    Record,
    /// The ring buffer was empty.
    Empty,
    /// The wait ran out.
    Tick,
    /// A stop signal came during the wait.
    Stop,
    /// What the phase is for was done.
    Completed,
}

/// How long the agent waits for more records, in milliseconds.
pub const WAIT_MS: u64 = 10;

/// Where the agent goes from `phase` when `event` happens. Without a submitter nothing is
/// resent.
pub open spec fn phase_after(phase: AgentPhase, event: AgentEvent, has_submitter: bool) -> AgentPhase {
    match (phase, event) {
        (AgentPhase::Draining, AgentEvent::Empty) => AgentPhase::Waiting,
        (AgentPhase::Waiting, AgentEvent::Tick) => AgentPhase::Draining,
        (AgentPhase::Waiting, AgentEvent::Stop) => AgentPhase::LastDrain,
        (AgentPhase::LastDrain, AgentEvent::Empty) => AgentPhase::Finalizing,
        (AgentPhase::Finalizing, AgentEvent::Completed) => if has_submitter {
            AgentPhase::Flushing
        } else {
            AgentPhase::Finishing
        },
        (AgentPhase::Flushing, AgentEvent::Completed) => AgentPhase::Finishing,
        (AgentPhase::Finishing, AgentEvent::Completed) => AgentPhase::Over,
        _ => phase,
    }
}

/// Where the agent goes from `phase` when `event` happens.
pub fn advance(phase: AgentPhase, event: AgentEvent, has_submitter: bool) -> (next: AgentPhase)
    ensures
        next == phase_after(phase, event, has_submitter),
{
    match (phase, event) {
        (AgentPhase::Draining, AgentEvent::Empty) => AgentPhase::Waiting,
        (AgentPhase::Waiting, AgentEvent::Tick) => AgentPhase::Draining,
        (AgentPhase::Waiting, AgentEvent::Stop) => AgentPhase::LastDrain,
        (AgentPhase::LastDrain, AgentEvent::Empty) => AgentPhase::Finalizing,
        (AgentPhase::Finalizing, AgentEvent::Completed) => if has_submitter {
            AgentPhase::Flushing
        } else {
            AgentPhase::Finishing
        },
        (AgentPhase::Flushing, AgentEvent::Completed) => AgentPhase::Finishing,
        (AgentPhase::Finishing, AgentEvent::Completed) => AgentPhase::Over,
        _ => phase,
    }
}

/// How far the agent has come.
pub open spec fn progress(phase: AgentPhase) -> nat {
    match phase {
        AgentPhase::Draining | AgentPhase::Waiting => 0,
        AgentPhase::LastDrain => 1,
        AgentPhase::Finalizing => 2,
        AgentPhase::Flushing => 3,
        AgentPhase::Finishing => 4,
        AgentPhase::Over => 5,
    }
}

/// The agent never goes back once it was stopped; it stops draining only on a stop signal,
/// finalizes only once the ring buffer was found empty after that, and reconciles only
/// after every open operation was finalized and, with a submitter, after the buffered
/// records were resent.
pub proof fn shutdown_keeps_its_order(phase: AgentPhase, event: AgentEvent, has_submitter: bool)
    ensures
        progress(phase) <= progress(phase_after(phase, event, has_submitter)),
        progress(phase) == 0 && progress(phase_after(phase, event, has_submitter)) > 0 ==> phase is Waiting
            && event is Stop,
        phase_after(phase, event, has_submitter) is Finalizing && !(phase is Finalizing) ==> phase is LastDrain
            && event is Empty,
        phase_after(phase, event, has_submitter) is Finishing && !(phase is Finishing) ==> event is Completed && (
        phase is Flushing || (phase is Finalizing && !has_submitter)),
        phase_after(phase, event, has_submitter) is Over && !(phase is Over) ==> phase is Finishing,
{
}

// ---------------------------------------------------------------------------
// The fate of an operation
// ---------------------------------------------------------------------------

/// The root of the repository that the operation worked in.
pub fn repo_root_of(op: &Operation) -> (s: String)
    ensures
        s@ == op@.scope_root(),
{
    match &op.working_directory {
        Some(wd) => wd.clone(),
        None => {
            let s = String::new();
            assert(s@ =~= Seq::<char>::empty());
            s
        },
    }
}

/// The directory that an operation without one is taken to have worked in: the workspace,
/// when it is known by an absolute path.
pub open spec fn fallback_directory(workspace: Option<Seq<char>>) -> Option<Seq<char>> {
    match workspace {
        Some(w) => if w.len() > 0 && w[0] == '/' {
            Some(w)
        } else {
            None
        },
        None => None,
    }
}

/// Fill in the working directory that could not be captured with the job's workspace, a
/// coarser fallback; a directory that was captured is kept.
pub fn fill_directory(op: &mut Operation, workspace: Option<&str>)
    ensures
        final(op)@ == old(op)@.filled(None, fallback_directory(opt_str(workspace))),
{
    if op.working_directory.is_none() {
        if let Some(w) = workspace {
            if starts_absolute(w) {
                op.working_directory = Some(w.to_owned());
            }
        }
    }
    assert(op@ =~= old(op)@.filled(None, fallback_directory(opt_str(workspace))));
}

/// Count an operation as observed, and tell why it cannot be assembled, if it cannot.
pub fn begin<A: CiAdapter>(reconciler: &mut Reconciler, op: &Operation, adapter: &A) -> (r: Option<AssembleError>)
    requires
        old(reconciler).observed < u64::MAX,
    ensures
        final(reconciler)@ == (ReconcilerView { observed: old(reconciler)@.observed + 1, ..old(reconciler)@ }),
        forall|fate: Fate| #[trigger] settled(final(reconciler)@, fate) == accounted(old(reconciler)@, fate),
        r == obstacle(op@, adapter.facts()),
{
    reconciler.record_observed();
    blocked(op, adapter)
}

/// Account for an assembled record: a delivered one is counted; one that the pipeline calls
/// malformed leaves a gap and is never sent again; any other one is to be buffered in the
/// file that is returned. Without a submitter there is no outcome, and every record is
/// buffered.
pub fn settle(reconciler: &mut Reconciler, outcome: Option<&SubmitOutcome>) -> (buffer: Option<String>)
    requires
        old(reconciler).submitted < u64::MAX,
        old(reconciler).next_buffer_seq < u64::MAX,
    ensures
        final(reconciler)@ == settled(old(reconciler)@, fate_of(outcome)),
        opt_text(buffer) == (if fate_of(outcome) is Buffered {
            Some(old(reconciler)@.buffer_path())
        } else {
            None
        }),
{
    match outcome {
        Some(SubmitOutcome::Success { .. }) => {
            reconciler.record_submitted();
            None
        },
        Some(SubmitOutcome::InvalidRecord) => None,
        _ => Some(reconciler.buffer()),
    }
}

/// What became of an observed operation.
pub enum Fate {
    /// It could not be assembled.
    Unassembled,
    /// Its record was delivered.
    Delivered,
    /// Its record was called malformed, and is not sent again.
    Refused,
    /// Its record was buffered.
    Buffered,
}

/// What becomes of an assembled record with this outcome.
pub open spec fn fate_of(outcome: Option<&SubmitOutcome>) -> Fate {
    match outcome {
        Some(SubmitOutcome::Success { .. }) => Fate::Delivered,
        Some(SubmitOutcome::InvalidRecord) => Fate::Refused,
        _ => Fate::Buffered,
    }
}

/// The counts after an assembled record met its fate.
pub open spec fn settled(r: ReconcilerView, fate: Fate) -> ReconcilerView {
    match fate {
        Fate::Delivered => ReconcilerView { submitted: r.submitted + 1, ..r },
        Fate::Buffered => ReconcilerView { next_buffer_seq: r.next_buffer_seq + 1, ..r },
        Fate::Refused | Fate::Unassembled => r,
    }
}

/// The counts after one operation.
pub open spec fn accounted(r: ReconcilerView, fate: Fate) -> ReconcilerView {
    settled(ReconcilerView { observed: r.observed + 1, ..r }, fate)
}

/// The counts after a series of operations.
pub open spec fn all_accounted(r: ReconcilerView, fates: Seq<Fate>) -> ReconcilerView
    decreases fates.len(),
{
    if fates.len() == 0 {
        r
    } else {
        accounted(all_accounted(r, fates.drop_last()), fates.last())
    }
}

/// How many of the operations met this fate.
pub open spec fn tally(fates: Seq<Fate>, fate: Fate) -> nat {
    fates.filter(|f: Fate| f == fate).len()
}

proof fn lemma_tally_step(fates: Seq<Fate>, fate: Fate)
    requires
        fates.len() > 0,
    ensures
        tally(fates, fate) == tally(fates.drop_last(), fate) + (if fates.last() == fate {
            1nat
        } else {
            0nat
        }),
{
    reveal(Seq::filter);
}

proof fn lemma_accounted(state_dir: Seq<char>, fates: Seq<Fate>)
    ensures
        ({
            let r = all_accounted(ReconcilerView::fresh(state_dir), fates);
            &&& r.observed == fates.len()
            &&& r.submitted == tally(fates, Fate::Delivered)
            &&& r.next_buffer_seq == tally(fates, Fate::Buffered)
            &&& r.observed == r.submitted + r.next_buffer_seq + tally(fates, Fate::Unassembled) + tally(
                fates,
                Fate::Refused,
            )
            &&& !r.blind
        }),
    decreases fates.len(),
{
    if fates.len() > 0 {
        lemma_accounted(state_dir, fates.drop_last());
        lemma_tally_step(fates, Fate::Delivered);
        lemma_tally_step(fates, Fate::Buffered);
        lemma_tally_step(fates, Fate::Unassembled);
        lemma_tally_step(fates, Fate::Refused);
    } else {
        reveal(Seq::filter);
    }
}

/// A clean job has no gap: after any series of operations, of whose buffered records
/// `resent` were delivered later, coverage is clean exactly when every operation could be
/// assembled, no record was refused, and every buffered record was delivered after all.
pub proof fn clean_means_every_operation_was_delivered(state_dir: Seq<char>, fates: Seq<Fate>, resent: nat)
    requires
        resent <= tally(fates, Fate::Buffered),
    ensures
        ({
            let r = all_accounted(ReconcilerView::fresh(state_dir), fates);
            let end = ReconcilerView { submitted: r.submitted + resent, ..r };
            end.coverage() is Clean <==> tally(fates, Fate::Unassembled) == 0 && tally(fates, Fate::Refused) == 0
                && resent == tally(fates, Fate::Buffered)
        }),
{
    lemma_accounted(state_dir, fates);
}

/// A record that the pipeline calls malformed is final for the whole job: no buffer file is
/// made for it, so nothing is left to resend, and the job stays unknown however many
/// buffered records are delivered later.
pub proof fn a_refused_record_leaves_a_gap(state_dir: Seq<char>, fates: Seq<Fate>, resent: nat)
    requires
        resent <= tally(fates, Fate::Buffered),
    ensures
        ({
            let r = all_accounted(ReconcilerView::fresh(state_dir), fates);
            let refused = accounted(r, Fate::Refused);
            &&& refused.next_buffer_seq == r.next_buffer_seq
            &&& (ReconcilerView { submitted: refused.submitted + resent, ..refused }).coverage() is Unknown
        }),
{
    lemma_accounted(state_dir, fates);
}

// ---------------------------------------------------------------------------
// Starting up
// ---------------------------------------------------------------------------

/// What the agent does at startup.
#[derive(Clone, Copy, Debug, PartialEq, Eq, Structural)]
pub enum Startup {
    /// Capture.
    Capture,
    /// Produce no record, and do not fail the build.
    Skip,
    /// Produce no record, and fail the build.
    Fail,
}

/// What the agent does at startup: without capture it produces no record, and fails the
/// build only when it was asked to.
pub fn startup(available: bool, hard_fail: bool) -> (s: Startup)
    ensures
        s == (if available {
            Startup::Capture
        } else if hard_fail {
            Startup::Fail
        } else {
            Startup::Skip
        }),
{
    if available {
        Startup::Capture
    } else if hard_fail {
        Startup::Fail
    } else {
        Startup::Skip
    }
}

/// The reconciler of a job that keeps its files under `state_dir`: one without capture is
/// blind from the start.
pub fn reconciler_for(state_dir: &str, available: bool) -> (r: Reconciler)
    ensures
        r@ == (ReconcilerView { blind: !available, ..ReconcilerView::fresh(state_dir@) }),
{
    let mut r = Reconciler::new(state_dir);
    if !available {
        r.capture_unavailable();
    }
    r
}

/// A job without capture is unknown, whatever else is counted and whether or not it fails
/// the build.
pub proof fn without_capture_a_job_is_unknown(state_dir: Seq<char>, fates: Seq<Fate>, resent: nat)
    ensures
        ({
            let start = ReconcilerView { blind: true, ..ReconcilerView::fresh(state_dir) };
            let r = all_accounted(start, fates);
            (ReconcilerView { submitted: r.submitted + resent, ..r }).coverage() is Unknown
        }),
{
    lemma_blind_stays(ReconcilerView { blind: true, ..ReconcilerView::fresh(state_dir) }, fates);
}

proof fn lemma_blind_stays(r: ReconcilerView, fates: Seq<Fate>)
    ensures
        all_accounted(r, fates).blind == r.blind,
    decreases fates.len(),
{
    if fates.len() > 0 {
        lemma_blind_stays(r, fates.drop_last());
    }
}

/// What becomes of a record: a delivered one is done with, one that the pipeline calls
/// malformed is given up, and every other one, also without a submitter, is kept for later.
pub proof fn only_a_malformed_record_is_given_up(outcome: Option<&SubmitOutcome>)
    ensures
        fate_of(outcome) is Delivered <==> outcome is Some && *outcome->0 is Success,
        fate_of(outcome) is Refused <==> outcome is Some && *outcome->0 is InvalidRecord,
        fate_of(outcome) is Buffered <==> outcome is None || *outcome->0 is Unauthorized || *outcome->0 is Failed,
{
}

/// What each fate counts as: every operation is observed once; a delivered record is
/// submitted once; a buffered one takes the next file; nothing else changes.
pub proof fn every_fate_is_counted_once(r: ReconcilerView, fate: Fate)
    ensures
        accounted(r, fate).observed == r.observed + 1,
        accounted(r, fate).submitted == r.submitted + (if fate is Delivered { 1nat } else { 0nat }),
        accounted(r, fate).next_buffer_seq == r.next_buffer_seq + (if fate is Buffered { 1nat } else { 0nat }),
        accounted(r, fate).blind == r.blind,
        accounted(r, fate).buffer_dir == r.buffer_dir,
        accounted(r, fate).signal_path == r.signal_path,
        accounted(r, fate).heartbeat_path == r.heartbeat_path,
{
}

/// The build is failed exactly when there is no capture and failing was asked for; records
/// are made exactly when there is capture.
pub proof fn a_build_is_failed_only_when_asked_for(available: bool, hard_fail: bool, s: Startup)
    requires
        call_ensures(startup, (available, hard_fail), s),
    ensures
        s is Fail <==> !available && hard_fail,
        s is Capture <==> available,
        s is Skip <==> !available && !hard_fail,
{
}

/// The workspace stands in only for a working directory that is not known, and only when it
/// is absolute; nothing else about the operation changes.
pub proof fn the_workspace_stands_in_for_a_missing_directory(op: OperationView, workspace: Seq<char>)
    ensures
        ({
            let filled = op.filled(None, fallback_directory(Some(workspace)));
            &&& op.working_directory is Some ==> filled.working_directory == op.working_directory
            &&& op.working_directory is None && workspace.len() > 0 && workspace[0] == '/' ==> filled.working_directory
                == Some(workspace)
            &&& op.working_directory is None && !(workspace.len() > 0 && workspace[0] == '/')
                ==> filled.working_directory is None
            &&& filled.command == op.command
            &&& filled.paths == op.paths
            &&& filled.exit_code == op.exit_code
        }),
        op.filled(None, fallback_directory(None)).working_directory == op.working_directory,
{
}

/// How the agent lives: it takes records as long as there are any, waits when there are none,
/// takes more after the wait, and takes what is left after a stop signal; then it finalizes,
/// resends what was buffered if it can submit, and reconciles.
pub proof fn the_agent_takes_every_record_before_it_ends(has_submitter: bool)
    ensures
        phase_after(AgentPhase::Draining, AgentEvent::Record, has_submitter) is Draining,
        phase_after(AgentPhase::Draining, AgentEvent::Empty, has_submitter) is Waiting,
        phase_after(AgentPhase::Waiting, AgentEvent::Tick, has_submitter) is Draining,
        phase_after(AgentPhase::Waiting, AgentEvent::Stop, has_submitter) is LastDrain,
        phase_after(AgentPhase::LastDrain, AgentEvent::Record, has_submitter) is LastDrain,
        phase_after(AgentPhase::LastDrain, AgentEvent::Empty, has_submitter) is Finalizing,
        phase_after(AgentPhase::Finalizing, AgentEvent::Completed, has_submitter) == (if has_submitter {
            AgentPhase::Flushing
        } else {
            AgentPhase::Finishing
        }),
        phase_after(AgentPhase::Flushing, AgentEvent::Completed, has_submitter) is Finishing,
        phase_after(AgentPhase::Finishing, AgentEvent::Completed, has_submitter) is Over,
        forall|event: AgentEvent| #[trigger] phase_after(AgentPhase::Over, event, has_submitter) is Over,
{
}

/// The agent hooks forks, execs, exits and opens, and cannot do without any of them; of
/// renames, deletions, truncations and the newer way to open it hooks what the kernel offers.
pub proof fn every_source_of_events_is_hooked()
    ensures
        hook_set().len() == 9,
        hook_set().contains(hook_view("trace_fork"@, "sched"@, "sched_process_fork"@, true)),
        hook_set().contains(hook_view("trace_exec"@, "sched"@, "sched_process_exec"@, true)),
        hook_set().contains(hook_view("trace_exit"@, "sched"@, "sched_process_exit"@, true)),
        hook_set().contains(hook_view("trace_exit_group"@, "syscalls"@, "sys_enter_exit_group"@, true)),
        hook_set().contains(hook_view("trace_openat"@, "syscalls"@, "sys_enter_openat"@, true)),
        hook_set().contains(hook_view("trace_openat2"@, "syscalls"@, "sys_enter_openat2"@, false)),
        hook_set().contains(hook_view("trace_renameat2"@, "syscalls"@, "sys_enter_renameat2"@, false)),
        hook_set().contains(hook_view("trace_unlinkat"@, "syscalls"@, "sys_enter_unlinkat"@, false)),
        hook_set().contains(hook_view("trace_truncate"@, "syscalls"@, "sys_enter_truncate"@, false)),
{
    let h = hook_set();
    assert(h[0].program == "trace_fork"@ && h[1].program == "trace_exec"@ && h[2].program == "trace_exit"@);
    assert(h[3].program == "trace_exit_group"@ && h[4].program == "trace_openat"@ && h[5].program == "trace_openat2"@);
    assert(h[6].program == "trace_renameat2"@ && h[7].program == "trace_unlinkat"@ && h[8].program == "trace_truncate"@);
}

/// Every record that holds an event does to the tree what that event does, and only an exit
/// reports an operation; a record without an event does nothing.
pub proof fn every_event_reaches_the_tree<P: ProcSource>(
    pre: TreeView,
    post: TreeView,
    event: Option<EventView>,
    proc: &P,
    r: Option<Operation>,
)
    requires
        dispatched(pre, post, event, proc, r),
    ensures
        event matches Some(EventView::Exec(e)) ==> exec_step(pre, post, e, proc) && r is None,
        event matches Some(EventView::File(e)) ==> file_step(pre, post, e, proc) && r is None,
        event matches Some(EventView::Exit(e)) ==> exit_step(pre, post, e, proc, r),
        event is None ==> post == pre && r is None,
{
}

} // verus!
