//! To which operation a process belongs, and what its events do to the operations of a tree.

use vstd::prelude::*;
use vstd::utf8::encode_utf8;

use crate::events::{Access, ExecView, ExitView, FileView};
use crate::observe::{
    captured_from, comm_matches, descendants_inherit_the_operation, exec_step, exit_step, file_step, first_match,
    inherited_root, is_lineage, passed_on, placed, refill_from, refreshed, the_first_matching_entry_wins, Attribution,
    EntryView, Operation, OperationView, PathState, ProcSource, RootCapture, TreeView,
};
use crate::scope::{goes_through, lies_inside, the_directories_of_a_path_decide_its_scope};
use crate::text::opt_text;

verus! {

// ---------------------------------------------------------------------------
// Membership
// ---------------------------------------------------------------------------

/// Whether the kernel's name for a process is the pattern, as far as the 16 bytes go that
/// the kernel keeps.
pub open spec fn name_fits(comm: Seq<char>, pattern: Seq<char>) -> bool {
    let (c, p) = (encode_utf8(comm), encode_utf8(pattern));
    &&& c.len() == (if p.len() <= 16 { p.len() } else { 16 })
    &&& forall|k: int| 0 <= k < c.len() ==> c[k] == p[k]
}

/// Whether the entry at `i` is the first of the whitelist that the name fits.
pub open spec fn is_entry_for(w: Seq<EntryView>, comm: Seq<char>, i: int) -> bool {
    &&& 0 <= i < w.len()
    &&& name_fits(comm, w[i].pattern)
    &&& forall|j: int| 0 <= j < i ==> !name_fits(comm, (#[trigger] w[j]).pattern)
}

/// Whether the name fits no entry of the whitelist.
pub open spec fn is_unlisted(w: Seq<EntryView>, comm: Seq<char>) -> bool {
    forall|j: int| 0 <= j < w.len() ==> !name_fits(comm, (#[trigger] w[j]).pattern)
}

/// Whether `line` goes from `pid`, parent by parent, at most 64 links up to the nearest
/// ancestor that has an operation to pass on.
pub open spec fn leads_to_an_operation(t: TreeView, pid: u32, line: Seq<u32>) -> bool {
    &&& 2 <= line.len() <= 65
    &&& line[0] == pid
    &&& is_lineage(t.parents, line)
    &&& passed_on(t, line.last()) is Some
    &&& forall|i: int| 1 <= i < line.len() - 1 ==> passed_on(t, #[trigger] line[i]) is None
}

proof fn lemma_fits(comm: Seq<char>, pattern: Seq<char>)
    ensures
        comm_matches(comm, pattern) <==> name_fits(comm, pattern),
{
    let (c, p) = (encode_utf8(comm), encode_utf8(pattern));
    if name_fits(comm, pattern) {
        assert(c =~= crate::observe::capped(p));
    }
}

proof fn lemma_entry(w: Seq<EntryView>, comm: Seq<char>)
    ensures
        forall|i: int| #[trigger] is_entry_for(w, comm, i) ==> first_match(w, comm) == Some(w[i]),
        first_match(w, comm) matches Some(e) ==> exists|i: int| #[trigger] is_entry_for(w, comm, i) && w[i] == e,
        first_match(w, comm) is None <==> is_unlisted(w, comm),
{
    assert forall|p: Seq<char>| #[trigger] comm_matches(comm, p) <==> name_fits(comm, p) by {
        lemma_fits(comm, p);
    }
    the_first_matching_entry_wins(w, comm);
    if let Some(e) = first_match(w, comm) {
        let k = choose|i: int|
            {
                &&& 0 <= i < w.len()
                &&& #[trigger] w[i] == e
                &&& comm_matches(comm, e.pattern)
                &&& forall|j: int| 0 <= j < i ==> !comm_matches(comm, (#[trigger] w[j]).pattern)
            };
        assert forall|j: int| 0 <= j < k implies !name_fits(comm, (#[trigger] w[j]).pattern) by {
            lemma_fits(comm, w[j].pattern);
        }
        lemma_fits(comm, e.pattern);
        assert(is_entry_for(w, comm, k));
        assert forall|i: int| #[trigger] is_entry_for(w, comm, i) implies i == k by {
            if i < k {
                assert(!name_fits(comm, w[i].pattern));
            } else if k < i {
                assert(!name_fits(comm, w[k].pattern));
            }
        }
        assert(name_fits(comm, w[k].pattern));
    } else {
        assert forall|j: int| 0 <= j < w.len() implies !name_fits(comm, (#[trigger] w[j]).pattern) by {
            lemma_fits(comm, w[j].pattern);
        }
    }
}

proof fn lemma_line(t: TreeView, pid: u32, links: nat) -> (line: Seq<u32>)
    requires
        inherited_root(t.parents, t.roots, t.heirs, pid, links) is Some,
    ensures
        2 <= line.len() <= links + 1,
        line[0] == pid,
        is_lineage(t.parents, line),
        passed_on(t, line.last()) == inherited_root(t.parents, t.roots, t.heirs, pid, links),
        forall|i: int| 1 <= i < line.len() - 1 ==> passed_on(t, #[trigger] line[i]) is None,
    decreases links,
{
    let p = t.parents[pid];
    if passed_on(t, p) is Some {
        seq![pid, p]
    } else {
        let rest = lemma_line(t, p, (links - 1) as nat);
        let line = seq![pid] + rest;
        assert forall|i: int| 0 <= i < line.len() - 1 implies t.parents.contains_key(#[trigger] line[i])
            && t.parents[line[i]] == line[i + 1] by {
            if i > 0 {
                assert(line[i] == rest[i - 1]);
            }
        }
        assert forall|i: int| 1 <= i < line.len() - 1 implies passed_on(t, #[trigger] line[i]) is None by {
            assert(line[i] == rest[i - 1]);
        }
        assert(line.last() == rest.last());
        line
    }
}

/// To which operation a process belongs. What is tracked stays where it is. Anything else
/// whose name fits the whitelist starts an operation of its own, with the tag of the first
/// entry that it fits, whatever its ancestors belong to. Anything else belongs to the
/// operation that its nearest ancestor with one passes on, at most 64 links up, and to none
/// when there is no such ancestor.
pub proof fn name_and_ancestry_decide_membership(t: TreeView, pid: u32, comm: Seq<char>)
    ensures
        t.roots.contains_key(pid) ==> t.attribution(pid, comm) == Attribution::Member(t.roots[pid]),
        forall|i: int| #[trigger]
            is_entry_for(t.whitelist, comm, i) && !t.roots.contains_key(pid) ==> t.attribution(pid, comm)
                == Attribution::Root(t.whitelist[i].type_tag),
        forall|line: Seq<u32>| #[trigger]
            leads_to_an_operation(t, pid, line) && !t.roots.contains_key(pid) && is_unlisted(t.whitelist, comm)
                ==> t.attribution(pid, comm) == Attribution::Inherited(passed_on(t, line.last())->0),
        !t.roots.contains_key(pid) && is_unlisted(t.whitelist, comm) && (forall|line: Seq<u32>|
            !(#[trigger] leads_to_an_operation(t, pid, line))) ==> t.attribution(pid, comm) is Unattributed,
{
    lemma_entry(t.whitelist, comm);
    assert forall|line: Seq<u32>| #[trigger]
        leads_to_an_operation(t, pid, line) && !t.roots.contains_key(pid) && is_unlisted(
            t.whitelist,
            comm,
        ) implies t.attribution(pid, comm) == Attribution::Inherited(passed_on(t, line.last())->0) by {
        descendants_inherit_the_operation(t, pid, comm, line);
    }
    if inherited_root(t.parents, t.roots, t.heirs, pid, 64) is Some {
        let line = lemma_line(t, pid, 64);
        assert(leads_to_an_operation(t, pid, line));
    }
}

// ---------------------------------------------------------------------------
// What an exec does
// ---------------------------------------------------------------------------

/// An exec under a whitelisted name starts an operation, also inside another one: exactly
/// one operation is added, rooted at the process and tagged by the first entry that the name
/// fits, with nothing recorded yet; every other open operation stays as it was.
pub proof fn an_exec_under_a_whitelisted_name_opens_an_operation<P: ProcSource>(
    pre: TreeView,
    post: TreeView,
    e: ExecView,
    proc: &P,
    i: int,
)
    requires
        pre.wf(),
        exec_step(pre, post, e, proc),
        !pre.roots.contains_key(e.pid),
        is_entry_for(pre.whitelist, e.comm, i),
    ensures
        !pre.operations.contains_key(e.pid),
        post.operations.dom() == pre.operations.dom().insert(e.pid),
        post.operations.contains_key(e.pid),
        post.operations[e.pid].root_pid == e.pid,
        post.operations[e.pid].root_comm == e.comm,
        post.operations[e.pid].whitelist_type == pre.whitelist[i].type_tag,
        post.operations[e.pid].exit_code is None,
        post.operations[e.pid].end_time is None,
        post.operations[e.pid].start_time.is_reading(),
        post.operations[e.pid].pids == Set::<u32>::empty().insert(e.pid),
        post.operations[e.pid].paths == Map::<Seq<char>, PathState>::empty(),
        exists|c: Option<String>| #[trigger]
            call_ensures(P::cmdline, (proc, e.pid), c) && opt_text(c) == post.operations[e.pid].command,
        exists|c: Option<String>| #[trigger]
            call_ensures(P::cwd, (proc, e.pid), c) && opt_text(c) == post.operations[e.pid].working_directory,
        post.roots == pre.roots.insert(e.pid, e.pid),
        forall|k: u32| k != e.pid && #[trigger] pre.operations.contains_key(k) ==> post.operations[k]
            == pre.operations[k],
{
    let seen = pre.linked(e.pid, e.ppid).exec_sampled(e);
    name_and_ancestry_decide_membership(seen, e.pid, e.comm);
    assert(is_entry_for(seen.whitelist, e.comm, i));
    let (mid, root) = choose|mid: TreeView, root: Option<u32>| #[trigger]
        placed(seen, mid, e.pid, e.comm, proc, root) && refreshed(mid, post, e.pid, proc);
    let tag = pre.whitelist[i].type_tag;
    let c = choose|c: RootCapture| #[trigger]
        captured_from(proc, e.pid, c) && mid == seen.opened(e.pid, e.comm, tag, c);
    assert(mid.operations.contains_key(e.pid));
    let (command, wd) = choose|command: Option<String>, wd: Option<String>| #[trigger]
        refill_from(proc, mid.operations[e.pid], e.pid, command, wd) && post == mid.refilled(
            e.pid,
            opt_text(command),
            opt_text(wd),
        );
    assert(post.operations.dom() =~= pre.operations.dom().insert(e.pid));
    assert(call_ensures(P::cmdline, (proc, e.pid), c.command));
    assert(call_ensures(P::cwd, (proc, e.pid), c.working_directory));
    assert(c.command is None ==> call_ensures(P::cmdline, (proc, e.pid), command));
    assert(c.working_directory is None ==> call_ensures(P::cwd, (proc, e.pid), wd));
}

/// An exec of a process that belongs to an operation already, or comes to belong to one
/// through its ancestors, opens and closes none: it joins, and nothing that was recorded of
/// any operation changes. The parent is learned unless it is not known.
pub proof fn an_exec_keeps_what_was_recorded<P: ProcSource>(
    pre: TreeView,
    post: TreeView,
    e: ExecView,
    proc: &P,
    k: u32,
)
    requires
        pre.wf(),
        exec_step(pre, post, e, proc),
        pre.operations.contains_key(k),
    ensures
        post.operations.contains_key(k),
        post.operations[k].paths == pre.operations[k].paths,
        post.operations[k].exit_code == pre.operations[k].exit_code,
        post.operations[k].whitelist_type == pre.operations[k].whitelist_type,
        post.operations[k].root_comm == pre.operations[k].root_comm,
        post.operations[k].start_time == pre.operations[k].start_time,
        pre.operations[k].command is Some ==> post.operations[k].command == pre.operations[k].command,
        pre.operations[k].working_directory is Some ==> post.operations[k].working_directory
            == pre.operations[k].working_directory,
        k == e.pid && pre.operations[k].command is None ==> exists|c: Option<String>| #[trigger]
            call_ensures(P::cmdline, (proc, e.pid), c) && opt_text(c) == post.operations[k].command,
        k == e.pid && pre.operations[k].working_directory is None ==> exists|c: Option<String>| #[trigger]
            call_ensures(P::cwd, (proc, e.pid), c) && opt_text(c) == post.operations[k].working_directory,
        k != e.pid ==> post.operations[k].command == pre.operations[k].command
            && post.operations[k].working_directory == pre.operations[k].working_directory,
        e.ppid != 0 ==> post.parents == pre.parents.insert(e.pid, e.ppid),
        e.ppid == 0 ==> post.parents == pre.parents,
{
    let seen = pre.linked(e.pid, e.ppid).exec_sampled(e);
    let (mid, root) = choose|mid: TreeView, root: Option<u32>| #[trigger]
        placed(seen, mid, e.pid, e.comm, proc, root) && refreshed(mid, post, e.pid, proc);
    assert(mid.operations.contains_key(k));
    if k == e.pid {
        name_and_ancestry_decide_membership(seen, e.pid, e.comm);
        let (command, wd) = choose|command: Option<String>, wd: Option<String>| #[trigger]
            refill_from(proc, mid.operations[e.pid], e.pid, command, wd) && post == mid.refilled(
                e.pid,
                opt_text(command),
                opt_text(wd),
            );
        assert(mid.operations[k] == pre.operations[k]);
        assert(pre.operations[k].command is None ==> call_ensures(P::cmdline, (proc, e.pid), command));
        assert(pre.operations[k].working_directory is None ==> call_ensures(P::cwd, (proc, e.pid), wd));
    }
}

/// A process that inherits an operation when it execs belongs to it from then on, and counts
/// among its processes; no operation is opened or closed.
pub proof fn an_exec_joins_the_operation_of_its_ancestors<P: ProcSource>(
    pre: TreeView,
    post: TreeView,
    e: ExecView,
    proc: &P,
    root: u32,
)
    requires
        pre.wf(),
        exec_step(pre, post, e, proc),
        pre.linked(e.pid, e.ppid).attribution(e.pid, e.comm) == Attribution::Inherited(root),
    ensures
        post.roots == pre.roots.insert(e.pid, root),
        post.operations.dom() == pre.operations.dom(),
        pre.operations.contains_key(root) ==> post.operations[root].pids == pre.operations[root].pids.insert(e.pid),
{
    let start = pre.linked(e.pid, e.ppid);
    let seen = start.exec_sampled(e);
    assert(seen.attribution(e.pid, e.comm) == start.attribution(e.pid, e.comm));
    let (mid, r) = choose|mid: TreeView, r: Option<u32>| #[trigger]
        placed(seen, mid, e.pid, e.comm, proc, r) && refreshed(mid, post, e.pid, proc);
    assert(!pre.roots.contains_key(e.pid));
    assert(!pre.operations.contains_key(e.pid));
    assert(mid.operations.dom() =~= pre.operations.dom());
}

// ---------------------------------------------------------------------------
// What a file access does
// ---------------------------------------------------------------------------

/// What one access makes of the state of a path: reading, writing and deleting each leave
/// their mark, and what is written is there again.
pub open spec fn marked(before: PathState, access: Access, after: PathState) -> bool {
    &&& after.read == (before.read || access is Read)
    &&& after.wrote == (before.wrote || access is Write || access is Create || access is Truncate)
    &&& after.deleted == (access is Delete || (before.deleted && access is Read))
}

/// Whether `after` is `before` with one access to `path` recorded, and nothing else changed
/// of what it reports.
pub open spec fn one_access_more(before: OperationView, after: OperationView, path: Seq<char>, access: Access) -> bool {
    &&& after.paths.dom() == before.paths.dom().insert(path)
    &&& marked(before.state(path), access, after.paths[path])
    &&& forall|q: Seq<char>| q != path && #[trigger] before.paths.contains_key(q) ==> after.paths[q] == before.paths[q]
    &&& after.working_directory == before.working_directory
    &&& after.command == before.command
    &&& after.whitelist_type == before.whitelist_type
    &&& after.exit_code == before.exit_code
    &&& after.root_comm == before.root_comm
    &&& after.start_time == before.start_time
    &&& after.end_time == before.end_time
}

/// An access is recorded in the operation of the process that made it, under its own path,
/// and in no other operation; an access by a process outside every operation is recorded in
/// none.
pub proof fn an_access_goes_to_the_operation_of_its_process<P: ProcSource>(
    pre: TreeView,
    post: TreeView,
    e: FileView,
    proc: &P,
    k: u32,
)
    requires
        pre.wf(),
        file_step(pre, post, e, proc),
        pre.operations.contains_key(k),
    ensures
        post.operations.contains_key(k),
        pre.attribution(e.pid, e.comm) == Attribution::Member(k) || pre.attribution(e.pid, e.comm)
            == Attribution::Inherited(k) ==> one_access_more(
            pre.operations[k],
            post.operations[k],
            e.path,
            e.access,
        ),
        pre.attribution(e.pid, e.comm) != Attribution::Member(k) && pre.attribution(e.pid, e.comm)
            != Attribution::Inherited(k) ==> post.operations[k] == pre.operations[k],
        pre.attribution(e.pid, e.comm) is Unattributed ==> post.operations == pre.operations && post.roots == pre.roots,
        pre.attribution(e.pid, e.comm) == Attribution::Inherited(k) ==> post.roots == pre.roots.insert(e.pid, k)
            && post.operations[k].pids == pre.operations[k].pids.insert(e.pid),
        post.parents == pre.parents,
{
    let (mid, root) = choose|mid: TreeView, root: Option<u32>| #[trigger]
        placed(pre, mid, e.pid, e.comm, proc, root) && post == (match root {
            Some(root) => mid.file_attributed(e, root),
            None => mid.file_unattributed(e),
        });
    let (a, b) = (pre.operations[k], post.operations[k]);
    if root == Some(k) && !(pre.attribution(e.pid, e.comm) is Root) {
        assert(b.paths.dom() =~= a.paths.dom().insert(e.path));
    }
}

/// An access under a whitelisted name by a process that was not seen before starts the
/// operation of that process, and is the first thing recorded in it.
pub proof fn an_access_under_a_whitelisted_name_opens_an_operation<P: ProcSource>(
    pre: TreeView,
    post: TreeView,
    e: FileView,
    proc: &P,
    i: int,
)
    requires
        pre.wf(),
        file_step(pre, post, e, proc),
        !pre.roots.contains_key(e.pid),
        is_entry_for(pre.whitelist, e.comm, i),
    ensures
        post.operations.dom() == pre.operations.dom().insert(e.pid),
        post.operations[e.pid].whitelist_type == pre.whitelist[i].type_tag,
        post.operations[e.pid].root_pid == e.pid,
        post.operations[e.pid].root_comm == e.comm,
        post.operations[e.pid].paths.dom() == Set::<Seq<char>>::empty().insert(e.path),
        marked(PathState { read: false, wrote: false, deleted: false }, e.access, post.operations[e.pid].paths[e.path]),
        post.operations[e.pid].start_time.is_reading(),
        exists|c: Option<String>| #[trigger]
            call_ensures(P::cmdline, (proc, e.pid), c) && opt_text(c) == post.operations[e.pid].command,
        exists|c: Option<String>| #[trigger]
            call_ensures(P::cwd, (proc, e.pid), c) && opt_text(c) == post.operations[e.pid].working_directory,
{
    name_and_ancestry_decide_membership(pre, e.pid, e.comm);
    let (mid, root) = choose|mid: TreeView, root: Option<u32>| #[trigger]
        placed(pre, mid, e.pid, e.comm, proc, root) && post == (match root {
            Some(root) => mid.file_attributed(e, root),
            None => mid.file_unattributed(e),
        });
    let tag = pre.whitelist[i].type_tag;
    let c = choose|c: RootCapture| #[trigger]
        captured_from(proc, e.pid, c) && mid == pre.opened(e.pid, e.comm, tag, c);
    assert(post.operations.dom() =~= pre.operations.dom().insert(e.pid));
    assert(post.operations[e.pid].paths.dom() =~= Set::<Seq<char>>::empty().insert(e.path));
    assert(call_ensures(P::cmdline, (proc, e.pid), c.command));
    assert(call_ensures(P::cwd, (proc, e.pid), c.working_directory));
}

// ---------------------------------------------------------------------------
// What an exit does
// ---------------------------------------------------------------------------

/// The exit of a root reports its operation, with the exit code that the exit carried and
/// with everything that was recorded of it, and takes exactly that operation out of the tree.
pub proof fn a_root_exit_reports_its_operation<P: ProcSource>(
    pre: TreeView,
    post: TreeView,
    e: ExitView,
    proc: &P,
    r: Option<Operation>,
)
    requires
        pre.wf(),
        exit_step(pre, post, e, proc, r),
        pre.operations.contains_key(e.pid),
    ensures
        r is Some,
        r->0.exit_code == e.exit_code,
        r->0.end_time is Some,
        r->0.end_time->0.is_reading(),
        ({
            let (op, was) = (r->0@, pre.operations[e.pid]);
            &&& op.paths == was.paths
            &&& op.command == was.command
            &&& op.working_directory == was.working_directory
            &&& op.whitelist_type == was.whitelist_type
            &&& op.root_pid == e.pid
            &&& op.root_comm == was.root_comm
            &&& op.start_time == was.start_time
            &&& op.pids == was.pids
        }),
        post.operations == pre.operations.remove(e.pid),
        post.roots == pre.roots.remove(e.pid),
        post.parents == pre.parents.remove(e.pid),
{
    name_and_ancestry_decide_membership(pre, e.pid, e.comm);
}

/// The exit of a process that roots no open operation reports nothing and leaves every open
/// operation in place, unless its name is whitelisted and it was never seen before.
pub proof fn any_other_exit_reports_nothing<P: ProcSource>(
    pre: TreeView,
    post: TreeView,
    e: ExitView,
    proc: &P,
    r: Option<Operation>,
)
    requires
        pre.wf(),
        exit_step(pre, post, e, proc, r),
        !pre.operations.contains_key(e.pid),
        pre.roots.contains_key(e.pid) || is_unlisted(pre.whitelist, e.comm),
    ensures
        r is None,
        post.operations.dom() == pre.operations.dom(),
        forall|k: u32| #[trigger]
            pre.operations.contains_key(k) ==> post.operations[k].paths == pre.operations[k].paths
                && post.operations[k].whitelist_type == pre.operations[k].whitelist_type,
        !post.roots.contains_key(e.pid),
        post.roots == pre.roots.remove(e.pid),
        post.parents == pre.parents.remove(e.pid),
{
    name_and_ancestry_decide_membership(pre, e.pid, e.comm);
    lemma_entry(pre.whitelist, e.comm);
    let (mid, root) = choose|mid: TreeView, root: Option<u32>|
        {
            &&& #[trigger] placed(pre, mid, e.pid, e.comm, proc, root)
            &&& post == mid.departed(e.pid)
            &&& r is Some <==> mid.closes(e.pid)
            &&& r matches Some(op) ==> {
                &&& op.end_time is Some
                &&& op.end_time->0.is_reading()
                &&& op@ == mid.operations[e.pid].ended(e.exit_code, op.end_time->0)
            }
        };
    assert(!mid.operations.contains_key(e.pid));
    assert(mid.operations.dom() =~= pre.operations.dom());
    assert(mid.roots.remove(e.pid) =~= pre.roots.remove(e.pid));
}

/// The exit of a process that was never seen before, under a whitelisted name, is an
/// operation too: one without any access, with the tag of its entry and the code of its exit.
pub proof fn an_exit_under_a_whitelisted_name_is_an_operation<P: ProcSource>(
    pre: TreeView,
    post: TreeView,
    e: ExitView,
    proc: &P,
    r: Option<Operation>,
    i: int,
)
    requires
        pre.wf(),
        exit_step(pre, post, e, proc, r),
        !pre.roots.contains_key(e.pid),
        is_entry_for(pre.whitelist, e.comm, i),
    ensures
        r is Some,
        r->0@.root_pid == e.pid,
        r->0@.root_comm == e.comm,
        r->0@.whitelist_type == pre.whitelist[i].type_tag,
        r->0@.exit_code == e.exit_code,
        r->0@.paths == Map::<Seq<char>, PathState>::empty(),
        post.operations == pre.operations,
{
    name_and_ancestry_decide_membership(pre, e.pid, e.comm);
    let (mid, root) = choose|mid: TreeView, root: Option<u32>|
        {
            &&& #[trigger] placed(pre, mid, e.pid, e.comm, proc, root)
            &&& post == mid.departed(e.pid)
            &&& r is Some <==> mid.closes(e.pid)
            &&& r matches Some(op) ==> {
                &&& op.end_time is Some
                &&& op.end_time->0.is_reading()
                &&& op@ == mid.operations[e.pid].ended(e.exit_code, op.end_time->0)
            }
        };
    assert(mid.operations.remove(e.pid) =~= pre.operations);
}

/// A descendant outlives its parent: after the exit of a process of an open operation, other
/// than its root, each of its children whose name is on no whitelist belongs to that
/// operation.
pub proof fn children_keep_the_operation_of_an_exited_parent<P: ProcSource>(
    pre: TreeView,
    post: TreeView,
    e: ExitView,
    proc: &P,
    r: Option<Operation>,
    child: u32,
    comm: Seq<char>,
)
    requires
        pre.wf(),
        exit_step(pre, post, e, proc, r),
        pre.roots.contains_key(e.pid),
        pre.roots[e.pid] != e.pid,
        pre.operations.contains_key(pre.roots[e.pid]),
        child != e.pid,
        pre.parents.contains_key(child),
        pre.parents[child] == e.pid,
        !pre.roots.contains_key(child),
        is_unlisted(pre.whitelist, comm),
    ensures
        post.attribution(child, comm) == Attribution::Inherited(pre.roots[e.pid]),
{
    name_and_ancestry_decide_membership(pre, e.pid, e.comm);
    let line = seq![child, e.pid];
    assert(post.parents[child] == e.pid);
    assert(is_lineage(post.parents, line));
    assert(passed_on(post, e.pid) == Some(pre.roots[e.pid]));
    assert(leads_to_an_operation(post, child, line));
    name_and_ancestry_decide_membership(post, child, comm);
}

/// A number that is used again passes nothing on of its former process: after the exec of a
/// process outside every operation there is nothing to inherit from it.
pub proof fn a_reused_number_passes_nothing_on<P: ProcSource>(pre: TreeView, post: TreeView, e: ExecView, proc: &P)
    requires
        pre.wf(),
        exec_step(pre, post, e, proc),
        pre.linked(e.pid, e.ppid).attribution(e.pid, e.comm) is Unattributed,
    ensures
        passed_on(post, e.pid) is None,
        post.operations == pre.operations,
{
    let start = pre.linked(e.pid, e.ppid);
    let seen = start.exec_sampled(e);
    assert(seen.attribution(e.pid, e.comm) == start.attribution(e.pid, e.comm));
    assert(!pre.roots.contains_key(e.pid));
    assert(!pre.operations.contains_key(e.pid));
}

/// Finalizing takes every open operation out of the tree, and what exited processes had left
/// of them; the processes themselves and their parents stay known.
pub proof fn finalizing_leaves_the_processes_known(t: TreeView, p: u32)
    ensures
        t.finalized().operations == Map::<u32, OperationView>::empty(),
        t.finalized().roots == t.roots,
        t.finalized().parents == t.parents,
        t.finalized().whitelist == t.whitelist,
        !t.roots.contains_key(p) ==> passed_on(t.finalized(), p) is None,
{
    assert(t.finalized().operations =~= Map::<u32, OperationView>::empty());
}

// ---------------------------------------------------------------------------
// What an operation reports
// ---------------------------------------------------------------------------

/// What an operation reports: a path is an input exactly when it was read, was not written
/// and is not deleted, an output exactly when it was written and is not deleted, and in both
/// cases only when it lies inside the working directory and outside every `node_modules` and
/// `.git`.
pub proof fn an_operation_reports_what_was_done_to_a_path(op: OperationView, path: Seq<char>)
    ensures
        ({
            let s = op.state(path);
            let inside = op.working_directory is Some && op.working_directory->0.len() > 0 && path.len() > 0 && path[0]
                == '/' && lies_inside(path, op.working_directory->0) && !goes_through(path, "node_modules"@)
                && !goes_through(path, ".git"@);
            &&& op.has_input(path) <==> inside && s.read && !s.wrote && !s.deleted
            &&& op.has_output(path) <==> inside && s.wrote && !s.deleted
        }),
{
    the_directories_of_a_path_decide_its_scope(path, op.scope_root());
}

} // verus!
