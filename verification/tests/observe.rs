use ci_tracer::events::{Access, ExecEvent, ExitEvent, FileEvent};
use ci_tracer::observe::{Attribution, ProcSource, ProcessTree, WhitelistEntry};
use ci_tracer::runrecord::RunRecordType;

struct StubProc;

impl ProcSource for StubProc {
    fn cmdline(&self, _pid: u32) -> Option<String> {
        Some("npm run build".to_string())
    }
    fn cwd(&self, _pid: u32) -> Option<String> {
        Some("/work/repo".to_string())
    }
}

struct NoProc;

impl ProcSource for NoProc {
    fn cmdline(&self, _pid: u32) -> Option<String> {
        None
    }
    fn cwd(&self, _pid: u32) -> Option<String> {
        None
    }
}

fn wl() -> Vec<WhitelistEntry> {
    vec![
        WhitelistEntry::new("npm run build", Some(RunRecordType::Build)),
        WhitelistEntry::new("npm run test", Some(RunRecordType::Test)),
    ]
}

fn exec(pid: u32, ppid: u32, comm: &str) -> ExecEvent {
    ExecEvent { pid, ppid, comm: comm.to_string() }
}

fn file(pid: u32, comm: &str, path: &str, access: Access) -> FileEvent {
    FileEvent { pid, access, comm: comm.to_string(), path: path.to_string() }
}

fn exit(pid: u32, exit_code: Option<i32>, comm: &str) -> ExitEvent {
    ExitEvent { pid, exit_code, comm: comm.to_string() }
}

#[test]
fn whitelisted_root_starts_operation_and_captures_proc() {
    let mut t = ProcessTree::new(wl());
    t.on_exec(&exec(100, 1, "npm run build"), &StubProc);
    assert_eq!(t.open_count(), 1);

    let op = t.on_exit(&exit(100, Some(0), "npm run build"), &StubProc).expect("op finalized at root exit");
    assert_eq!(op.command.as_deref(), Some("npm run build"));
    assert_eq!(op.working_directory.as_deref(), Some("/work/repo"));
    assert_eq!(op.whitelist_type, Some(RunRecordType::Build));
    assert_eq!(op.exit_code, Some(0));
}

#[test]
fn descendants_attributed_and_classified() {
    let mut t = ProcessTree::new(wl());
    t.on_exec(&exec(100, 1, "npm run build"), &StubProc);
    t.on_exec(&exec(101, 100, "node"), &StubProc);
    t.on_exec(&exec(102, 101, "cc1"), &StubProc);

    t.on_file(&file(101, "node", "/work/repo/src/a.ts", Access::Read), &StubProc);
    t.on_file(&file(102, "cc1", "/work/repo/dist/a.js", Access::Create), &StubProc);
    // Out-of-scope reads are dropped by scope filtering.
    t.on_file(&file(102, "cc1", "/usr/lib/libc.so", Access::Read), &StubProc);
    t.on_file(&file(102, "cc1", "/work/repo/node_modules/x.js", Access::Read), &StubProc);

    let op = t.on_exit(&exit(100, Some(0), "npm run build"), &StubProc).unwrap();
    assert_eq!(op.scoped_inputs(), vec!["/work/repo/src/a.ts".to_string()]);
    assert_eq!(op.scoped_outputs(), vec!["/work/repo/dist/a.js".to_string()]);
}

#[test]
fn read_then_write_is_output_only() {
    let mut t = ProcessTree::new(wl());
    t.on_exec(&exec(100, 1, "npm run build"), &StubProc);
    t.on_file(&file(100, "npm run build", "/work/repo/x", Access::Read), &StubProc);
    t.on_file(&file(100, "npm run build", "/work/repo/x", Access::Write), &StubProc);
    let op = t.on_exit(&exit(100, None, "npm run build"), &StubProc).unwrap();
    assert!(op.scoped_inputs().is_empty());
    assert_eq!(op.scoped_outputs(), vec!["/work/repo/x".to_string()]);
}

#[test]
fn untracked_process_ignored() {
    let mut t = ProcessTree::new(wl());
    t.on_exec(&exec(200, 1, "bash"), &StubProc);
    t.on_file(&file(200, "bash", "/work/repo/secret", Access::Read), &StubProc);
    assert_eq!(t.open_count(), 0);
}

/// What becomes of `/work/repo/x` after a series of accesses: whether it is an input, and
/// whether it is an output.
fn classified(accesses: &[Access]) -> (bool, bool) {
    let mut t = ProcessTree::new(wl());
    t.on_exec(&exec(100, 1, "npm run build"), &StubProc);
    for a in accesses {
        t.on_file(&file(100, "npm run build", "/work/repo/x", *a), &StubProc);
    }
    let op = t.on_exit(&exit(100, None, "npm run build"), &StubProc).unwrap();
    assert_eq!(op.dbg_recorded, accesses.len() as u64);
    (!op.scoped_inputs().is_empty(), !op.scoped_outputs().is_empty())
}

#[test]
fn a_path_is_what_its_accesses_make_it() {
    assert_eq!(classified(&[]), (false, false));
    assert_eq!(classified(&[Access::Read]), (true, false));
    assert_eq!(classified(&[Access::Read, Access::Read]), (true, false));
    assert_eq!(classified(&[Access::Delete]), (false, false));
    assert_eq!(classified(&[Access::Read, Access::Delete]), (false, false));
    assert_eq!(classified(&[Access::Delete, Access::Read]), (false, false));
    assert_eq!(classified(&[Access::Truncate]), (false, true));
    assert_eq!(classified(&[Access::Create, Access::Delete]), (false, false));
    assert_eq!(classified(&[Access::Create, Access::Delete, Access::Write]), (false, true));
    assert_eq!(classified(&[Access::Write, Access::Read]), (false, true));
    assert_eq!(classified(&[Access::Delete, Access::Create, Access::Read]), (false, true));
}

#[test]
fn paths_come_out_in_ascending_order_and_once() {
    let mut t = ProcessTree::new(wl());
    t.on_exec(&exec(100, 1, "npm run build"), &StubProc);
    for p in ["/work/repo/b", "/work/repo/a/z", "/work/repo/b", "/work/repo/B", "/work/repo/\u{e9}", "/work/repo/a"] {
        t.on_file(&file(100, "npm run build", p, Access::Read), &StubProc);
    }
    let op = t.on_exit(&exit(100, None, "npm run build"), &StubProc).unwrap();
    assert_eq!(
        op.scoped_inputs(),
        vec!["/work/repo/B", "/work/repo/a", "/work/repo/a/z", "/work/repo/b", "/work/repo/\u{e9}"]
    );
}

#[test]
fn operations_do_not_see_each_other() {
    let mut t = ProcessTree::new(wl());
    t.on_exec(&exec(100, 1, "npm run build"), &StubProc);
    t.on_exec(&exec(200, 1, "npm run test"), &StubProc);
    t.on_exec(&exec(201, 200, "node"), &StubProc);
    assert_eq!(t.open_count(), 2);
    t.on_file(&file(100, "npm run build", "/work/repo/one", Access::Read), &StubProc);
    t.on_file(&file(201, "node", "/work/repo/two", Access::Read), &StubProc);
    let one = t.on_exit(&exit(100, Some(1), "npm run build"), &StubProc).unwrap();
    assert_eq!(t.open_count(), 1);
    let two = t.on_exit(&exit(200, None, "npm run test"), &StubProc).unwrap();
    assert_eq!(one.scoped_inputs(), vec!["/work/repo/one"]);
    assert_eq!(two.scoped_inputs(), vec!["/work/repo/two"]);
    assert_eq!((one.whitelist_type, two.whitelist_type), (Some(RunRecordType::Build), Some(RunRecordType::Test)));
    assert_eq!((one.exit_code, two.exit_code), (Some(1), None));
}

#[test]
fn only_a_root_exit_closes_an_operation() {
    let mut t = ProcessTree::new(wl());
    t.on_exec(&exec(100, 1, "npm run build"), &StubProc);
    t.on_exec(&exec(101, 100, "node"), &StubProc);
    assert!(t.on_exit(&exit(101, Some(0), "node"), &StubProc).is_none());
    assert!(t.on_exit(&exit(7, Some(0), "bash"), &StubProc).is_none());
    assert_eq!(t.open_count(), 1);
    assert!(t.on_exit(&exit(100, Some(0), "npm run build"), &StubProc).is_some());
    assert_eq!(t.open_count(), 0);
}

#[test]
fn a_root_may_be_recognized_only_at_its_exit() {
    let mut t = ProcessTree::new(wl());
    let op = t.on_exit(&exit(100, Some(3), "npm run build"), &StubProc).unwrap();
    assert_eq!(op.exit_code, Some(3));
    assert!(op.scoped_inputs().is_empty());
}

#[test]
fn the_nearest_tracked_ancestor_decides_within_the_limit() {
    let mut t = ProcessTree::new(wl());
    t.on_exec(&exec(1000, 1, "npm run build"), &StubProc);
    // A chain of processes that were not placed: each link is learned from an exec of a
    // process whose own parent is not known yet.
    for i in (1..=66u32).rev() {
        t.on_exec(&exec(1000 + i, 1000 + i - 1, "sh"), &StubProc);
    }
    assert_eq!(t.attribute(1001, "sh"), Attribution::Member(1000));
    assert_eq!(t.attribute(1002, "sh"), Attribution::Inherited(1000));
    assert_eq!(t.attribute(1065, "sh"), Attribution::Inherited(1000));
    assert_eq!(t.attribute(1066, "sh"), Attribution::Unattributed);
    assert_eq!(t.attribute(5000, "npm run test"), Attribution::Root(Some(RunRecordType::Test)));
}

#[test]
fn long_patterns_match_the_truncated_name() {
    let mut t = ProcessTree::new(vec![WhitelistEntry::new("npm run build:production", None)]);
    t.on_exec(&exec(1, 0, "npm run build:pr"), &StubProc);
    t.on_exec(&exec(2, 0, "npm run build:production"), &StubProc);
    t.on_exec(&exec(3, 0, "npm run build"), &StubProc);
    assert_eq!(t.open_count(), 1);
    let mut u = ProcessTree::new(vec![WhitelistEntry::new("aaaaaaaaaaaaaaa\u{e9}", None)]);
    u.on_exec(&exec(1, 0, "aaaaaaaaaaaaaaa"), &StubProc);
    assert_eq!(u.open_count(), 0);
}

#[test]
fn the_first_matching_entry_tags_the_operation() {
    let mut t = ProcessTree::new(vec![
        WhitelistEntry::new("make", Some(RunRecordType::Deploy)),
        WhitelistEntry::new("make", Some(RunRecordType::Test)),
    ]);
    t.on_exec(&exec(1, 0, "make"), &StubProc);
    let op = t.on_exit(&exit(1, None, "make"), &StubProc).unwrap();
    assert_eq!(op.whitelist_type, Some(RunRecordType::Deploy));
}

#[test]
fn what_was_not_captured_is_tried_again_on_exec() {
    let mut t = ProcessTree::new(wl());
    t.on_file(&file(100, "npm run build", "/work/repo/x", Access::Read), &NoProc);
    t.on_exec(&exec(100, 1, "npm run build"), &StubProc);
    let op = t.on_exit(&exit(100, None, "npm run build"), &NoProc).unwrap();
    assert_eq!(op.command.as_deref(), Some("npm run build"));
    assert_eq!(op.scoped_inputs(), vec!["/work/repo/x"]);
}

#[test]
fn an_operation_without_a_directory_reports_nothing() {
    let mut t = ProcessTree::new(wl());
    t.on_exec(&exec(100, 1, "npm run build"), &NoProc);
    t.on_file(&file(100, "npm run build", "/work/repo/x", Access::Read), &NoProc);
    let op = t.on_exit(&exit(100, None, "npm run build"), &NoProc).unwrap();
    assert_eq!(op.working_directory, None);
    assert!(op.scoped_inputs().is_empty() && op.scoped_outputs().is_empty());
}

#[test]
fn open_operations_are_finalized_in_order_of_their_roots() {
    let mut t = ProcessTree::new(wl());
    for pid in [300, 100, 200] {
        t.on_exec(&exec(pid, 1, "npm run build"), &StubProc);
    }
    let ops = t.finalize_all();
    assert_eq!(ops.iter().map(|o| o.root_pid).collect::<Vec<_>>(), vec![100, 200, 300]);
    assert!(ops.iter().all(|o| o.end_time.is_some() && o.exit_code.is_none()));
    assert_eq!(t.open_count(), 0);
    assert!(t.finalize_all().is_empty());
}

#[test]
fn the_summary_counts_and_samples() {
    let mut t = ProcessTree::new(wl());
    t.on_exec(&exec(100, 1, "npm run build"), &StubProc);
    t.on_exec(&exec(9, 8, "cat"), &StubProc);
    t.on_exec(&exec(10, 0, "ls"), &StubProc);
    t.on_file(&file(100, "npm run build", "rel", Access::Read), &StubProc);
    t.on_file(&file(9, "cat", "/x/repo/y", Access::Write), &StubProc);
    t.on_file(&file(9, "cat", "/etc/passwd", Access::Read), &StubProc);
    assert_eq!(
        t.debug_summary(),
        vec![
            "[dbg 5d16d6 HYP=BCD] file_events_total=3 attributed=1 unattributed=2 parents_map=2 tracked_map=1",
            "[dbg 5d16d6 HYP=BC exec] pid=100 ppid=1 comm=npm run build",
            "[dbg 5d16d6 HYP=BC exec] pid=9 ppid=8 comm=cat",
            "[dbg 5d16d6 HYP=AE attr_sample] pid=100 comm=npm run build Read:rel",
            "[dbg 5d16d6 HYP=BC unattr_sample] pid=9 comm=cat Write:/x/repo/y chain=[9- 8- |noparent]",
        ]
    );
    let op = t.on_exit(&exit(100, None, "npm run build"), &StubProc).unwrap();
    assert_eq!((op.dbg_recorded, op.dbg_relative), (1, 1));
    assert_eq!(op.dbg_samples, vec!["Read:rel"]);
}

#[test]
fn a_descendant_outlives_its_parent() {
    let mut t = ProcessTree::new(wl());
    t.on_exec(&exec(100, 1, "npm run build"), &StubProc);
    t.on_exec(&exec(101, 100, "sh"), &StubProc);
    assert!(t.on_exit(&exit(101, Some(0), "sh"), &StubProc).is_none());
    t.on_exec(&exec(102, 101, "node"), &StubProc);
    t.on_file(&file(102, "node", "/work/repo/a.ts", Access::Read), &StubProc);
    let op = t.on_exit(&exit(100, Some(0), "npm run build"), &StubProc).unwrap();
    assert_eq!(op.scoped_inputs(), vec!["/work/repo/a.ts"]);
}

#[test]
fn a_whole_line_of_exited_ancestors_still_leads_to_the_operation() {
    let mut t = ProcessTree::new(wl());
    t.on_exec(&exec(100, 1, "npm run build"), &StubProc);
    for pid in 101..110 {
        t.on_exec(&exec(pid, pid - 1, "sh"), &StubProc);
        if pid > 101 {
            t.on_exit(&exit(pid - 1, None, "sh"), &StubProc);
        }
    }
    t.on_exit(&exit(109, None, "sh"), &StubProc);
    assert_eq!(t.attribute(42, "cc1"), Attribution::Unattributed);
    t.on_exec(&exec(110, 109, "cc1"), &StubProc);
    assert_eq!(t.attribute(110, "cc1"), Attribution::Member(100));
}

#[test]
fn a_closed_operation_is_left_to_nobody() {
    let mut t = ProcessTree::new(wl());
    t.on_exec(&exec(100, 1, "npm run build"), &StubProc);
    t.on_exec(&exec(200, 1, "npm run test"), &StubProc);
    t.on_exec(&exec(101, 100, "sh"), &StubProc);
    t.on_exec(&exec(201, 200, "sh"), &StubProc);
    t.on_exit(&exit(101, None, "sh"), &StubProc);
    t.on_exit(&exit(201, None, "sh"), &StubProc);
    t.on_exit(&exit(100, None, "npm run build"), &StubProc).unwrap();
    // The number of the closed root is used again by a new operation.
    t.on_exec(&exec(100, 1, "npm run build"), &StubProc);
    t.on_exec(&exec(102, 101, "node"), &StubProc);
    t.on_exec(&exec(202, 201, "node"), &StubProc);
    assert_eq!(t.attribute(102, "node"), Attribution::Unattributed);
    assert_eq!(t.attribute(202, "node"), Attribution::Member(200));
    t.finalize_all();
    t.on_exec(&exec(203, 201, "node"), &StubProc);
    assert_eq!(t.attribute(203, "node"), Attribution::Unattributed);
}

#[test]
fn a_reused_number_leaves_nothing_of_its_former_process() {
    let mut t = ProcessTree::new(wl());
    t.on_exec(&exec(100, 1, "npm run build"), &StubProc);
    t.on_exec(&exec(101, 100, "sh"), &StubProc);
    t.on_exit(&exit(101, None, "sh"), &StubProc);
    t.on_exec(&exec(101, 7, "bash"), &StubProc);
    t.on_exec(&exec(102, 101, "node"), &StubProc);
    assert_eq!(t.attribute(101, "bash"), Attribution::Unattributed);
    assert_eq!(t.attribute(102, "node"), Attribution::Unattributed);
}

#[test]
fn a_finalized_operation_is_not_reported_again() {
    let mut t = ProcessTree::new(wl());
    t.on_exec(&exec(100, 1, "npm run build"), &StubProc);
    let ops = t.finalize_all();
    assert_eq!((ops.len(), ops[0].exit_code), (1, None));
    assert!(t.on_exit(&exit(100, Some(0), "npm run build"), &StubProc).is_none());
    assert!(t.finalize_all().is_empty());
    assert_eq!(t.open_count(), 0);
}
