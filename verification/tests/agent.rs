use ci_tracer::adapter::github::GithubAdapter;
use ci_tracer::agent::{
    advance, begin, dispatch, fill_directory, hooks, reconciler_for, repo_root_of, settle, startup, AgentEvent, AgentPhase,
    Startup,
};
use ci_tracer::assemble::AssembleError;
use ci_tracer::common::{EVENT_FILE_ACCESS, EVENT_PROCESS_EXEC, EVENT_PROCESS_EXIT};
use ci_tracer::observe::{Operation, ProcSource, ProcessTree, RootCapture, WhitelistEntry};
use ci_tracer::reconcile::{Coverage, Reconciler};
use ci_tracer::submit::SubmitOutcome;
use ci_tracer::time::Timestamp;

struct Proc;

impl ProcSource for Proc {
    fn cmdline(&self, pid: u32) -> Option<String> {
        Some(format!("make {pid}"))
    }
    fn cwd(&self, _pid: u32) -> Option<String> {
        Some("/w".to_string())
    }
}

fn record(words: &[u32], texts: &[(&str, usize)]) -> Vec<u8> {
    let mut data: Vec<u8> = words.iter().flat_map(|w| w.to_ne_bytes()).collect();
    for (t, len) in texts {
        let mut field = t.as_bytes().to_vec();
        field.resize(*len, 0);
        data.extend_from_slice(&field);
    }
    data
}

#[test]
fn records_drive_the_tree() {
    let mut tree = ProcessTree::new(vec![WhitelistEntry::new("make", None)]);
    assert!(dispatch(&[1, 2, 3], &mut tree, &Proc).is_none());
    assert!(dispatch(&record(&[EVENT_PROCESS_EXEC, 7, 1], &[("make", 16)]), &mut tree, &Proc).is_none());
    assert_eq!(tree.open_count(), 1);
    let file = record(&[EVENT_FILE_ACCESS, 7, 2], &[("make", 16), ("/w/out", 256)]);
    assert!(dispatch(&file, &mut tree, &Proc).is_none());
    let exit = record(&[EVENT_PROCESS_EXIT, 7, 2, 1], &[("make", 16)]);
    let op = dispatch(&exit, &mut tree, &Proc).unwrap();
    assert_eq!(op.command.as_deref(), Some("make 7"));
    assert_eq!(op.exit_code, Some(2));
    assert_eq!(op.scoped_outputs(), vec!["/w/out"]);
    assert_eq!(repo_root_of(&op), "/w");
    assert_eq!(tree.open_count(), 0);
}

#[test]
fn the_core_hooks_come_first_and_are_required() {
    let h = hooks();
    assert_eq!(h.len(), 9);
    assert!(h.iter().take(5).all(|k| k.required));
    assert!(h.iter().skip(5).all(|k| !k.required));
    assert_eq!((h[0].program, h[0].category, h[0].name), ("trace_fork", "sched", "sched_process_fork"));
    assert_eq!((h[8].program, h[8].category, h[8].name), ("trace_truncate", "syscalls", "sys_enter_truncate"));
}

#[test]
fn shutdown_goes_through_its_phases() {
    let mut phase = AgentPhase::Draining;
    let mut seen = vec![phase];
    for event in [
        AgentEvent::Record,
        AgentEvent::Empty,
        AgentEvent::Tick,
        AgentEvent::Empty,
        AgentEvent::Stop,
        AgentEvent::Record,
        AgentEvent::Empty,
        AgentEvent::Completed,
        AgentEvent::Completed,
        AgentEvent::Completed,
    ] {
        phase = advance(phase, event, true);
        seen.push(phase);
    }
    assert_eq!(
        seen,
        vec![
            AgentPhase::Draining,
            AgentPhase::Draining,
            AgentPhase::Waiting,
            AgentPhase::Draining,
            AgentPhase::Waiting,
            AgentPhase::LastDrain,
            AgentPhase::LastDrain,
            AgentPhase::Finalizing,
            AgentPhase::Flushing,
            AgentPhase::Finishing,
            AgentPhase::Over,
        ]
    );
    assert_eq!(advance(AgentPhase::Finalizing, AgentEvent::Completed, false), AgentPhase::Finishing);
    assert_eq!(advance(AgentPhase::Draining, AgentEvent::Stop, true), AgentPhase::Draining);
    assert_eq!(advance(AgentPhase::Over, AgentEvent::Record, true), AgentPhase::Over);
}

fn operation(wd: Option<&str>) -> Operation {
    let capture = RootCapture {
        at: Timestamp::new(0, 0).unwrap(),
        command: None,
        working_directory: wd.map(str::to_string),
    };
    Operation::new(1, "make".to_string(), None, capture)
}

#[test]
fn every_operation_is_delivered_or_leaves_a_gap() {
    let vars = vec![
        ("GITHUB_REPOSITORY".to_string(), "o/n".to_string()),
        ("GITHUB_SHA".to_string(), "c".to_string()),
    ];
    let adapter = GithubAdapter::from_env(&vars, None, None, None, None, vec![]);
    let success = SubmitOutcome::Success { receipt_id: "r".to_string() };
    let mut r = Reconciler::new("/s");

    assert_eq!(begin(&mut r, &operation(Some("/w")), &adapter), None);
    assert_eq!(settle(&mut r, Some(&success)), None);
    assert_eq!(r.coverage(), Coverage::Clean);

    assert_eq!(begin(&mut r, &operation(Some("/w")), &adapter), None);
    assert_eq!(settle(&mut r, Some(&SubmitOutcome::Failed)).as_deref(), Some("/s/ci-recorder-buffer/record-000000.json"));
    assert_eq!(begin(&mut r, &operation(Some("/w")), &adapter), None);
    assert_eq!(settle(&mut r, None).as_deref(), Some("/s/ci-recorder-buffer/record-000001.json"));
    assert_eq!(r.coverage(), Coverage::Unknown);

    assert!(r.flush_buffered(&success));
    assert!(r.flush_buffered(&success));
    assert_eq!(r.coverage(), Coverage::Clean);

    assert_eq!(begin(&mut r, &operation(None), &adapter), Some(AssembleError::NoWorkingDirectory));
    assert_eq!(repo_root_of(&operation(None)), "");
    assert_eq!(r.coverage(), Coverage::Unknown);
}

#[test]
fn a_refused_record_is_not_buffered_and_leaves_a_gap() {
    let vars = vec![
        ("GITHUB_REPOSITORY".to_string(), "o/n".to_string()),
        ("GITHUB_SHA".to_string(), "c".to_string()),
    ];
    let adapter = GithubAdapter::from_env(&vars, None, None, None, None, vec![]);
    let mut r = Reconciler::new("/s");
    assert_eq!(begin(&mut r, &operation(Some("/w")), &adapter), None);
    assert_eq!(settle(&mut r, Some(&SubmitOutcome::InvalidRecord)), None);
    assert_eq!((r.observed, r.submitted, r.next_buffer_seq), (1, 0, 0));
    assert_eq!(r.coverage(), Coverage::Unknown);
    assert_eq!(begin(&mut r, &operation(Some("/w")), &adapter), None);
    assert_eq!(
        settle(&mut r, Some(&SubmitOutcome::Unauthorized)).as_deref(),
        Some("/s/ci-recorder-buffer/record-000000.json")
    );
    assert!(r.flush_buffered(&SubmitOutcome::Success { receipt_id: "r".to_string() }));
    assert_eq!(r.coverage(), Coverage::Unknown);
}

#[test]
fn a_missing_directory_is_filled_from_the_workspace() {
    let mut op = operation(None);
    fill_directory(&mut op, None);
    fill_directory(&mut op, Some(""));
    fill_directory(&mut op, Some("relative"));
    assert_eq!(op.working_directory, None);
    fill_directory(&mut op, Some("/home/runner/work/repo"));
    assert_eq!(op.working_directory.as_deref(), Some("/home/runner/work/repo"));
    fill_directory(&mut op, Some("/elsewhere"));
    assert_eq!(repo_root_of(&op), "/home/runner/work/repo");
    assert_eq!(op.command, None);
    op.record("/home/runner/work/repo/a", ci_tracer::events::Access::Read);
    assert_eq!(op.scoped_inputs(), vec!["/home/runner/work/repo/a"]);
}

#[test]
fn without_capture_the_job_is_unknown_and_fails_only_on_request() {
    assert_eq!(startup(true, false), Startup::Capture);
    assert_eq!(startup(true, true), Startup::Capture);
    assert_eq!(startup(false, false), Startup::Skip);
    assert_eq!(startup(false, true), Startup::Fail);
    assert_eq!(reconciler_for("/s", true).coverage(), Coverage::Clean);
    let mut blind = reconciler_for("/s", false);
    assert_eq!(blind.coverage(), Coverage::Unknown);
    blind.record_submitted();
    assert_eq!(blind.coverage(), Coverage::Unknown);
    assert_eq!(blind.signal_path, "/s/ci-recorder-reconciliation.json");
}
