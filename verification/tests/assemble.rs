use ci_tracer::adapter::github::GithubAdapter;
use ci_tracer::assemble::{assemble, assemble_at, blocked, resolve_type, AssembleError, Assembled, Host};
use ci_tracer::events::Access;
use ci_tracer::hash::{sha256_of, Hasher};
use ci_tracer::hashing::{hash_set, Hashing, HostCall};
use ci_tracer::observe::{Operation, RootCapture};
use ci_tracer::runrecord::RunRecordType;
use ci_tracer::time::Timestamp;

#[test]
fn adapter_hint_wins() {
    let (t, h) = resolve_type(Some(RunRecordType::Deploy), Some(RunRecordType::Build), "npm run build");
    assert_eq!(t, RunRecordType::Deploy);
    assert!(!h);
}

#[test]
fn whitelist_tag_used_without_hint() {
    let (t, h) = resolve_type(None, Some(RunRecordType::Test), "whatever");
    assert_eq!(t, RunRecordType::Test);
    assert!(!h);
}

#[test]
fn heuristic_is_flagged() {
    let (t, h) = resolve_type(None, None, "sh ./scripts/deploy.sh");
    assert_eq!(t, RunRecordType::Deploy);
    assert!(h);

    let (t2, h2) = resolve_type(None, None, "make all");
    assert_eq!(t2, RunRecordType::Build);
    assert!(h2);
}

#[test]
fn the_heuristic_ignores_case_and_prefers_deploy() {
    assert_eq!(resolve_type(None, None, "Run TESTs"), (RunRecordType::Test, true));
    assert_eq!(resolve_type(None, None, "test then DEPLOY"), (RunRecordType::Deploy, true));
    assert_eq!(resolve_type(None, None, ""), (RunRecordType::Build, true));
}

/// 2026-04-01T15:00:00Z.
const START: i64 = 1_775_055_600;

fn at(secs: i64, nanos: u32) -> Timestamp {
    Timestamp::new(secs, nanos).unwrap()
}

fn operation(wd: Option<&str>, command: Option<&str>) -> Operation {
    let capture = RootCapture {
        at: at(START, 0),
        command: command.map(str::to_string),
        working_directory: wd.map(str::to_string),
    };
    let mut op = Operation::new(100, "npm run build".to_string(), None, capture);
    op.record("/work/repo/src/b.ts", Access::Read);
    op.record("/work/repo/src/a.ts", Access::Read);
    op.record("/work/repo/dist/gone.js", Access::Create);
    op.record("/work/repo/dist/a.js", Access::Create);
    op.record("/usr/lib/x.so", Access::Read);
    op
}

fn adapter(pairs: &[(&str, &str)], hint: Option<RunRecordType>) -> GithubAdapter {
    let v: Vec<(String, String)> = pairs.iter().map(|(k, v)| (k.to_string(), v.to_string())).collect();
    GithubAdapter::from_env(&v, None, None, hint, None, vec!["NODE_ENV".to_string()])
}

fn full_adapter() -> GithubAdapter {
    adapter(
        &[
            ("GITHUB_REPOSITORY", "owner/name"),
            ("GITHUB_SHA", "deadbeef"),
            ("GITHUB_RUN_ID", "42"),
            ("GITHUB_RUN_ATTEMPT", "1"),
            ("GITHUB_ENVIRONMENT", "prod"),
        ],
        None,
    )
}

fn host() -> Host {
    Host { platform: "linux".to_string(), architecture: "amd64".to_string(), tool_versions: None }
}

/// Hash everything as a host whose files hold their own path, but for `gone.js`.
fn hashed(op: &Operation) -> Hashing {
    let mut h = Hashing::new(op, Hasher::new("/work/repo".to_string(), None));
    while let Some(call) = h.next() {
        match call {
            HostCall::Git(_) => panic!("git is not available"),
            HostCall::Read(p) => {
                h.reply(if p.ends_with("gone.js") { None } else { Some(p.into_bytes()) });
            }
        }
    }
    h
}

fn environment() -> Vec<(String, String)> {
    vec![
        ("NODE_ENV".to_string(), "production".to_string()),
        ("INPUT_PIPELINE_TOKEN".to_string(), "secret".to_string()),
    ]
}

fn assembled(op: &Operation) -> Assembled {
    assemble_at(op, &full_adapter(), &hashed(op), &environment(), host(), at(START + 150, 250_999_999)).unwrap()
}

#[test]
fn a_record_carries_what_was_observed() {
    let op = operation(Some("/work/repo"), Some("npm run build --prod"));
    let a = assembled(&op);
    let r = &a.body.run_record;
    assert_eq!(r.run_type, RunRecordType::Build);
    assert!(a.heuristic);
    assert_eq!(r.command, "npm run build --prod");
    assert_eq!(r.exit_code, None);
    assert_eq!((r.platform.as_str(), r.architecture.as_str()), ("linux", "amd64"));
    assert_eq!(r.working_directory, "/work/repo");
    assert_eq!((r.repo.as_str(), r.commit.as_str()), ("owner/name", "deadbeef"));
    assert!(r.tool_versions.is_none());
    let inputs: Vec<(&str, &str)> =
        r.inputs.as_ref().unwrap().iter().map(|e| (e.path.as_str(), e.hash.as_str())).collect();
    let (a_ts, b_ts) = (sha256_of(b"/work/repo/src/a.ts"), sha256_of(b"/work/repo/src/b.ts"));
    assert_eq!(inputs, vec![("/work/repo/src/a.ts", a_ts.as_str()), ("/work/repo/src/b.ts", b_ts.as_str())]);
    let outputs = r.outputs.as_ref().unwrap();
    assert_eq!(outputs.len(), 1);
    assert_eq!(outputs[0].path, "/work/repo/dist/a.js");
    assert_eq!(outputs[0].hash, sha256_of(b"/work/repo/dist/a.js"));
    assert_eq!(a.unreadable, vec!["/work/repo/dist/gone.js"]);
    assert_eq!(r.timestamps.start_time, "2026-04-01T15:00:00.000Z");
    assert_eq!(r.timestamps.end_time, "2026-04-01T15:02:30.250Z");
    assert_eq!(r.timestamps.duration_ms, 150_250);
}

#[test]
fn the_sidecar_carries_the_run_identity() {
    let op = operation(Some("/work/repo"), None);
    let a = assembled(&op);
    assert_eq!(a.body.run_record.command, "npm run build");
    let m = &a.body.metadata;
    assert_eq!(m.start_time.as_deref(), Some("2026-04-01T15:00:00.000Z"));
    assert_eq!(m.end_time.as_deref(), Some("2026-04-01T15:02:30.250Z"));
    assert_eq!(m.duration_ms, Some(150_250));
    assert_eq!(m.observation_mode.as_deref(), Some("file_access_tracking"));
    assert_eq!(m.run_id.as_deref(), Some("42"));
    assert_eq!(m.run_attempt.as_deref(), Some("1"));
    assert_eq!(m.deploy_target.as_deref(), Some("prod"));
}

#[test]
fn run_identity_does_not_change_the_record() {
    let op = operation(Some("/work/repo"), None);
    let other = adapter(
        &[("GITHUB_REPOSITORY", "owner/name"), ("GITHUB_SHA", "deadbeef"), ("GITHUB_RUN_ID", "43")],
        None,
    );
    let now = at(START + 150, 250_999_999);
    let b = assemble_at(&op, &other, &hashed(&op), &environment(), host(), now).unwrap();
    assert_eq!(assembled(&op).body.run_record, b.body.run_record);
    assert_ne!(assembled(&op).body.metadata, b.body.metadata);
}

#[test]
fn only_allowlisted_variables_are_captured() {
    let op = operation(Some("/work/repo"), None);
    let a = assembled(&op);
    let env = a.body.run_record.environment.as_ref().unwrap();
    assert_eq!(env.len(), 1);
    assert_eq!(env.get("NODE_ENV").unwrap(), "production");
    assert!(!format!("{:?}", a.body).contains("secret"));
}

#[test]
fn the_observed_end_and_exit_code_are_kept() {
    let mut op = operation(Some("/work/repo"), None);
    op.end_time = Some(at(START - 5, 0));
    op.exit_code = Some(2);
    op.whitelist_type = Some(RunRecordType::Test);
    let a = assembled(&op);
    assert_eq!(a.body.run_record.timestamps.end_time, "2026-04-01T14:59:55.000Z");
    assert_eq!(a.body.run_record.timestamps.duration_ms, 0);
    assert_eq!(a.body.run_record.exit_code, Some(2));
    assert_eq!(a.body.run_record.run_type, RunRecordType::Test);
    assert!(!a.heuristic);
}

#[test]
fn what_is_missing_is_named_in_order() {
    let nothing = adapter(&[], None);
    let no_commit = adapter(&[("GITHUB_REPOSITORY", "owner/name")], None);
    let op = operation(Some("/work/repo"), None);
    let nowhere = operation(None, None);
    for (op, adapter, error, message) in [
        (&nowhere, &nothing, AssembleError::NoWorkingDirectory, "operation has no working_directory; cannot relativize/join"),
        (&op, &nothing, AssembleError::NoRepo, "adapter could not source repo"),
        (&op, &no_commit, AssembleError::NoCommit, "adapter could not source commit"),
    ] {
        assert_eq!(blocked(op, adapter), Some(error));
        let r = assemble(op, adapter, &hashed(op), &environment(), host());
        assert_eq!(r.err(), Some(error));
        assert_eq!(error.message(), message);
    }
    assert_eq!(blocked(&op, &full_adapter()), None);
    assert!(assemble(&op, &full_adapter(), &hashed(&op), &environment(), host()).is_ok());
}

#[test]
fn an_operation_without_files_lists_none() {
    let capture = RootCapture { at: at(START, 0), command: None, working_directory: Some("/work/repo".to_string()) };
    let op = Operation::new(1, "make".to_string(), None, capture);
    let h = hashed(&op);
    assert!(h.next().is_none());
    let a = assemble_at(&op, &full_adapter(), &h, &vec![], host(), at(START, 0)).unwrap();
    assert!(a.body.run_record.inputs.is_none());
    assert!(a.body.run_record.outputs.is_none());
    assert!(a.body.run_record.environment.is_none());
    assert!(a.unreadable.is_empty());
}

#[test]
fn unreadable_files_are_flagged_and_an_empty_list_is_none() {
    let paths = vec!["/a".to_string(), "/b".to_string()];
    let (entries, flagged) = hash_set(&paths, &vec![Some("x".to_string()), None, None], 1);
    assert!(entries.is_none());
    assert_eq!(flagged, vec!["/a", "/b"]);
    let (entries, flagged) = hash_set(&paths, &vec![None, Some("h".to_string())], 0);
    assert_eq!(entries.unwrap()[0].path, "/b");
    assert_eq!(flagged, vec!["/a"]);
}

#[test]
fn tracked_inputs_are_hashed_through_git() {
    let op = operation(Some("/work/repo"), None);
    let mut h = Hashing::new(&op, Hasher::new("/work/repo".to_string(), Some(vec![])));
    let mut asked = 0;
    while let Some(call) = h.next() {
        match call {
            HostCall::Git(args) => {
                asked += 1;
                h.reply(if args[2] == "hash-object" {
                    Some(format!("{}\n", args[5]).into_bytes())
                } else if args[2] == "cat-file" {
                    Some(format!("stored {}", args[4]).into_bytes())
                } else {
                    Some(vec![])
                });
            }
            HostCall::Read(p) => h.reply(Some(p.into_bytes())),
        }
    }
    assert_eq!(asked, 6);
    let a = assemble_at(&op, &full_adapter(), &h, &environment(), host(), at(START, 0)).unwrap();
    let inputs = a.body.run_record.inputs.unwrap();
    assert_eq!(inputs[0].hash, sha256_of(b"stored src/a.ts"));
    assert_eq!(inputs[1].hash, sha256_of(b"stored src/b.ts"));
    let outputs = a.body.run_record.outputs.unwrap();
    assert_eq!(outputs[0].hash, sha256_of(b"/work/repo/dist/a.js"));
    assert_eq!(outputs[1].hash, sha256_of(b"/work/repo/dist/gone.js"));
}

#[test]
fn every_artifact_carries_a_digest() {
    let record = assembled(&operation(Some("/work/repo"), None)).body.run_record;
    let (inputs, outputs) = (record.inputs.unwrap(), record.outputs.unwrap());
    assert_eq!((inputs.len(), outputs.len()), (2, 1));
    for e in inputs.iter().chain(outputs.iter()) {
        let hex = e.hash.strip_prefix("sha256:").unwrap();
        assert_eq!(hex.len(), 64);
        assert!(hex.chars().all(|c| c.is_ascii_digit() || ('a'..='f').contains(&c)));
    }
}
