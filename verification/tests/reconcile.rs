use ci_tracer::reconcile::{is_record_file, Coverage, Reconciler};
use ci_tracer::submit::SubmitOutcome;
use ci_tracer::time::Timestamp;

#[test]
fn coverage_clean_when_all_submitted() {
    let mut r = Reconciler::new("/state");
    r.record_observed();
    r.record_observed();
    r.record_submitted();
    r.record_submitted();
    assert_eq!(r.coverage(), Coverage::Clean);
}

#[test]
fn coverage_unknown_on_shortfall() {
    let mut r = Reconciler::new("/state");
    r.record_observed();
    r.record_observed();
    r.record_submitted();
    assert_eq!(r.coverage(), Coverage::Unknown);
}

#[test]
fn finish_writes_signal_file() {
    let mut r = Reconciler::new("/state");
    r.record_observed();
    let f = r.finish();
    assert_eq!(f.signal.path, "/state/ci-recorder-reconciliation.json");
    assert!(f.signal.content.contains("\"coverage\":\"unknown\""));
}

#[test]
fn the_signal_and_the_log_give_the_counts() {
    let mut r = Reconciler::new("/state");
    for _ in 0..12 {
        r.record_observed();
    }
    for _ in 0..10 {
        r.record_submitted();
    }
    let f = r.finish();
    assert_eq!(f.signal.content, r#"{"observed":12,"submitted":10,"coverage":"unknown"}"#);
    assert_eq!(f.log, "[ci-recorder] SUB_004: observed 12 operations but submitted 10; coverage=unknown");
    r.record_submitted();
    r.record_submitted();
    let f = r.finish();
    assert_eq!(f.signal.content, r#"{"observed":12,"submitted":12,"coverage":"clean"}"#);
    assert_eq!(f.log, "[ci-recorder] reconciliation: observed 12 submitted 12; coverage=clean");
}

#[test]
fn a_job_without_capture_is_never_clean() {
    let mut r = Reconciler::new("/state");
    assert_eq!(r.coverage(), Coverage::Clean);
    r.capture_unavailable();
    assert_eq!(r.coverage(), Coverage::Unknown);
    let f = r.finish();
    assert_eq!(f.signal.content, r#"{"observed":0,"submitted":0,"coverage":"unknown"}"#);
    assert_eq!(f.log, "[ci-recorder] OBS_001: nothing could be observed; coverage=unknown");
}

#[test]
fn buffered_records_are_numbered() {
    let mut r = Reconciler::new("/state/");
    assert_eq!(r.buffer_dir, "/state/ci-recorder-buffer");
    assert_eq!(r.buffer(), "/state/ci-recorder-buffer/record-000000.json");
    assert_eq!(r.buffer(), "/state/ci-recorder-buffer/record-000001.json");
    r.next_buffer_seq = 1_234_567;
    assert_eq!(r.buffer(), "/state/ci-recorder-buffer/record-1234567.json");
    assert_eq!(Reconciler::new("").buffer_dir, "ci-recorder-buffer");
}

#[test]
fn only_json_files_hold_records() {
    for (name, holds) in [
        ("record-000000.json", true),
        ("a.json", true),
        ("..json", true),
        (".json", false),
        ("json", false),
        ("a.jsonx", false),
        ("a.JSON", false),
        ("", false),
    ] {
        assert_eq!(is_record_file(name.as_bytes()), holds, "{name}");
        assert_eq!(std::path::Path::new(name).extension().and_then(|e| e.to_str()) == Some("json"), holds, "{name}");
    }
}

#[test]
fn a_delivered_buffered_record_is_counted_and_removed() {
    let mut r = Reconciler::new("/state");
    r.record_observed();
    assert!(!r.flush_buffered(&SubmitOutcome::Failed));
    assert!(!r.flush_buffered(&SubmitOutcome::Unauthorized));
    assert!(!r.flush_buffered(&SubmitOutcome::InvalidRecord));
    assert_eq!(r.coverage(), Coverage::Unknown);
    assert!(r.flush_buffered(&SubmitOutcome::Success { receipt_id: "r".to_string() }));
    assert_eq!(r.coverage(), Coverage::Clean);
}

#[test]
fn heartbeats_name_the_state_and_the_instant() {
    let r = Reconciler::new("/state");
    let at = Timestamp::new(1_775_055_600, 5_000_000).unwrap();
    let w = r.heartbeat_at("started", &at);
    assert_eq!(w.path, "/state/ci-recorder-heartbeat.json");
    assert_eq!(w.content, r#"{"state":"started","at":"2026-04-01T15:00:00.005+00:00"}"#);
    assert!(r.heartbeat_start().content.starts_with(r#"{"state":"started","at":"20"#));
    assert!(r.finish().heartbeat.content.starts_with(r#"{"state":"stopped","at":"20"#));
    assert_eq!((Coverage::Clean.as_str(), Coverage::Unknown.as_str()), ("clean", "unknown"));
}
