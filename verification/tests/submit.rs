use ci_tracer::mock_pipeline::process;
use ci_tracer::submit::{
    attempt, classify_status, parse_receipt, AttemptResult, Reply, StatusClass, SubmitAction, SubmitOutcome, Submission,
    Submitter,
};

#[test]
fn status_mapping() {
    assert_eq!(classify_status(200), StatusClass::Success);
    assert_eq!(classify_status(400), StatusClass::InvalidRecord);
    assert_eq!(classify_status(422), StatusClass::InvalidRecord);
    assert_eq!(classify_status(401), StatusClass::Unauthorized);
    assert_eq!(classify_status(500), StatusClass::Retry);
    assert_eq!(classify_status(503), StatusClass::Retry);
}

#[test]
fn process_url_is_appended_once() {
    let s = Submitter::new("https://pipe.example/", "tok".into());
    assert_eq!(s.process_url, "https://pipe.example/pipeline/process");
}

#[test]
fn base_urls_lose_all_trailing_slashes() {
    assert_eq!(Submitter::new("https://p", "t".into()).process_url, "https://p/pipeline/process");
    assert_eq!(Submitter::new("https://p///", "t".into()).process_url, "https://p/pipeline/process");
    assert_eq!(Submitter::new("", "t".into()).process_url, "/pipeline/process");
}

const BODY: &str = r#"{"runRecord":{"type":"build","command":"npm run build"},"metadata":{}}"#;

/// Deliver to a pipeline that gives these replies in turn; list the pauses.
fn deliver(mut s: Submission, replies: Vec<Reply>) -> (SubmitOutcome, Vec<u64>, usize) {
    let mut replies = replies.into_iter();
    let mut pauses = Vec::new();
    let mut sent = 0;
    loop {
        match s.next() {
            SubmitAction::Send(r) => {
                assert_eq!(r.body, BODY);
                sent += 1;
                s.replied(&replies.next().expect("no more replies than the pipeline gives"));
            }
            SubmitAction::Sleep(ms) => {
                pauses.push(ms);
                s.rested();
            }
            SubmitAction::Done(o) => return (o, pauses, sent),
        }
    }
}

fn submission(token: &str, attempts: u32) -> Submission {
    Submitter::new("http://127.0.0.1:1", token.into()).with_max_attempts(attempts).submit(Some(BODY.to_string()))
}

fn ok(body: &str) -> Reply {
    Reply::Answered(Some(body.to_string()))
}

#[test]
fn success_returns_receipt_and_sends_auth_and_trace() {
    let receipt = r#"{"receiptId":"sha256:abc","schemaVersion":"1.0.0","type":"build","graphWritesCompleted":true,"traceId":"t"}"#;
    let s = Submitter::new("http://127.0.0.1:1", "secret-token".into()).submit(Some(BODY.to_string()));
    let request = match s.next() {
        SubmitAction::Send(r) => r,
        _ => panic!("expected a request"),
    };
    assert_eq!(request.url, "http://127.0.0.1:1/pipeline/process");
    assert_eq!(request.timeout_secs, 30);
    let headers = request.headers();
    assert_eq!(headers[0], ("Authorization", "Bearer secret-token".to_string()));
    assert_eq!(headers[1], ("Content-Type", "application/json".to_string()));
    assert_eq!(headers[2].0.to_lowercase(), "x-trace-id");
    assert_eq!(headers[2].1, request.trace_id);
    assert!(request.body.contains("\"runRecord\""));
    match deliver(s, vec![ok(receipt)]) {
        (SubmitOutcome::Success { receipt_id }, pauses, 1) => {
            assert_eq!(receipt_id, "sha256:abc");
            assert!(pauses.is_empty());
        }
        other => panic!("expected success, got {other:?}"),
    }
}

#[test]
fn unauthorized_is_not_retried() {
    let (outcome, pauses, sent) = deliver(submission("bad", 5), vec![Reply::Refused(401)]);
    assert!(matches!(outcome, SubmitOutcome::Unauthorized));
    assert_eq!((pauses.len(), sent), (0, 1));
}

#[test]
fn invalid_record_is_not_retried() {
    for code in [422, 400] {
        let (outcome, pauses, sent) = deliver(submission("tok", 5), vec![Reply::Refused(code)]);
        assert!(matches!(outcome, SubmitOutcome::InvalidRecord));
        assert_eq!((pauses.len(), sent), (0, 1));
    }
}

#[test]
fn transient_503_is_retried_then_succeeds() {
    let receipt = r#"{"receiptId":"sha256:def","schemaVersion":"1.0.0","type":"build","graphWritesCompleted":true,"traceId":"t"}"#;
    match deliver(submission("tok", 3), vec![Reply::Refused(503), ok(receipt)]) {
        (SubmitOutcome::Success { receipt_id }, pauses, 2) => {
            assert_eq!(receipt_id, "sha256:def");
            assert_eq!(pauses, vec![250]);
        }
        other => panic!("expected success after retry, got {other:?}"),
    }
}

#[test]
fn attempts_are_bounded_and_pauses_double_up_to_a_bound() {
    let (outcome, pauses, sent) = deliver(submission("tok", 8), vec![Reply::Unreachable; 8]);
    assert!(matches!(outcome, SubmitOutcome::Failed));
    assert_eq!(sent, 8);
    assert_eq!(pauses, vec![250, 500, 1000, 2000, 4000, 8000, 8000]);
}

#[test]
fn five_attempts_are_the_default_and_one_is_the_least() {
    let s = Submitter::new("http://p", "t".into());
    assert_eq!(s.max_attempts, 5);
    let (outcome, pauses, sent) = deliver(s.submit(Some(BODY.to_string())), vec![Reply::Refused(500); 5]);
    assert!(matches!(outcome, SubmitOutcome::Failed));
    assert_eq!((pauses.len(), sent), (4, 5));
    let (outcome, pauses, sent) = deliver(submission("t", 0), vec![Reply::Refused(404)]);
    assert!(matches!(outcome, SubmitOutcome::Failed));
    assert_eq!((pauses.len(), sent), (0, 1));
}

#[test]
fn an_answer_without_a_receipt_is_retried() {
    for body in ["", "[]", r#"{"receiptId":7}"#, r#"{"receipt":"x"}"#] {
        let (outcome, _, sent) = deliver(submission("t", 2), vec![ok(body), ok(r#"{"receiptId":"r"}"#)]);
        assert!(matches!(outcome, SubmitOutcome::Success { receipt_id } if receipt_id == "r"));
        assert_eq!(sent, 2);
    }
    let (outcome, _, _) = deliver(submission("t", 1), vec![Reply::Answered(None)]);
    assert!(matches!(outcome, SubmitOutcome::Failed));
}

#[test]
fn a_record_that_cannot_be_written_is_invalid_at_once() {
    let s = Submitter::new("http://p", "t".into()).submit(None);
    assert!(matches!(s.next(), SubmitAction::Done(SubmitOutcome::InvalidRecord)));
}

#[test]
fn every_submission_has_a_trace_id_of_its_own() {
    let s = Submitter::new("http://p", "t".into());
    let (a, b) = (s.submit(None).request.trace_id, s.submit(None).request.trace_id);
    assert_ne!(a, b);
    for id in [a, b] {
        assert_eq!(id.len(), 36);
        let bytes = id.as_bytes();
        for (i, c) in bytes.iter().enumerate() {
            match i {
                8 | 13 | 18 | 23 => assert_eq!(*c, b'-'),
                14 => assert_eq!(*c, b'4'),
                _ => assert!(c.is_ascii_digit() || (b'a'..=b'f').contains(c)),
            }
        }
    }
}

#[test]
fn receipts_are_read_from_the_top_level_only() {
    assert_eq!(parse_receipt(&Some(r#"{"receiptId":"a","x":{"receiptId":"b"}}"#.to_string())).as_deref(), Some("a"));
    assert_eq!(parse_receipt(&Some(r#"{"x":{"receiptId":"b"}}"#.to_string())), None);
    assert_eq!(parse_receipt(&Some(r#"{"receiptId":"ab"}"#.to_string())).as_deref(), Some("ab"));
    assert_eq!(parse_receipt(&None), None);
}

#[test]
fn each_reply_comes_to_one_result() {
    assert!(matches!(attempt(&Reply::Refused(200)), AttemptResult::Class(StatusClass::Success)));
    assert!(matches!(attempt(&Reply::Refused(302)), AttemptResult::Class(StatusClass::Retry)));
    assert!(matches!(attempt(&Reply::Unreachable), AttemptResult::Class(StatusClass::Retry)));
    assert!(matches!(attempt(&ok(r#"{"receiptId":"r"}"#)), AttemptResult::Success(id) if id == "r"));
}

#[test]
fn the_stand_in_pipeline_accepts_what_is_sent() {
    let s = submission("tok", 1);
    let request = s.request.clone();
    let headers: Vec<(String, String)> = request.headers().into_iter().map(|(k, v)| (k.to_string(), v)).collect();
    let (status, body) = process(&headers, Some("tok"), &request.body);
    assert_eq!(status, 200);
    let (outcome, _, _) = deliver(s, vec![Reply::Answered(Some(body))]);
    let expected = ci_tracer::hash::sha256_of(br#"{"command":"npm run build","type":"build"}"#);
    assert!(matches!(outcome, SubmitOutcome::Success { receipt_id } if receipt_id == expected));
}
