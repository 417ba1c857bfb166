use ci_tracer::mock_pipeline::{authorized, header, process, receipt_body, route, Route, UNAUTHORIZED_BODY};

fn headers(pairs: &[(&str, &str)]) -> Vec<(String, String)> {
    pairs.iter().map(|(k, v)| (k.to_string(), v.to_string())).collect()
}

#[test]
fn routes_are_exact() {
    assert_eq!(route("GET", "/health"), Route::Health);
    assert_eq!(route("POST", "/pipeline/process"), Route::Process);
    for (m, u) in [("POST", "/health"), ("GET", "/pipeline/process"), ("GET", "/health/"), ("get", "/health"), ("", "")] {
        assert_eq!(route(m, u), Route::NotFound);
    }
}

#[test]
fn tokens_are_compared_exactly() {
    assert!(authorized(Some("Bearer tok"), Some("tok")));
    assert!(!authorized(Some("Bearer tok2"), Some("tok")));
    assert!(!authorized(Some("bearer tok"), Some("tok")));
    assert!(!authorized(Some("Bearer"), Some("")));
    assert!(authorized(Some("Bearer "), Some("")));
    assert!(!authorized(None, Some("tok")));
}

#[test]
fn any_token_will_do_when_none_is_expected() {
    assert!(authorized(Some("Bearer x"), None));
    assert!(!authorized(Some("Bearer "), None));
    assert!(!authorized(Some("x"), None));
    assert!(!authorized(None, None));
}

#[test]
fn header_names_ignore_case_and_the_first_counts() {
    let h = headers(&[("a", "0"), ("x-TRACE-id", "1"), ("X-Trace-Id", "2")]);
    assert_eq!(header(&h, "X-Trace-Id").as_deref(), Some("1"));
    assert_eq!(header(&h, "b"), None);
}

#[test]
fn submissions_are_answered_with_a_content_addressed_receipt() {
    let h = headers(&[("Authorization", "Bearer t"), ("X-Trace-Id", "trace")]);
    let one = process(&h, None, r#"{"runRecord": {"type":"test", "command":"x"}, "metadata": {"run_id":"1"}}"#);
    let two = process(&h, None, r#"{"metadata": {"run_id":"2"}, "runRecord": {"command":"x","type":"test"}}"#);
    assert_eq!(one, two);
    assert_eq!(one.0, 200);
    assert_eq!(
        one.1,
        r#"{"receiptId":"sha256:cf2d8b14a18bc8a0fcfb8eb6c75e06e0b76400add739d2d5a41c86e2482b4586","schemaVersion":"1.0.0","type":"test","graphWritesCompleted":true,"traceId":"trace"}"#
    );
    assert_eq!(one.1, receipt_body(r#"{"command":"x","type":"test"}"#, "test", Some("trace")));
}

#[test]
fn a_submission_without_a_record_counts_as_null() {
    let h = headers(&[("authorization", "Bearer t")]);
    for body in ["", "not json", "{}", "[1]"] {
        let (status, answer) = process(&h, Some("t"), body);
        assert_eq!(status, 200);
        assert_eq!(
            answer,
            r#"{"receiptId":"sha256:74234e98afe7498fb5daf1f36ac2d78acc339464f950703b8c019892f982b90b","schemaVersion":"1.0.0","type":"build","graphWritesCompleted":true,"traceId":"mock-trace"}"#
        );
    }
}

#[test]
fn a_refusal_is_the_same_for_every_body() {
    let h = headers(&[("Authorization", "Bearer wrong")]);
    for body in ["", r#"{"runRecord":{}}"#] {
        assert_eq!(process(&h, Some("t"), body), (401, UNAUTHORIZED_BODY.to_string()));
        assert_eq!(process(&headers(&[]), None, body), (401, UNAUTHORIZED_BODY.to_string()));
    }
}
