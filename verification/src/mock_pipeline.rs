//! The decisions of a minimal stand-in for the pipeline service, used to exercise
//! submission and reconciliation end to end:
//!
//! - `GET /health` answers `200`;
//! - `POST /pipeline/process` answers `200` with a content-addressed `receiptId`, or `401`
//!   when the bearer token is missing or unknown.

use vstd::prelude::*;
use vstd::utf8::encode_utf8;

use crate::hash::{digest_text, sha256_of};
use crate::json::{json_member_text, json_string_at, member_text, string_at};
use crate::text::{begins, begins_with, chars_of, lower_text, lowered, opt_str, opt_text, same_text, text_slice};

verus! {

/// What a request asks for.
#[derive(Clone, Copy, Debug, PartialEq, Eq, Structural)]
pub enum Route {
    Health,
    Process,
    NotFound,
}

/// What a request asks for.
pub open spec fn route_of(method: Seq<char>, url: Seq<char>) -> Route {
    if method == "GET"@ && url == "/health"@ {
        Route::Health
    } else if method == "POST"@ && url == "/pipeline/process"@ {
        Route::Process
    } else {
        Route::NotFound
    }
}

/// What a request asks for.
pub fn route(method: &str, url: &str) -> (r: Route)
    ensures
        r == route_of(method@, url@),
{
    if same_text(method, "GET") && same_text(url, "/health") {
        Route::Health
    } else if same_text(method, "POST") && same_text(url, "/pipeline/process") {
        Route::Process
    } else {
        Route::NotFound
    }
}

/// The body of a health answer.
pub const HEALTH_BODY: &'static str = "{\"status\":\"ok\",\"uptimeSeconds\":0,\"version\":\"mock\"}";

/// The body of a `404` answer.
pub const NOT_FOUND_BODY: &'static str = "{\"statusCode\":404,\"message\":\"not found\"}";

/// The body of a `401` answer.
pub const UNAUTHORIZED_BODY: &'static str = "{\"statusCode\":401,\"stage\":\"auth\",\"errorClass\":\"UnauthorizedError\",\"code\":\"AUTH_001\",\"message\":\"Invalid or missing bearer token\"}";

/// The value of the first header with this name, whatever the case of its letters.
pub open spec fn header_value(headers: Seq<(Seq<char>, Seq<char>)>, name: Seq<char>) -> Option<Seq<char>>
    decreases headers.len(),
{
    if headers.len() == 0 {
        None
    } else if lowered(headers[0].0) == lowered(name) {
        Some(headers[0].1)
    } else {
        header_value(headers.drop_first(), name)
    }
}

/// The value of the first header with this name, whatever the case of its letters.
pub fn header(headers: &Vec<(String, String)>, name: &str) -> (r: Option<String>)
    ensures
        opt_text(r) == header_value(crate::env::pairs(headers@), name@),
{
    let wanted = lower_text(name);
    let ghost all = crate::env::pairs(headers@);
    let mut i: usize = 0;
    assert(all.skip(0) =~= all);
    while i < headers.len()
        invariant
            i <= headers@.len(),
            wanted@ == lowered(name@),
            all == crate::env::pairs(headers@),
            header_value(all, name@) == header_value(all.skip(i as int), name@),
        decreases headers@.len() - i,
    {
        assert(all.skip(i as int)[0] == (headers@[i as int].0@, headers@[i as int].1@));
        let field = lower_text(headers[i].0.as_str());
        if same_text(field.as_str(), wanted.as_str()) {
            return Some(headers[i].1.clone());
        }
        assert(all.skip(i as int).drop_first() =~= all.skip(i + 1));
        i += 1;
    }
    None
}

/// The token that an `Authorization` value carries.
pub open spec fn bearer_token(auth: Option<Seq<char>>) -> Option<Seq<char>> {
    match auth {
        Some(a) => if begins(a, "Bearer "@) {
            Some(a.skip("Bearer "@.len() as int))
        } else {
            None
        },
        None => None,
    }
}

/// Whether a request may submit: with the expected token, or, when none is expected, with
/// any token that is not empty.
pub open spec fn may_submit(auth: Option<Seq<char>>, expected: Option<Seq<char>>) -> bool {
    match bearer_token(auth) {
        Some(token) => match expected {
            Some(e) => token == e,
            None => token.len() > 0,
        },
        None => false,
    }
}

/// Whether a request may submit, by its `Authorization` value.
pub fn authorized(auth: Option<&str>, expected: Option<&str>) -> (r: bool)
    ensures
        r == may_submit(opt_str(auth), opt_str(expected)),
{
    let auth = match auth {
        Some(a) => a,
        None => {
            return false;
        },
    };
    if !begins_with(auth, "Bearer ") {
        return false;
    }
    proof {
        reveal_strlit("Bearer ");
    }
    let v = chars_of(auth);
    let token = text_slice(&v, 7, v.len());
    assert(token@ =~= auth@.skip(7));
    match expected {
        Some(e) => same_text(token.as_str(), e),
        None => !token.as_str().is_empty(),
    }
}

/// Where a submission holds the record.
pub const RECORD_POINTER: &'static str = "/runRecord";

/// Where a submission holds the record's `type`.
pub const TYPE_POINTER: &'static str = "/runRecord/type";

/// The record of a submission, in compact form; `null` when there is none.
pub open spec fn record_text(body: Seq<char>) -> Seq<char> {
    match json_member_text(body, RECORD_POINTER@) {
        Some(t) => t,
        None => "null"@,
    }
}

/// The `type` of a submission's record; `build` when it names none.
pub open spec fn record_type(body: Seq<char>) -> Seq<char> {
    match json_string_at(body, TYPE_POINTER@) {
        Some(t) => t,
        None => "build"@,
    }
}

/// The receipt id of a record.
pub open spec fn receipt_id(record: Seq<char>) -> Seq<char> {
    digest_text(encode_utf8(record))
}

/// The body of an answer to a submission that was accepted.
pub open spec fn accepted_body(receipt: Seq<char>, run_type: Seq<char>, trace: Seq<char>) -> Seq<char> {
    "{\"receiptId\":\""@ + receipt + "\",\"schemaVersion\":\"1.0.0\",\"type\":\""@ + run_type
        + "\",\"graphWritesCompleted\":true,\"traceId\":\""@ + trace + "\"}"@
}

/// The trace id of a submission that names none.
pub const DEFAULT_TRACE: &'static str = "mock-trace";

/// The body of an answer to a submission that was accepted, given the record in compact
/// form and its `type`.
pub fn receipt_body(record: &str, run_type: &str, trace: Option<&str>) -> (r: String)
    ensures
        r@ == accepted_body(
            receipt_id(record@),
            run_type@,
            match opt_str(trace) {
                Some(t) => t,
                None => DEFAULT_TRACE@,
            },
        ),
{
    let receipt = sha256_of(record.as_bytes());
    let mut r = String::from_str("{\"receiptId\":\"");
    r.append(receipt.as_str());
    r.append("\",\"schemaVersion\":\"1.0.0\",\"type\":\"");
    r.append(run_type);
    r.append("\",\"graphWritesCompleted\":true,\"traceId\":\"");
    match trace {
        Some(t) => r.append(t),
        None => r.append(DEFAULT_TRACE),
    }
    r.append("\"}");
    r
}

/// The status and body with which a submission is answered.
pub open spec fn process_answer(
    headers: Seq<(Seq<char>, Seq<char>)>,
    expected: Option<Seq<char>>,
    body: Seq<char>,
) -> (u16, Seq<char>) {
    if may_submit(header_value(headers, "Authorization"@), expected) {
        (
            200,
            accepted_body(
                receipt_id(record_text(body)),
                record_type(body),
                match header_value(headers, "X-Trace-Id"@) {
                    Some(t) => t,
                    None => DEFAULT_TRACE@,
                },
            ),
        )
    } else {
        (401, UNAUTHORIZED_BODY@)
    }
}

/// The status and body with which a submission is answered.
pub fn process(headers: &Vec<(String, String)>, expected: Option<&str>, body: &str) -> (r: (u16, String))
    ensures
        r.0 == process_answer(crate::env::pairs(headers@), opt_str(expected), body@).0,
        r.1@ == process_answer(crate::env::pairs(headers@), opt_str(expected), body@).1,
{
    let auth = header(headers, "Authorization");
    let auth = match &auth {
        Some(a) => Some(a.as_str()),
        None => None,
    };
    if !authorized(auth, expected) {
        return (401, UNAUTHORIZED_BODY.to_owned());
    }
    let trace = header(headers, "X-Trace-Id");
    let trace = match &trace {
        Some(t) => Some(t.as_str()),
        None => None,
    };
    let record = match member_text(body, RECORD_POINTER) {
        Some(t) => t,
        None => "null".to_owned(),
    };
    let run_type = match string_at(body, TYPE_POINTER) {
        Some(t) => t,
        None => "build".to_owned(),
    };
    (200, receipt_body(record.as_str(), run_type.as_str(), trace))
}

/// The receipt is content-addressed: two submissions of the same record get the same
/// answer, whatever else they carry beside the record.
pub proof fn the_receipt_is_content_addressed(
    headers: Seq<(Seq<char>, Seq<char>)>,
    expected: Option<Seq<char>>,
    one: Seq<char>,
    two: Seq<char>,
)
    requires
        record_text(one) == record_text(two),
        record_type(one) == record_type(two),
    ensures
        process_answer(headers, expected, one) == process_answer(headers, expected, two),
{
}

/// Without an acceptable token nothing about the submission is told: the answer is the
/// same for every body.
pub proof fn a_refusal_tells_nothing(
    headers: Seq<(Seq<char>, Seq<char>)>,
    expected: Option<Seq<char>>,
    body: Seq<char>,
)
    requires
        !may_submit(header_value(headers, "Authorization"@), expected),
    ensures
        process_answer(headers, expected, body) == (401u16, UNAUTHORIZED_BODY@),
{
}

/// A submission that carries the bearer header of a submitter with the expected token is
/// accepted.
pub proof fn the_expected_token_is_accepted(token: Seq<char>)
    ensures
        may_submit(Some("Bearer "@ + token), Some(token)),
        token.len() > 0 ==> may_submit(Some("Bearer "@ + token), None),
{
    let auth = "Bearer "@ + token;
    let n = "Bearer "@.len() as int;
    assert(auth.take(n) =~= "Bearer "@);
    assert(auth.skip(n) =~= token);
}

/// Whether the first header of this name, in any case, has this value.
pub open spec fn is_header(headers: Seq<(Seq<char>, Seq<char>)>, name: Seq<char>, value: Seq<char>) -> bool {
    exists|i: int|
        #![trigger headers[i]]
        0 <= i < headers.len() && lowered(headers[i].0) == lowered(name) && headers[i].1 == value && (forall|j: int|
            0 <= j < i ==> lowered((#[trigger] headers[j]).0) != lowered(name))
}

/// A header is found by its name in any case, the first one that has it; none is found
/// exactly when none has it.
pub proof fn a_header_is_found_by_its_name(headers: Seq<(Seq<char>, Seq<char>)>, name: Seq<char>)
    ensures
        header_value(headers, name) matches Some(v) ==> is_header(headers, name, v),
        header_value(headers, name) is None <==> forall|i: int|
            0 <= i < headers.len() ==> lowered((#[trigger] headers[i]).0) != lowered(name),
    decreases headers.len(),
{
    if headers.len() > 0 {
        if lowered(headers[0].0) == lowered(name) {
            assert(headers[0].1 == header_value(headers, name)->0);
        } else {
            let t = headers.drop_first();
            a_header_is_found_by_its_name(t, name);
            if let Some(v) = header_value(t, name) {
                let i = choose|i: int|
                    #![trigger t[i]]
                    0 <= i < t.len() && lowered(t[i].0) == lowered(name) && t[i].1 == v && (forall|j: int|
                        0 <= j < i ==> lowered((#[trigger] t[j]).0) != lowered(name));
                assert(headers[i + 1] == t[i]);
                assert forall|j: int| 0 <= j < i + 1 implies lowered((#[trigger] headers[j]).0) != lowered(name) by {
                    if j > 0 {
                        assert(t[j - 1] == headers[j]);
                    }
                }
            } else {
                assert forall|i: int| 0 <= i < headers.len() implies lowered((#[trigger] headers[i]).0) != lowered(
                    name,
                ) by {
                    if i > 0 {
                        assert(t[i - 1] == headers[i]);
                    }
                }
            }
        }
    }
}

/// A request may submit exactly when it carries a bearer token that is the expected one, or,
/// when none is expected, that is not empty.
pub proof fn only_an_acceptable_token_may_submit(auth: Option<Seq<char>>, expected: Option<Seq<char>>)
    ensures
        may_submit(auth, expected) <==> exists|token: Seq<char>|
            auth == Some(#[trigger] ("Bearer "@ + token)) && (expected is Some ==> token == expected->0) && (
            expected is None ==> token.len() > 0),
{
    let b = "Bearer "@;
    let n = b.len() as int;
    if may_submit(auth, expected) {
        let token = auth->0.skip(n);
        assert(auth->0 =~= b + token);
    }
    if exists|token: Seq<char>|
        auth == Some(#[trigger] (b + token)) && (expected is Some ==> token == expected->0) && (expected is None
            ==> token.len() > 0) {
        let token = choose|token: Seq<char>|
            auth == Some(#[trigger] (b + token)) && (expected is Some ==> token == expected->0) && (expected is None
                ==> token.len() > 0);
        assert(auth->0.take(n) =~= b);
        assert(auth->0.skip(n) =~= token);
    }
}

/// An accepted submission is answered with the digest of its record (of `null` when it has
/// none), its type (`build` when it names none) and its trace id (`mock-trace` when it
/// carries none); any other one with 401.
pub proof fn a_submission_is_answered_by_its_record(
    headers: Seq<(Seq<char>, Seq<char>)>,
    expected: Option<Seq<char>>,
    body: Seq<char>,
    record: Seq<char>,
    run_type: Seq<char>,
    trace: Seq<char>,
)
    requires
        Some(record) == json_member_text(body, "/runRecord"@) || (json_member_text(body, "/runRecord"@) is None && record
            == "null"@),
        Some(run_type) == json_string_at(body, "/runRecord/type"@) || (json_string_at(body, "/runRecord/type"@) is None
            && run_type == "build"@),
        Some(trace) == header_value(headers, "X-Trace-Id"@) || (header_value(headers, "X-Trace-Id"@) is None && trace
            == "mock-trace"@),
    ensures
        process_answer(headers, expected, body).0 == 200 <==> may_submit(
            header_value(headers, "Authorization"@),
            expected,
        ),
        process_answer(headers, expected, body).0 == 200 ==> process_answer(headers, expected, body).1
            == "{\"receiptId\":\""@ + digest_text(encode_utf8(record)) + "\",\"schemaVersion\":\"1.0.0\",\"type\":\""@
            + run_type + "\",\"graphWritesCompleted\":true,\"traceId\":\""@ + trace + "\"}"@,
        process_answer(headers, expected, body).0 != 200 ==> process_answer(headers, expected, body).0 == 401,
{
}

/// Only two requests are known: a `GET` of `/health`, and a `POST` to `/pipeline/process`.
pub proof fn two_requests_are_known(method: Seq<char>, url: Seq<char>)
    ensures
        route_of(method, url) is Health <==> method == "GET"@ && url == "/health"@,
        route_of(method, url) is Process <==> method == "POST"@ && url == "/pipeline/process"@,
{
    reveal_strlit("GET");
    reveal_strlit("POST");
    assert("GET"@.len() != "POST"@.len());
}

} // verus!
