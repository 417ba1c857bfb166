//! Submission of an assembled run record to the pipeline.
//!
//! One `POST` with a bearer token and a trace id, bounded exponential retry, and
//! idempotency by the content-addressed receipt id. The token is held in memory and
//! never logged. What becomes of a record that could not be delivered is decided in
//! [`crate::reconcile`]; this module performs one record's delivery.
//!
//! Sending and sleeping are left to the caller: a [`Submission`] says what to do next
//! and is told what came of it.

use vstd::arithmetic::power2::{lemma_pow2_unfold, lemma2_to64, pow2};
use vstd::prelude::*;

use crate::hash::lower_hex;
use crate::json::{json_string_at, string_at};
use crate::text::{opt_text, trim_slashes, unslashed};

verus! {

// ---------------------------------------------------------------------------
// Replies
// ---------------------------------------------------------------------------

/// How a submission attempt's HTTP status should be treated.
#[derive(Clone, Copy, Debug, PartialEq, Eq, Structural)]
pub enum StatusClass {
    /// `200`: delivered.
    Success,
    /// `400`/`422`: malformed record, a recorder bug; do not retry.
    InvalidRecord,
    /// `401`: bad or expired token; do not retry.
    Unauthorized,
    /// `5xx`, timeout and anything else: transient; retry.
    Retry,
}

/// The class of an HTTP status.
pub open spec fn status_class(code: u16) -> StatusClass {
    if code == 200 {
        StatusClass::Success
    } else if code == 400 || code == 422 {
        StatusClass::InvalidRecord
    } else if code == 401 {
        StatusClass::Unauthorized
    } else {
        StatusClass::Retry
    }
}

/// The class of an HTTP status.
pub fn classify_status(code: u16) -> (c: StatusClass)
    ensures
        c == status_class(code),
{
    match code {
        200 => StatusClass::Success,
        400 | 422 => StatusClass::InvalidRecord,
        401 => StatusClass::Unauthorized,
        _ => StatusClass::Retry,
    }
}

/// The terminal outcome of submitting one record.
#[derive(Clone, Debug)]
pub enum SubmitOutcome {
    Success { receipt_id: String },
    /// `400`/`422`, or a record that could not be written as JSON.
    InvalidRecord,
    /// `401`.
    Unauthorized,
    /// Transient failure after retries; the caller should buffer.
    Failed,
}

/// What a [`SubmitOutcome`] says.
pub enum OutcomeView {
    Success(Seq<char>),
    InvalidRecord,
    Unauthorized,
    Failed,
}

impl View for SubmitOutcome {
    type V = OutcomeView;

    open spec fn view(&self) -> OutcomeView {
        match *self {
            SubmitOutcome::Success { receipt_id } => OutcomeView::Success(receipt_id@),
            SubmitOutcome::InvalidRecord => OutcomeView::InvalidRecord,
            SubmitOutcome::Unauthorized => OutcomeView::Unauthorized,
            SubmitOutcome::Failed => OutcomeView::Failed,
        }
    }
}

/// What came of sending a request once.
#[derive(Clone, Debug)]
pub enum Reply {
    /// The pipeline answered without an error status; the body, if it could be read.
    Answered(Option<String>),
    /// The pipeline answered with this error status.
    Refused(u16),
    /// No answer: connection failure or timeout.
    Unreachable,
}

/// What a [`Reply`] says.
pub enum ReplyView {
    Answered(Option<Seq<char>>),
    Refused(u16),
    Unreachable,
}

impl View for Reply {
    type V = ReplyView;

    open spec fn view(&self) -> ReplyView {
        match *self {
            Reply::Answered(body) => ReplyView::Answered(opt_text(body)),
            Reply::Refused(code) => ReplyView::Refused(code),
            Reply::Unreachable => ReplyView::Unreachable,
        }
    }
}

/// Where a response holds the receipt id.
pub const RECEIPT_POINTER: &'static str = "/receiptId";

/// The receipt id that a response body holds.
pub open spec fn receipt_in(body: Option<Seq<char>>) -> Option<Seq<char>> {
    match body {
        Some(text) => json_string_at(text, RECEIPT_POINTER@),
        None => None,
    }
}

/// The receipt id that a response body holds.
pub fn parse_receipt(body: &Option<String>) -> (r: Option<String>)
    ensures
        opt_text(r) == receipt_in(opt_text(*body)),
{
    match body {
        Some(text) => string_at(text.as_str(), RECEIPT_POINTER),
        None => None,
    }
}

/// What one attempt came to.
#[derive(Clone, Debug)]
pub enum AttemptResult {
    Success(String),
    Class(StatusClass),
}

/// What a [`AttemptResult`] says.
pub enum AttemptView {
    Success(Seq<char>),
    Class(StatusClass),
}

impl View for AttemptResult {
    type V = AttemptView;

    open spec fn view(&self) -> AttemptView {
        match *self {
            AttemptResult::Success(id) => AttemptView::Success(id@),
            AttemptResult::Class(c) => AttemptView::Class(c),
        }
    }
}

/// What an attempt with this reply comes to: an answer counts only with a receipt, and an
/// unreachable pipeline is worth another try.
pub open spec fn attempt_view(reply: ReplyView, receipt: Option<Seq<char>>) -> AttemptView {
    match reply {
        ReplyView::Answered(_) => match receipt {
            Some(id) => AttemptView::Success(id),
            None => AttemptView::Class(StatusClass::Retry),
        },
        ReplyView::Refused(code) => AttemptView::Class(status_class(code)),
        ReplyView::Unreachable => AttemptView::Class(StatusClass::Retry),
    }
}

/// What an attempt with this reply comes to.
pub open spec fn attempt_of(reply: ReplyView) -> AttemptView {
    attempt_view(
        reply,
        match reply {
            ReplyView::Answered(body) => receipt_in(body),
            _ => None,
        },
    )
}

/// What an attempt with this reply comes to.
pub fn attempt(reply: &Reply) -> (r: AttemptResult)
    ensures
        r@ == attempt_of(reply@),
{
    match reply {
        Reply::Answered(body) => match parse_receipt(body) {
            Some(id) => AttemptResult::Success(id),
            None => AttemptResult::Class(StatusClass::Retry),
        },
        Reply::Refused(code) => AttemptResult::Class(classify_status(*code)),
        Reply::Unreachable => AttemptResult::Class(StatusClass::Retry),
    }
}

/// The outcome that an attempt settles; `None` when it is to be tried again.
pub open spec fn verdict(a: AttemptView) -> Option<OutcomeView> {
    match a {
        AttemptView::Success(id) => Some(OutcomeView::Success(id)),
        AttemptView::Class(StatusClass::InvalidRecord) => Some(OutcomeView::InvalidRecord),
        AttemptView::Class(StatusClass::Unauthorized) => Some(OutcomeView::Unauthorized),
        AttemptView::Class(_) => None,
    }
}

// ---------------------------------------------------------------------------
// The submitter
// ---------------------------------------------------------------------------

/// Attempts that a record gets unless told otherwise.
pub const MAX_ATTEMPTS: u32 = 5;

/// Client timeout, in seconds.
pub const TIMEOUT_SECS: u64 = 30;

/// The pause after the first failed attempt, in milliseconds.
pub const FIRST_PAUSE_MS: u64 = 250;

/// The longest pause between two attempts, in milliseconds.
pub const LONGEST_PAUSE_MS: u64 = 8000;

/// Delivers records to one pipeline.
#[derive(Clone)]
pub struct Submitter {
    pub process_url: String,
    pub token: String,
    pub max_attempts: u32,
    pub timeout_secs: u64,
}

/// What a request carries.
pub struct RequestView {
    pub url: Seq<char>,
    pub token: Seq<char>,
    pub trace_id: Seq<char>,
    pub body: Seq<char>,
    pub timeout_secs: u64,
}

/// One record's request, the same for every attempt.
#[derive(Clone)]
pub struct Request {
    pub url: String,
    pub token: String,
    pub trace_id: String,
    pub body: String,
    pub timeout_secs: u64,
}

impl View for Request {
    type V = RequestView;

    open spec fn view(&self) -> RequestView {
        RequestView {
            url: self.url@,
            token: self.token@,
            trace_id: self.trace_id@,
            body: self.body@,
            timeout_secs: self.timeout_secs,
        }
    }
}

impl Request {
    /// The headers: the bearer token, the content type and the trace id.
    pub fn headers(&self) -> (h: Vec<(&'static str, String)>)
        ensures
            h@.len() == 3,
            h@[0].0@ == "Authorization"@ && h@[0].1@ == "Bearer "@ + self.token@,
            h@[1].0@ == "Content-Type"@ && h@[1].1@ == "application/json"@,
            h@[2].0@ == "X-Trace-Id"@ && h@[2].1@ == self.trace_id@,
    {
        let mut bearer = String::from_str("Bearer ");
        bearer.append(self.token.as_str());
        let mut h: Vec<(&'static str, String)> = Vec::new();
        h.push(("Authorization", bearer));
        h.push(("Content-Type", "application/json".to_owned()));
        h.push(("X-Trace-Id", self.trace_id.clone()));
        h
    }

    fn copy(&self) -> (r: Request)
        ensures
            r@ == self@,
    {
        Request {
            url: self.url.clone(),
            token: self.token.clone(),
            trace_id: self.trace_id.clone(),
            body: self.body.clone(),
            timeout_secs: self.timeout_secs,
        }
    }
}

/// Where a submission stands.
#[derive(Clone, Debug)]
pub enum Phase {
    /// The request is to be sent.
    Sending,
    /// An attempt failed, and another follows after a pause.
    Pausing,
    /// Settled.
    Done(SubmitOutcome),
}

/// What a [`Phase`] says.
pub enum PhaseView {
    Sending,
    Pausing,
    Done(OutcomeView),
}

impl View for Phase {
    type V = PhaseView;

    open spec fn view(&self) -> PhaseView {
        match *self {
            Phase::Sending => PhaseView::Sending,
            Phase::Pausing => PhaseView::Pausing,
            Phase::Done(o) => PhaseView::Done(o@),
        }
    }
}

/// The delivery of one record.
#[derive(Clone)]
pub struct Submission {
    pub request: Request,
    pub max_attempts: u32,
    /// The attempt that is under way, counted from 1.
    pub attempt: u32,
    /// The pause that follows it if it fails, in milliseconds.
    pub pause_ms: u64,
    pub phase: Phase,
}

/// What a [`Submission`] says.
pub struct SubmissionState {
    pub request: RequestView,
    pub max_attempts: int,
    pub attempt: int,
    pub pause_ms: int,
    pub phase: PhaseView,
}

impl View for Submission {
    type V = SubmissionState;

    open spec fn view(&self) -> SubmissionState {
        SubmissionState {
            request: self.request@,
            max_attempts: self.max_attempts as int,
            attempt: self.attempt as int,
            pause_ms: self.pause_ms as int,
            phase: self.phase@,
        }
    }
}

/// What to do next for a [`Submission`].
#[derive(Clone)]
pub enum SubmitAction {
    /// Send this request once.
    Send(Request),
    /// Sleep for this many milliseconds.
    Sleep(u64),
    /// Nothing more to do.
    Done(SubmitOutcome),
}

/// What a [`SubmitAction`] says.
pub enum SubmitActionView {
    Send(RequestView),
    Sleep(int),
    Done(OutcomeView),
}

impl View for SubmitAction {
    type V = SubmitActionView;

    open spec fn view(&self) -> SubmitActionView {
        match *self {
            SubmitAction::Send(r) => SubmitActionView::Send(r@),
            SubmitAction::Sleep(ms) => SubmitActionView::Sleep(ms as int),
            SubmitAction::Done(o) => SubmitActionView::Done(o@),
        }
    }
}

/// The pause after the `n`th failed attempt: doubling, up to a bound.
pub open spec fn pause_after(n: int) -> int
    decreases n,
{
    if n <= 1 {
        FIRST_PAUSE_MS as int
    } else if 2 * pause_after(n - 1) <= LONGEST_PAUSE_MS {
        2 * pause_after(n - 1)
    } else {
        LONGEST_PAUSE_MS as int
    }
}

impl SubmissionState {
    /// The attempts are within bounds, and the pause is the one for the attempt; only an
    /// attempt that is not the last is followed by a pause.
    pub open spec fn wf(self) -> bool {
        &&& 1 <= self.attempt <= self.max_attempts
        &&& self.pause_ms == pause_after(self.attempt)
        &&& self.phase is Pausing ==> self.attempt < self.max_attempts
    }

    /// What to do next.
    pub open spec fn action(self) -> SubmitActionView {
        match self.phase {
            PhaseView::Sending => SubmitActionView::Send(self.request),
            PhaseView::Pausing => SubmitActionView::Sleep(self.pause_ms),
            PhaseView::Done(o) => SubmitActionView::Done(o),
        }
    }

    /// The submission after an attempt that came to `a`.
    pub open spec fn attempted(self, a: AttemptView) -> SubmissionState {
        match self.phase {
            PhaseView::Sending => SubmissionState {
                phase: match verdict(a) {
                    Some(o) => PhaseView::Done(o),
                    None => if self.attempt < self.max_attempts {
                        PhaseView::Pausing
                    } else {
                        PhaseView::Done(OutcomeView::Failed)
                    },
                },
                ..self
            },
            _ => self,
        }
    }

    /// The submission after its pause.
    pub open spec fn rested(self) -> SubmissionState {
        match self.phase {
            PhaseView::Pausing => SubmissionState {
                attempt: self.attempt + 1,
                pause_ms: pause_after(self.attempt + 1),
                phase: PhaseView::Sending,
                ..self
            },
            _ => self,
        }
    }
}

/// How the delivery of a record begins: a record that could not be written as JSON is
/// settled at once.
pub open spec fn fresh_submission(
    url: Seq<char>,
    token: Seq<char>,
    max_attempts: u32,
    timeout_secs: u64,
    json: Option<Seq<char>>,
    trace_id: Seq<char>,
) -> SubmissionState {
    SubmissionState {
        request: RequestView {
            url,
            token,
            trace_id,
            body: match json {
                Some(json) => json,
                None => Seq::empty(),
            },
            timeout_secs,
        },
        max_attempts: max_attempts as int,
        attempt: 1,
        pause_ms: pause_after(1),
        phase: if json is Some {
            PhaseView::Sending
        } else {
            PhaseView::Done(OutcomeView::InvalidRecord)
        },
    }
}

/// Whether `s` is written as a random (version 4) UUID: 36 characters in five groups of
/// lowercase hexadecimal digits.
pub open spec fn trace_shaped(s: Seq<char>) -> bool {
    &&& s.len() == 36
    &&& s[8] == '-' && s[13] == '-' && s[18] == '-' && s[23] == '-'
    &&& s[14] == '4'
    &&& forall|i: int| 0 <= i < 36 && i != 8 && i != 13 && i != 18 && i != 23 ==> lower_hex(#[trigger] s[i])
}

/// `uuid::Uuid::new_v4` in its hyphenated form. Which identifier comes is left to chance;
/// its shape is always the same.
#[verifier::external_body]
fn new_trace_id() -> (s: String)
    ensures
        trace_shaped(s@),
{
    uuid::Uuid::new_v4().to_string()
}

/// Whether the text is an identifier that was drawn.
pub closed spec fn drawn_trace(id: Seq<char>) -> bool {
    exists|s: String| #[trigger] call_ensures(new_trace_id, (), s) && s@ == id
}

impl Submitter {
    /// Every record gets at least one attempt.
    pub open spec fn wf(&self) -> bool {
        self.max_attempts >= 1
    }

    /// A submitter for the pipeline at `base_url` (e.g. `https://pipeline.idora.dev`); the
    /// `/pipeline/process` path is appended.
    pub fn new(base_url: &str, token: String) -> (s: Self)
        ensures
            s.process_url@ == unslashed(base_url@) + "/pipeline/process"@,
            s.token == token,
            s.max_attempts == MAX_ATTEMPTS,
            s.timeout_secs == TIMEOUT_SECS,
            s.max_attempts == 5,
            s.timeout_secs == 30,
            s.wf(),
    {
        let mut process_url = trim_slashes(base_url);
        process_url.append("/pipeline/process");
        Submitter { process_url, token, max_attempts: MAX_ATTEMPTS, timeout_secs: TIMEOUT_SECS }
    }

    /// The same submitter with another number of attempts, at least one.
    pub fn with_max_attempts(self, n: u32) -> (s: Self)
        ensures
            s == (Submitter { max_attempts: if n == 0 { 1 } else { n }, ..self }),
            s.wf(),
    {
        let mut s = self;
        s.max_attempts = if n == 0 { 1 } else { n };
        s
    }

    /// Submit one record, given as JSON if it could be written so, retrying transient
    /// failures with bounded backoff. Every submission draws a trace id of its own.
    pub fn submit(&self, json: Option<String>) -> (s: Submission)
        requires
            self.wf(),
        ensures
            drawn_trace(s.request.trace_id@),
            trace_shaped(s.request.trace_id@),
            s@ == fresh_submission(
                self.process_url@,
                self.token@,
                self.max_attempts,
                self.timeout_secs,
                opt_text(json),
                s.request.trace_id@,
            ),
            s@.wf(),
    {
        let drawn = new_trace_id();
        assert(call_ensures(new_trace_id, (), drawn));
        self.submit_as(json, drawn)
    }

    /// Submit one record under a given trace id.
    pub fn submit_as(&self, json: Option<String>, trace_id: String) -> (s: Submission)
        requires
            self.wf(),
        ensures
            s@ == fresh_submission(
                self.process_url@,
                self.token@,
                self.max_attempts,
                self.timeout_secs,
                opt_text(json),
                trace_id@,
            ),
            s@.wf(),
    {
        let (body, phase) = match json {
            Some(json) => (json, Phase::Sending),
            None => (String::new(), Phase::Done(SubmitOutcome::InvalidRecord)),
        };
        let s = Submission {
            request: Request {
                url: self.process_url.clone(),
                token: self.token.clone(),
                trace_id,
                body,
                timeout_secs: self.timeout_secs,
            },
            max_attempts: self.max_attempts,
            attempt: 1,
            pause_ms: FIRST_PAUSE_MS,
            phase,
        };
        proof {
            assert(json is None ==> body@ =~= Seq::<char>::empty());
        }
        s
    }
}

impl Submission {
    /// What to do next.
    pub fn next(&self) -> (a: SubmitAction)
        ensures
            a@ == self@.action(),
    {
        match &self.phase {
            Phase::Sending => SubmitAction::Send(self.request.copy()),
            Phase::Pausing => SubmitAction::Sleep(self.pause_ms),
            Phase::Done(o) => SubmitAction::Done(copy_outcome(o)),
        }
    }

    /// Go on with what came of sending the request.
    pub fn replied(&mut self, reply: &Reply)
        requires
            old(self)@.wf(),
        ensures
            final(self)@ == old(self)@.attempted(attempt_of(reply@)),
            final(self)@.wf(),
    {
        let result = attempt(reply);
        self.settle(result);
    }

    /// Go on with what an attempt came to.
    pub fn settle(&mut self, result: AttemptResult)
        requires
            old(self)@.wf(),
        ensures
            final(self)@ == old(self)@.attempted(result@),
            final(self)@.wf(),
    {
        match &self.phase {
            Phase::Sending => {},
            _ => {
                return;
            },
        }
        match result {
            AttemptResult::Success(receipt_id) => {
                self.phase = Phase::Done(SubmitOutcome::Success { receipt_id });
            },
            AttemptResult::Class(StatusClass::InvalidRecord) => {
                self.phase = Phase::Done(SubmitOutcome::InvalidRecord);
            },
            AttemptResult::Class(StatusClass::Unauthorized) => {
                self.phase = Phase::Done(SubmitOutcome::Unauthorized);
            },
            AttemptResult::Class(_) => {
                if self.attempt < self.max_attempts {
                    self.phase = Phase::Pausing;
                } else {
                    self.phase = Phase::Done(SubmitOutcome::Failed);
                }
            },
        }
    }

    /// Go on after the pause.
    pub fn rested(&mut self)
        requires
            old(self)@.wf(),
        ensures
            final(self)@ == old(self)@.rested(),
            final(self)@.wf(),
    {
        match &self.phase {
            Phase::Pausing => {},
            _ => {
                return;
            },
        }
        proof {
            pauses_are_bounded(self.attempt as int);
        }
        self.attempt = self.attempt + 1;
        self.pause_ms = if self.pause_ms * 2 <= LONGEST_PAUSE_MS {
            self.pause_ms * 2
        } else {
            LONGEST_PAUSE_MS
        };
        self.phase = Phase::Sending;
    }
}

fn copy_outcome(o: &SubmitOutcome) -> (r: SubmitOutcome)
    ensures
        r@ == o@,
{
    match o {
        SubmitOutcome::Success { receipt_id } => SubmitOutcome::Success { receipt_id: receipt_id.clone() },
        SubmitOutcome::InvalidRecord => SubmitOutcome::InvalidRecord,
        SubmitOutcome::Unauthorized => SubmitOutcome::Unauthorized,
        SubmitOutcome::Failed => SubmitOutcome::Failed,
    }
}

// ---------------------------------------------------------------------------
// What holds of every submission
// ---------------------------------------------------------------------------

/// Backoff is bounded: a pause lasts at least as long as the first and at most as long as
/// the longest, and never gets shorter from one attempt to the next.
pub proof fn pauses_are_bounded(n: int)
    ensures
        FIRST_PAUSE_MS <= pause_after(n) <= LONGEST_PAUSE_MS,
        pause_after(n) <= pause_after(n + 1),
    decreases n,
{
    if n > 1 {
        pauses_are_bounded(n - 1);
    }
}

/// How many steps (sends and pauses) a submission can still take.
pub open spec fn steps_left(s: SubmissionState) -> int {
    match s.phase {
        PhaseView::Sending => 2 * (s.max_attempts - s.attempt) + 1,
        PhaseView::Pausing => 2 * (s.max_attempts - s.attempt),
        PhaseView::Done(_) => 0,
    }
}

/// Retries are bounded: every send and every pause brings a submission nearer its end,
/// whatever the pipeline answers.
pub proof fn every_step_brings_a_submission_nearer_its_end(s: SubmissionState, a: AttemptView)
    requires
        s.wf(),
    ensures
        s.attempted(a).wf() && s.rested().wf(),
        s.phase is Sending ==> 0 <= steps_left(s.attempted(a)) < steps_left(s),
        s.phase is Pausing ==> 0 <= steps_left(s.rested()) < steps_left(s),
{
}

/// Every attempt sends the same request: same record, same token, same trace id.
pub proof fn every_attempt_sends_the_same_request(s: SubmissionState, a: AttemptView)
    ensures
        s.attempted(a).request == s.request,
        s.rested().request == s.request,
        s.attempted(a).max_attempts == s.max_attempts,
        s.rested().max_attempts == s.max_attempts,
{
}

/// A record that the pipeline calls malformed, and a token that it does not accept, settle
/// the submission at once: it makes no further attempt.
pub proof fn rejections_are_final(s: SubmissionState, code: u16)
    requires
        s.phase is Sending,
        code == 400 || code == 422 || code == 401,
    ensures
        s.attempted(attempt_of(ReplyView::Refused(code))).phase == PhaseView::Done(
            if code == 401 {
                OutcomeView::Unauthorized
            } else {
                OutcomeView::InvalidRecord
            },
        ),
{
}

/// The submission after a series of attempts, with its pauses in between.
pub open spec fn after_attempts(s: SubmissionState, attempts: Seq<AttemptView>) -> SubmissionState
    decreases attempts.len(),
{
    if attempts.len() == 0 {
        s
    } else {
        after_attempts(s, attempts.drop_last()).attempted(attempts.last()).rested()
    }
}

/// The first attempt with a verdict settles the submission, if it comes within the
/// allowed number of attempts.
pub proof fn the_first_verdict_settles(s: SubmissionState, attempts: Seq<AttemptView>, k: int)
    requires
        s.wf(),
        s.phase is Sending,
        s.attempt == 1,
        0 <= k < attempts.len(),
        k < s.max_attempts,
        forall|i: int| 0 <= i < k ==> verdict(#[trigger] attempts[i]) is None,
        verdict(attempts[k]) is Some,
    ensures
        after_attempts(s, attempts).phase == PhaseView::Done(verdict(attempts[k])->0),
    decreases attempts.len(),
{
    let before = attempts.drop_last();
    let n = attempts.len() - 1;
    assert(forall|i: int| 0 <= i < n ==> before[i] == attempts[i]);
    if k < n {
        the_first_verdict_settles(s, before, k);
    } else {
        lemma_undecided(s, before);
    }
}

/// A submission fails exactly when it has used up its attempts without a verdict.
pub proof fn a_submission_fails_only_when_used_up(s: SubmissionState, attempts: Seq<AttemptView>)
    requires
        s.wf(),
        s.phase is Sending,
        s.attempt == 1,
        forall|i: int| 0 <= i < attempts.len() ==> verdict(#[trigger] attempts[i]) is None,
    ensures
        after_attempts(s, attempts).phase == PhaseView::Done(OutcomeView::Failed) <==> attempts.len()
            >= s.max_attempts,
    decreases attempts.len(),
{
    if attempts.len() > 0 {
        let before = attempts.drop_last();
        assert(forall|i: int| 0 <= i < before.len() ==> before[i] == attempts[i]);
        a_submission_fails_only_when_used_up(s, before);
        if attempts.len() <= s.max_attempts {
            lemma_undecided(s, before);
        }
    }
}

proof fn lemma_undecided(s: SubmissionState, attempts: Seq<AttemptView>)
    requires
        s.wf(),
        s.phase is Sending,
        s.attempt == 1,
        attempts.len() < s.max_attempts,
        forall|i: int| 0 <= i < attempts.len() ==> verdict(#[trigger] attempts[i]) is None,
    ensures
        after_attempts(s, attempts).phase is Sending,
        after_attempts(s, attempts).attempt == attempts.len() + 1,
        after_attempts(s, attempts).max_attempts == s.max_attempts,
        after_attempts(s, attempts).wf(),
    decreases attempts.len(),
{
    if attempts.len() > 0 {
        let before = attempts.drop_last();
        assert(forall|i: int| 0 <= i < before.len() ==> before[i] == attempts[i]);
        lemma_undecided(s, before);
    }
}

/// Trailing slashes on the base URL do not change where records go.
pub proof fn the_process_path_is_appended_once(base: Seq<char>)
    ensures
        unslashed(base.push('/')) + "/pipeline/process"@ == unslashed(base) + "/pipeline/process"@,
        unslashed(base).len() > 0 ==> unslashed(base).last() != '/',
        (base.len() == 0 || base.last() != '/') ==> unslashed(base) == base,
{
    assert(base.push('/').drop_last() =~= base);
    crate::text::only_trailing_slashes_are_dropped(base);
}

/// What a status means depends on the code alone: 200 is a delivery, 400 and 422 condemn the
/// record, 401 condemns the token, and every other code, all of 500 to 599 among them, is
/// worth another try.
pub proof fn a_status_means_what_its_code_says(code: u16)
    ensures
        status_class(code) is Success <==> code == 200,
        status_class(code) is InvalidRecord <==> code == 400 || code == 422,
        status_class(code) is Unauthorized <==> code == 401,
        500 <= code <= 599 ==> status_class(code) is Retry,
        status_class(code) is Retry <==> code != 200 && code != 400 && code != 422 && code != 401,
{
}

/// Whether a sending submission went on as after a transient failure: it pauses while it has
/// attempts left, and fails otherwise.
pub open spec fn tries_again(s: SubmissionState, t: SubmissionState) -> bool {
    &&& s.attempt < s.max_attempts ==> t.phase is Pausing
    &&& s.attempt >= s.max_attempts ==> t.phase == PhaseView::Done(OutcomeView::Failed)
    &&& t.attempt == s.attempt
    &&& t.max_attempts == s.max_attempts
    &&& t.pause_ms == s.pause_ms
    &&& t.request == s.request
}

/// Everything but a receipt and the three rejections is transient: whatever other status the
/// pipeline refuses with, an answer without a receipt, and no answer at all, are tried again.
pub proof fn transient_failures_are_tried_again(s: SubmissionState, code: u16, body: Option<Seq<char>>)
    requires
        s.phase is Sending,
    ensures
        code != 400 && code != 422 && code != 401 ==> tries_again(s, s.attempted(attempt_of(ReplyView::Refused(code)))),
        tries_again(s, s.attempted(attempt_of(ReplyView::Unreachable))),
        body is None ==> tries_again(s, s.attempted(attempt_of(ReplyView::Answered(body)))),
        body is Some && json_string_at(body->0, "/receiptId"@) is None ==> tries_again(
            s,
            s.attempted(attempt_of(ReplyView::Answered(body))),
        ),
{
}

/// An answer with a receipt settles the submission as delivered, with the id that the answer
/// holds under `receiptId`, at whichever attempt it comes.
pub proof fn a_receipt_settles_the_submission(s: SubmissionState, body: Seq<char>, id: Seq<char>)
    requires
        s.phase is Sending,
        json_string_at(body, "/receiptId"@) == Some(id),
    ensures
        s.attempted(attempt_of(ReplyView::Answered(Some(body)))).phase == PhaseView::Done(OutcomeView::Success(id)),
{
}

/// A submission is settled as delivered by a receipt only, as malformed by 400 and 422 only,
/// and as unauthorized by 401 only.
pub proof fn nothing_else_settles_a_submission(s: SubmissionState, reply: ReplyView)
    requires
        s.phase is Sending,
    ensures
        ({
            let t = s.attempted(attempt_of(reply));
            &&& (t.phase matches PhaseView::Done(OutcomeView::Success(id)) ==> reply is Answered && reply->Answered_0 is Some
                && json_string_at(reply->Answered_0->0, "/receiptId"@) == Some(id))
            &&& t.phase == PhaseView::Done(OutcomeView::InvalidRecord) ==> reply == ReplyView::Refused(400) || reply
                == ReplyView::Refused(422)
            &&& t.phase == PhaseView::Done(OutcomeView::Unauthorized) ==> reply == ReplyView::Refused(401)
            &&& t.phase == PhaseView::Done(OutcomeView::Failed) ==> s.attempt >= s.max_attempts
            &&& !(t.phase is Sending)
        }),
{
}

/// A settled submission does nothing more: no reply and no pause changes it, and its outcome
/// is what it reports.
pub proof fn a_settled_submission_stays_settled(s: SubmissionState, a: AttemptView, o: OutcomeView)
    requires
        s.phase == PhaseView::Done(o),
    ensures
        s.attempted(a) == s,
        s.rested() == s,
        s.action() == SubmitActionView::Done(o),
{
}

/// What a submission does: it sends its request while sending, sleeps while pausing for 250
/// ms doubled with every attempt up to 8 s, and sends again after the pause.
pub proof fn a_pause_doubles_with_every_attempt(s: SubmissionState)
    requires
        s.wf(),
    ensures
        s.phase is Sending ==> s.action() == SubmitActionView::Send(s.request),
        s.phase is Pausing ==> s.action() == SubmitActionView::Sleep(
            if s.attempt <= 6 {
                250 * pow2((s.attempt - 1) as nat) as int
            } else {
                8000
            },
        ),
        s.phase is Pausing ==> s.rested().phase is Sending && s.rested().attempt == s.attempt + 1,
{
    lemma_pause(s.attempt);
}

proof fn lemma_pause(n: int)
    requires
        1 <= n,
    ensures
        pause_after(n) == (if n <= 6 {
            250 * pow2((n - 1) as nat)
        } else {
            8000
        }),
    decreases n,
{
    lemma2_to64();
    if n > 1 {
        lemma_pause(n - 1);
        lemma_pow2_unfold((n - 1) as nat);
    }
}

/// A submission begins with its first attempt, sends the given record with the given token
/// and trace id to the given address, and is settled without an attempt only when there is no
/// record to send.
pub proof fn a_submission_sends_what_it_was_given(
    url: Seq<char>,
    token: Seq<char>,
    max_attempts: u32,
    timeout_secs: u64,
    json: Option<Seq<char>>,
    trace_id: Seq<char>,
)
    ensures
        ({
            let s = fresh_submission(url, token, max_attempts, timeout_secs, json, trace_id);
            &&& s.attempt == 1
            &&& s.max_attempts == max_attempts
            &&& (json matches Some(text) ==> s.action() == SubmitActionView::Send(
                RequestView { url, token, trace_id, body: text, timeout_secs },
            ))
            &&& json is None ==> s.action() == SubmitActionView::Done(OutcomeView::InvalidRecord)
        }),
{
}

/// A submitter keeps its address and token whatever number of attempts it is given, and
/// always makes at least one.
pub proof fn a_submitter_makes_at_least_one_attempt(before: Submitter, n: u32, after: Submitter)
    requires
        call_ensures(Submitter::with_max_attempts, (before, n), after),
    ensures
        n >= 1 ==> after.max_attempts == n,
        n == 0 ==> after.max_attempts == 1,
        after.process_url == before.process_url,
        after.token == before.token,
        after.timeout_secs == before.timeout_secs,
{
}

/// Every request carries the token as a bearer token and the trace id, and says that it is
/// JSON.
pub proof fn a_request_carries_its_token_and_trace_id(request: Request, h: Vec<(&'static str, String)>)
    requires
        call_ensures(Request::headers, (&request,), h),
    ensures
        exists|i: int|
            0 <= i < h@.len() && (#[trigger] h@[i]).0@ == "Authorization"@ && h@[i].1@ == "Bearer "@ + request.token@,
        exists|i: int|
            0 <= i < h@.len() && (#[trigger] h@[i]).0@ == "X-Trace-Id"@ && h@[i].1@ == request.trace_id@,
        exists|i: int|
            0 <= i < h@.len() && (#[trigger] h@[i]).0@ == "Content-Type"@ && h@[i].1@ == "application/json"@,
{
    assert(h@[0].0@ == "Authorization"@ && h@[1].0@ == "Content-Type"@ && h@[2].0@ == "X-Trace-Id"@);
}

/// A new submitter sends to the process path below the base URL, with the given token, up to
/// five times, and waits up to thirty seconds for an answer.
pub proof fn a_submitter_sends_below_its_base_url(base: &str, token: String, s: Submitter)
    requires
        call_ensures(Submitter::new, (base, token), s),
    ensures
        s.token == token,
        s.max_attempts == 5,
        s.timeout_secs == 30,
        base@.len() > 0 && base@.last() != '/' ==> s.process_url@ == base@ + "/pipeline/process"@,
{
}

} // verus!
