//! Fail-open reconciliation.
//!
//! The recorder never fails the CI step. Fail-open is only safe because a dropped record
//! is detectable: this module tracks observed-vs-submitted counts, words the start and
//! stop heartbeats, names the files in which assembled-but-unsubmitted records are
//! buffered, and words a reconciliation signal so that a shortfall surfaces as unknown,
//! never as a clean build. A job whose host offers no capture is unknown too.

use vstd::prelude::*;

use crate::diag::{OBS_001, SUB_004};
use crate::submit::SubmitOutcome;
use crate::text::{chars_of, decimal, decimal_text, digit, six_digits, zero_padded};
use crate::time::{rfc3339, Timestamp};

verus! {

/// Coverage status reported at job end.
#[derive(Clone, Copy, Debug, PartialEq, Eq, Structural)]
pub enum Coverage {
    /// Every observed operation was submitted.
    Clean,
    /// At least one observed operation was not submitted, or nothing could be observed.
    Unknown,
}

impl Coverage {
    /// The wire name of the status.
    pub open spec fn name(self) -> Seq<char> {
        match self {
            Coverage::Clean => "clean"@,
            Coverage::Unknown => "unknown"@,
        }
    }

    /// The wire name of the status.
    pub fn as_str(self) -> (s: &'static str)
        ensures
            s@ == self.name(),
    {
        match self {
            Coverage::Clean => "clean",
            Coverage::Unknown => "unknown",
        }
    }
}

/// A file that is to be written, with all that it is to hold.
#[derive(Clone, Debug)]
pub struct FileWrite {
    pub path: String,
    pub content: String,
}

/// What is left to do at job end.
#[derive(Clone, Debug)]
pub struct Finish {
    /// The line for the job log.
    pub log: String,
    /// The reconciliation signal.
    pub signal: FileWrite,
    /// The stop heartbeat.
    pub heartbeat: FileWrite,
}

/// `name` in the directory `dir`.
pub open spec fn path_in(dir: Seq<char>, name: Seq<char>) -> Seq<char> {
    if dir.len() == 0 || dir.last() == '/' {
        dir + name
    } else {
        dir + "/"@ + name
    }
}

fn join_path(dir: &str, name: &str) -> (s: String)
    ensures
        s@ == path_in(dir@, name@),
{
    let v = chars_of(dir);
    let mut s = String::from_str(dir);
    if v.len() > 0 && v[v.len() - 1] != '/' {
        s.append("/");
    }
    s.append(name);
    s
}

/// Counts what was observed and what was submitted, and knows where the traces go.
#[derive(Clone, Debug)]
pub struct Reconciler {
    pub observed: u64,
    pub submitted: u64,
    pub buffer_dir: String,
    pub signal_path: String,
    pub heartbeat_path: String,
    pub next_buffer_seq: u64,
    /// Whether the host offers no capture.
    pub blind: bool,
}

/// What a [`Reconciler`] says.
pub struct ReconcilerView {
    pub observed: nat,
    pub submitted: nat,
    pub buffer_dir: Seq<char>,
    pub signal_path: Seq<char>,
    pub heartbeat_path: Seq<char>,
    pub next_buffer_seq: nat,
    pub blind: bool,
}

impl View for Reconciler {
    type V = ReconcilerView;

    open spec fn view(&self) -> ReconcilerView {
        ReconcilerView {
            observed: self.observed as nat,
            submitted: self.submitted as nat,
            buffer_dir: self.buffer_dir@,
            signal_path: self.signal_path@,
            heartbeat_path: self.heartbeat_path@,
            next_buffer_seq: self.next_buffer_seq as nat,
            blind: self.blind,
        }
    }
}

impl ReconcilerView {
    /// A job that has seen nothing, with its files under `state_dir`.
    pub open spec fn fresh(state_dir: Seq<char>) -> ReconcilerView {
        ReconcilerView {
            observed: 0,
            submitted: 0,
            buffer_dir: path_in(state_dir, "ci-recorder-buffer"@),
            signal_path: path_in(state_dir, "ci-recorder-reconciliation.json"@),
            heartbeat_path: path_in(state_dir, "ci-recorder-heartbeat.json"@),
            next_buffer_seq: 0,
            blind: false,
        }
    }

    /// Whether every observed operation was submitted, and operations could be observed.
    pub open spec fn coverage(self) -> Coverage {
        if !self.blind && self.submitted >= self.observed {
            Coverage::Clean
        } else {
            Coverage::Unknown
        }
    }

    /// The reconciliation signal.
    pub open spec fn signal(self) -> Seq<char> {
        "{\"observed\":"@ + decimal(self.observed) + ",\"submitted\":"@ + decimal(self.submitted)
            + ",\"coverage\":\""@ + self.coverage().name() + "\"}"@
    }

    /// The line for the job log at job end.
    pub open spec fn closing_line(self) -> Seq<char> {
        if self.blind {
            "[ci-recorder] "@ + OBS_001@ + ": nothing could be observed; coverage=unknown"@
        } else if self.coverage() is Unknown {
            "[ci-recorder] "@ + SUB_004@ + ": observed "@ + decimal(self.observed) + " operations but submitted "@
                + decimal(self.submitted) + "; coverage=unknown"@
        } else {
            "[ci-recorder] reconciliation: observed "@ + decimal(self.observed) + " submitted "@ + decimal(
                self.submitted,
            ) + "; coverage=clean"@
        }
    }

    /// Where the next record is buffered.
    pub open spec fn buffer_path(self) -> Seq<char> {
        path_in(self.buffer_dir, "record-"@ + zero_padded(decimal(self.next_buffer_seq), 6) + ".json"@)
    }
}

/// The counts after an attempt to resend a buffered record.
pub open spec fn after_resending(r: ReconcilerView, delivered: bool) -> ReconcilerView {
    ReconcilerView { submitted: r.submitted + (if delivered { 1nat } else { 0nat }), ..r }
}

/// The content of the heartbeat file.
pub open spec fn heartbeat_text(state: Seq<char>, at: Timestamp) -> Seq<char> {
    "{\"state\":\""@ + state + "\",\"at\":\""@ + rfc3339(at.seconds(), at.subsec_nanos()) + "\"}"@
}

/// Whether a file of the buffer directory, by its name, may hold a buffered record: its
/// extension is `json`.
pub open spec fn holds_record(name: Seq<u8>) -> bool {
    &&& name.len() > 5
    &&& name.skip(name.len() - 5) == seq![46u8, 106u8, 115u8, 111u8, 110u8]
}

/// Whether a file of the buffer directory, by its name, may hold a buffered record: its
/// extension is `json`.
pub fn is_record_file(name: &[u8]) -> (r: bool)
    ensures
        r == holds_record(name@),
{
    let n = name.len();
    if n <= 5 {
        return false;
    }
    let r = name[n - 5] == 46 && name[n - 4] == 106 && name[n - 3] == 115 && name[n - 2] == 111 && name[n - 1]
        == 110;
    proof {
        let tail = name@.skip(n - 5);
        let json = seq![46u8, 106u8, 115u8, 111u8, 110u8];
        assert(tail.len() == 5);
        if r {
            assert(tail =~= json);
        } else if tail == json {
            assert(tail[0] == 46 && tail[1] == 106 && tail[2] == 115 && tail[3] == 111 && tail[4] == 110);
        }
    }
    r
}

impl Reconciler {
    /// `state_dir` is a writable per-job directory (e.g. `RUNNER_TEMP`).
    pub fn new(state_dir: &str) -> (r: Self)
        ensures
            r@ == ReconcilerView::fresh(state_dir@),
    {
        Reconciler {
            observed: 0,
            submitted: 0,
            buffer_dir: join_path(state_dir, "ci-recorder-buffer"),
            signal_path: join_path(state_dir, "ci-recorder-reconciliation.json"),
            heartbeat_path: join_path(state_dir, "ci-recorder-heartbeat.json"),
            next_buffer_seq: 0,
            blind: false,
        }
    }

    /// The host offers no capture: whatever was counted, coverage is unknown.
    pub fn capture_unavailable(&mut self)
        ensures
            final(self)@ == (ReconcilerView { blind: true, ..old(self)@ }),
    {
        self.blind = true;
    }

    /// The start heartbeat, so that a consumer can tell a recorder that ran from one that
    /// never did.
    pub fn heartbeat_start(&self) -> (w: FileWrite)
        ensures
            w.path@ == self@.heartbeat_path,
            exists|at: Timestamp| at.is_reading() && w.content@ == #[trigger] heartbeat_text("started"@, at),
    {
        let now = Timestamp::now();
        self.heartbeat_at("started", &now)
    }

    /// The heartbeat of the given state and instant.
    pub fn heartbeat_at(&self, state: &str, at: &Timestamp) -> (w: FileWrite)
        ensures
            w.path@ == self@.heartbeat_path,
            w.content@ == heartbeat_text(state@, *at),
    {
        let mut content = String::from_str("{\"state\":\"");
        content.append(state);
        content.append("\",\"at\":\"");
        content.append(at.to_text().as_str());
        content.append("\"}");
        FileWrite { path: self.heartbeat_path.clone(), content }
    }

    /// One more operation was observed.
    pub fn record_observed(&mut self)
        requires
            old(self).observed < u64::MAX,
        ensures
            final(self)@ == (ReconcilerView { observed: old(self)@.observed + 1, ..old(self)@ }),
    {
        self.observed = self.observed + 1;
    }

    /// One more record was submitted.
    pub fn record_submitted(&mut self)
        requires
            old(self).submitted < u64::MAX,
        ensures
            final(self)@ == (ReconcilerView { submitted: old(self)@.submitted + 1, ..old(self)@ }),
    {
        self.submitted = self.submitted + 1;
    }

    /// Where to buffer an assembled-but-unsubmitted record for later retry.
    pub fn buffer(&mut self) -> (path: String)
        requires
            old(self).next_buffer_seq < u64::MAX,
        ensures
            path@ == old(self)@.buffer_path(),
            final(self)@ == (ReconcilerView { next_buffer_seq: old(self)@.next_buffer_seq + 1, ..old(self)@ }),
    {
        let seq = self.next_buffer_seq;
        self.next_buffer_seq = seq + 1;
        let mut name = String::from_str("record-");
        name.append(six_digits(seq).as_str());
        name.append(".json");
        join_path(self.buffer_dir.as_str(), name.as_str())
    }

    /// What to do with a buffered record after an attempt to resend it: a delivered record
    /// is counted, and its buffer file is to be removed.
    pub fn flush_buffered(&mut self, outcome: &SubmitOutcome) -> (remove: bool)
        requires
            old(self).submitted < u64::MAX,
        ensures
            remove == (outcome is Success),
            final(self)@ == after_resending(old(self)@, remove),
            final(self)@ == (if outcome is Success {
                ReconcilerView { submitted: old(self)@.submitted + 1, ..old(self)@ }
            } else {
                old(self)@
            }),
    {
        match outcome {
            SubmitOutcome::Success { .. } => {
                self.submitted = self.submitted + 1;
                true
            },
            _ => false,
        }
    }

    /// Coverage so far.
    pub fn coverage(&self) -> (c: Coverage)
        ensures
            c == self@.coverage(),
    {
        if !self.blind && self.submitted >= self.observed {
            Coverage::Clean
        } else {
            Coverage::Unknown
        }
    }

    fn signal(&self) -> (w: FileWrite)
        ensures
            w.path@ == self@.signal_path,
            w.content@ == self@.signal(),
    {
        let mut content = String::from_str("{\"observed\":");
        content.append(decimal_text(self.observed).as_str());
        content.append(",\"submitted\":");
        content.append(decimal_text(self.submitted).as_str());
        content.append(",\"coverage\":\"");
        content.append(self.coverage().as_str());
        content.append("\"}");
        FileWrite { path: self.signal_path.clone(), content }
    }

    fn closing_line(&self) -> (s: String)
        ensures
            s@ == self@.closing_line(),
    {
        let mut s = String::new();
        if self.blind {
            s.append("[ci-recorder] ");
            s.append(OBS_001);
            s.append(": nothing could be observed; coverage=unknown");
        } else if self.coverage() == Coverage::Unknown {
            s.append("[ci-recorder] ");
            s.append(SUB_004);
            s.append(": observed ");
            s.append(decimal_text(self.observed).as_str());
            s.append(" operations but submitted ");
            s.append(decimal_text(self.submitted).as_str());
            s.append("; coverage=unknown");
        } else {
            s.append("[ci-recorder] reconciliation: observed ");
            s.append(decimal_text(self.observed).as_str());
            s.append(" submitted ");
            s.append(decimal_text(self.submitted).as_str());
            s.append("; coverage=clean");
        }
        assert(s@ =~= self@.closing_line());
        s
    }

    /// The reconciliation signal, the stop heartbeat and the closing log line. A shortfall
    /// is logged as unknown coverage rather than swallowed.
    pub fn finish(&self) -> (f: Finish)
        ensures
            f.log@ == self@.closing_line(),
            f.signal.path@ == self@.signal_path,
            f.signal.content@ == self@.signal(),
            f.heartbeat.path@ == self@.heartbeat_path,
            exists|at: Timestamp|
                at.is_reading() && f.heartbeat.content@ == #[trigger] heartbeat_text("stopped"@, at),
    {
        let now = Timestamp::now();
        Finish { log: self.closing_line(), signal: self.signal(), heartbeat: self.heartbeat_at("stopped", &now) }
    }
}

// ---------------------------------------------------------------------------
// What holds of every job
// ---------------------------------------------------------------------------

/// A gap never reads as clean: coverage is clean exactly when operations could be observed
/// and no fewer were submitted than observed.
pub proof fn a_gap_is_never_clean(r: ReconcilerView)
    ensures
        r.submitted < r.observed ==> r.coverage() is Unknown,
        r.blind ==> r.coverage() is Unknown,
        r.coverage() is Clean <==> !r.blind && r.submitted >= r.observed,
{
}

/// No two records are buffered in the same file.
pub proof fn buffered_records_do_not_collide(r: ReconcilerView, m: nat, n: nat)
    requires
        (ReconcilerView { next_buffer_seq: m, ..r }).buffer_path() == (ReconcilerView {
            next_buffer_seq: n,
            ..r
        }).buffer_path(),
    ensures
        m == n,
{
    let (a, b) = (zero_padded(decimal(m), 6), zero_padded(decimal(n), 6));
    let head = if r.buffer_dir.len() == 0 || r.buffer_dir.last() == '/' {
        r.buffer_dir + "record-"@
    } else {
        r.buffer_dir + "/"@ + "record-"@
    };
    let tail = ".json"@;
    let (x, y) = (
        (ReconcilerView { next_buffer_seq: m, ..r }).buffer_path(),
        (ReconcilerView { next_buffer_seq: n, ..r }).buffer_path(),
    );
    assert(x =~= head + a + tail);
    assert(y =~= head + b + tail);
    assert(a.len() == b.len());
    assert(x.subrange(head.len() as int, head.len() as int + a.len()) =~= a);
    assert(y.subrange(head.len() as int, head.len() as int + b.len()) =~= b);
    lemma_padded_value(decimal(m));
    lemma_padded_value(decimal(n));
    lemma_decimal_value(m);
    lemma_decimal_value(n);
}

/// The number that a run of decimal digits stands for.
pub open spec fn value(s: Seq<char>) -> int
    decreases s.len(),
{
    if s.len() == 0 {
        0
    } else {
        10 * value(s.drop_last()) + (s.last() as int - '0' as int)
    }
}

proof fn lemma_decimal_value(n: nat)
    ensures
        value(decimal(n)) == n,
    decreases n,
{
    assert(value(Seq::<char>::empty()) == 0);
    if n < 10 {
        assert(decimal(n).drop_last() =~= Seq::<char>::empty());
        assert(decimal(n).last() == digit(n));
    } else {
        lemma_decimal_value(n / 10);
        assert(decimal(n).drop_last() =~= decimal(n / 10));
        assert(decimal(n).last() == digit(n % 10));
    }
}

proof fn lemma_padded_value(s: Seq<char>)
    ensures
        value(zero_padded(s, 6)) == value(s),
{
    if s.len() < 6 {
        lemma_leading_zeros((6 - s.len()) as nat, s);
    }
}

proof fn lemma_leading_zeros(k: nat, s: Seq<char>)
    ensures
        value(Seq::new(k, |i: int| '0') + s) == value(s),
    decreases k + s.len(),
{
    let zeros = Seq::new(k, |i: int| '0');
    if s.len() > 0 {
        lemma_leading_zeros(k, s.drop_last());
        assert((zeros + s).drop_last() =~= zeros + s.drop_last());
    } else if k > 0 {
        lemma_leading_zeros((k - 1) as nat, s);
        assert((zeros + s).drop_last() =~= Seq::new((k - 1) as nat, |i: int| '0') + s);
    } else {
        assert(zeros + s =~= s);
    }
}

/// Every buffered record is found again by the extension of its file.
pub proof fn buffered_records_are_found_again(seq: nat)
    ensures
        holds_record(
            vstd::utf8::encode_utf8("record-"@ + zero_padded(decimal(seq), 6) + ".json"@),
        ),
{
    let stem = "record-"@ + zero_padded(decimal(seq), 6);
    let ext = ".json"@;
    reveal_strlit("record-");
    reveal_strlit(".json");
    lemma_decimal_ascii(seq);
    let name = stem + ext;
    assert forall|i: int| 0 <= i < name.len() implies '\0' <= #[trigger] name[i] <= '\u{7f}' by {
        if 7 <= i < stem.len() {
            let d = zero_padded(decimal(seq), 6);
            assert(name[i] == d[i - 7]);
            if decimal(seq).len() < 6 && i - 7 >= 6 - decimal(seq).len() {
                assert(d[i - 7] == decimal(seq)[i - 7 - (6 - decimal(seq).len())]);
            }
        }
    }
    vstd::utf8::is_ascii_chars_encode_utf8(name);
    let bytes = vstd::utf8::encode_utf8(name);
    let n = name.len() as int;
    assert(bytes.skip(n - 5) =~= seq![46u8, 106u8, 115u8, 111u8, 110u8]);
}

proof fn lemma_decimal_ascii(n: nat)
    ensures
        forall|i: int| 0 <= i < decimal(n).len() ==> '0' <= #[trigger] decimal(n)[i] <= '9',
    decreases n,
{
    if n >= 10 {
        lemma_decimal_ascii(n / 10);
        assert('0' <= digit(n % 10) <= '9');
        assert(decimal(n) == decimal(n / 10).push(digit(n % 10)));
        assert forall|i: int| 0 <= i < decimal(n).len() implies '0' <= #[trigger] decimal(n)[i] <= '9' by {
            if i < decimal(n / 10).len() {
                assert(decimal(n)[i] == decimal(n / 10)[i]);
            }
        }
    } else {
        assert('0' <= digit(n) <= '9');
    }
}

/// A count is written in decimal digits that read back as the count, without a leading zero;
/// in the name of a buffer file it has at least six digits.
pub proof fn a_count_is_written_in_decimal(n: nat, i: int)
    ensures
        value(decimal(n)) == n,
        decimal(n).len() > 0,
        0 <= i < decimal(n).len() ==> '0' <= decimal(n)[i] <= '9',
        decimal(n)[0] == '0' ==> n == 0,
        value(zero_padded(decimal(n), 6)) == n,
        zero_padded(decimal(n), 6).len() == (if decimal(n).len() < 6 { 6 } else { decimal(n).len() }),
{
    lemma_decimal_value(n);
    lemma_decimal_ascii(n);
    lemma_padded_value(decimal(n));
    lemma_no_leading_zero(n);
}

proof fn lemma_no_leading_zero(n: nat)
    ensures
        decimal(n).len() > 0,
        decimal(n)[0] == '0' ==> n == 0,
    decreases n,
{
    if n < 10 {
        assert(decimal(n)[0] == digit(n));
        assert(n > 0 ==> digit(n) != '0');
    } else {
        lemma_no_leading_zero(n / 10);
        assert(decimal(n)[0] == decimal(n / 10)[0]);
    }
}

/// The signal tells the two counts and whether the job is clean, and a job is clean exactly
/// when it could observe and submitted no fewer operations than it observed.
pub proof fn the_signal_tells_the_counts(r: ReconcilerView, a: Seq<char>, b: Seq<char>)
    requires
        a == decimal(r.observed),
        b == decimal(r.submitted),
    ensures
        !r.blind && r.observed <= r.submitted ==> r.signal() == "{\"observed\":"@ + a + ",\"submitted\":"@ + b
            + ",\"coverage\":\""@ + "clean"@ + "\"}"@,
        r.blind || r.submitted < r.observed ==> r.signal() == "{\"observed\":"@ + a + ",\"submitted\":"@ + b
            + ",\"coverage\":\""@ + "unknown"@ + "\"}"@,
{
}

/// The log never calls a job clean that is not: the closing line of a gap names the code and
/// ends in `unknown`.
pub proof fn the_closing_line_names_a_gap(r: ReconcilerView, a: Seq<char>, b: Seq<char>)
    requires
        a == decimal(r.observed),
        b == decimal(r.submitted),
    ensures
        r.blind ==> r.closing_line() == "[ci-recorder] "@ + "OBS_001"@
            + ": nothing could be observed; coverage=unknown"@,
        !r.blind && r.submitted < r.observed ==> r.closing_line() == "[ci-recorder] "@ + "SUB_004"@ + ": observed "@ + a
            + " operations but submitted "@ + b + "; coverage=unknown"@,
        !r.blind && r.observed <= r.submitted ==> r.closing_line() == "[ci-recorder] reconciliation: observed "@ + a
            + " submitted "@ + b + "; coverage=clean"@,
{
}

/// A new job has counted nothing, and keeps its files under their names in the given
/// directory, whether or not that is written with a slash at its end.
pub proof fn a_job_keeps_its_files_in_its_directory(dir: Seq<char>)
    requires
        dir.len() > 0,
        dir.last() != '/',
    ensures
        ({
            let (r, t) = (ReconcilerView::fresh(dir), ReconcilerView::fresh(dir.push('/')));
            &&& r.observed == 0 && r.submitted == 0 && r.next_buffer_seq == 0 && !r.blind
            &&& r.buffer_dir == dir + "/ci-recorder-buffer"@
            &&& r.signal_path == dir + "/ci-recorder-reconciliation.json"@
            &&& r.heartbeat_path == dir + "/ci-recorder-heartbeat.json"@
            &&& t.buffer_dir == r.buffer_dir
            &&& t.signal_path == r.signal_path
            &&& t.heartbeat_path == r.heartbeat_path
            &&& r.buffer_path() == dir + "/ci-recorder-buffer"@ + "/record-"@ + zero_padded(decimal(0), 6) + ".json"@
        }),
{
    reveal_strlit("/");
    assert("/ci-recorder-buffer"@ =~= "/"@ + "ci-recorder-buffer"@) by {
        reveal_strlit("/ci-recorder-buffer");
        reveal_strlit("ci-recorder-buffer");
    }
    assert("/ci-recorder-reconciliation.json"@ =~= "/"@ + "ci-recorder-reconciliation.json"@) by {
        reveal_strlit("/ci-recorder-reconciliation.json");
        reveal_strlit("ci-recorder-reconciliation.json");
    }
    assert("/ci-recorder-heartbeat.json"@ =~= "/"@ + "ci-recorder-heartbeat.json"@) by {
        reveal_strlit("/ci-recorder-heartbeat.json");
        reveal_strlit("ci-recorder-heartbeat.json");
    }
    assert("/record-"@ =~= "/"@ + "record-"@) by {
        reveal_strlit("/record-");
        reveal_strlit("record-");
    }
    lemma_path_in(dir, "ci-recorder-buffer"@);
    lemma_path_in(dir, "ci-recorder-reconciliation.json"@);
    lemma_path_in(dir, "ci-recorder-heartbeat.json"@);
    let buffer = dir + "/ci-recorder-buffer"@;
    assert(buffer.last() != '/') by {
        reveal_strlit("/ci-recorder-buffer");
    }
    let name = "record-"@ + zero_padded(decimal(0), 6) + ".json"@;
    lemma_path_in(buffer, name);
    assert(buffer + "/"@ + name =~= buffer + "/record-"@ + zero_padded(decimal(0), 6) + ".json"@);
}

proof fn lemma_path_in(dir: Seq<char>, name: Seq<char>)
    requires
        dir.len() > 0,
        dir.last() != '/',
    ensures
        path_in(dir, name) == dir + "/"@ + name,
        path_in(dir, name) == dir + ("/"@ + name),
        path_in(dir.push('/'), name) == path_in(dir, name),
{
    reveal_strlit("/");
    assert(dir + "/"@ + name =~= dir + ("/"@ + name));
    assert(dir.push('/') + name =~= dir + "/"@ + name);
}

/// A file may hold a buffered record exactly when its name is something followed by `.json`.
pub proof fn a_record_file_is_told_by_its_extension(name: Seq<u8>, json: Seq<u8>)
    requires
        json == seq![46u8, 106u8, 115u8, 111u8, 110u8],
    ensures
        holds_record(name) <==> exists|stem: Seq<u8>| stem.len() > 0 && name == #[trigger] (stem + json),
{
    if holds_record(name) {
        let stem = name.take(name.len() - 5);
        assert(name =~= stem + json);
    }
    if exists|stem: Seq<u8>| stem.len() > 0 && name == #[trigger] (stem + json) {
        let stem = choose|stem: Seq<u8>| stem.len() > 0 && name == #[trigger] (stem + json);
        assert(name.skip(name.len() - 5) =~= json);
    }
}

/// A heartbeat tells the state and the instant, as a JSON object.
pub proof fn a_heartbeat_tells_the_state_and_the_instant(state: Seq<char>, at: Timestamp, text: Seq<char>)
    requires
        text == rfc3339(at.seconds(), at.subsec_nanos()),
    ensures
        heartbeat_text(state, at) == "{\"state\":\""@ + state + "\",\"at\":\""@ + text + "\"}"@,
{
}

/// Resending a buffered record closes the gap that it left exactly when it is delivered: one
/// more operation counts as submitted then, and nothing changes otherwise.
pub proof fn a_resent_record_closes_its_gap(r: ReconcilerView)
    ensures
        after_resending(r, true).observed - after_resending(r, true).submitted == r.observed - r.submitted - 1,
        after_resending(r, false) == r,
        after_resending(r, true).observed == r.observed,
        after_resending(r, true).blind == r.blind,
        !r.blind && r.observed == r.submitted + 1 ==> after_resending(r, true).coverage() is Clean,
{
}

} // verus!
