//! Assembly of a finalized [`Operation`] into an execution run record and its sidecar.
//!
//! Resolves the final operation `type` (adapter hint, then whitelist tag, then
//! heuristic), lists the hashed inputs and outputs, and emits a flat record plus the
//! [`ExecutionMetadataSidecar`].

use vstd::prelude::*;

use crate::adapter::{captured, AdapterView, CiAdapter};
use crate::diag::OBSERVATION_MODE;
use crate::env::pairs;
use crate::hash::digest_shaped;
use crate::hashing::{
    artifacts_are_in_the_order_of_their_paths, every_artifact_is_one_of_the_paths, flagged_paths, hash_set,
    hashed_entries, no_path_is_silently_dropped, or_null, Hashing, HashingView,
};
use crate::observe::{Operation, OperationView};
use crate::order::{ascending, text_before};
use crate::runrecord::{
    text_map, ArtifactView, ExecutionMetadataSidecar, RunRecord, RunRecordType, RunRecordView, SidecarView, SubmissionBody,
    SubmissionView, Timestamps, TimestampsView,
};
use crate::scope::scoped;
use crate::strmap::StrMap;
use crate::text::{contains_text, holds, lower_text, lowered, texts};
use crate::time::{elapsed_ms, millis_between, rfc3339_millis, Timestamp};

verus! {

// ---------------------------------------------------------------------------
// The type of an operation
// ---------------------------------------------------------------------------

/// The `type` that a command suggests by the words in it.
pub open spec fn guessed_type(command: Seq<char>) -> RunRecordType {
    if holds(lowered(command), "deploy"@) {
        RunRecordType::Deploy
    } else if holds(lowered(command), "test"@) {
        RunRecordType::Test
    } else {
        RunRecordType::Build
    }
}

/// The `type` of an operation, and whether it is only a guess.
pub open spec fn resolved_type(
    adapter_hint: Option<RunRecordType>,
    whitelist_tag: Option<RunRecordType>,
    command: Seq<char>,
) -> (RunRecordType, bool) {
    if adapter_hint is Some {
        (adapter_hint->0, false)
    } else if whitelist_tag is Some {
        (whitelist_tag->0, false)
    } else {
        (guessed_type(command), true)
    }
}

/// Resolve the operation `type`. Returns the resolved type and whether it came from the
/// heuristic last resort (which is flagged).
pub fn resolve_type(
    adapter_hint: Option<RunRecordType>,
    whitelist_tag: Option<RunRecordType>,
    command: &str,
) -> (r: (RunRecordType, bool))
    ensures
        r == resolved_type(adapter_hint, whitelist_tag, command@),
{
    if let Some(t) = adapter_hint {
        return (t, false);
    }
    if let Some(t) = whitelist_tag {
        return (t, false);
    }
    let lc = lower_text(command);
    let t = if contains_text(lc.as_str(), "deploy") {
        RunRecordType::Deploy
    } else if contains_text(lc.as_str(), "test") {
        RunRecordType::Test
    } else {
        RunRecordType::Build
    };
    (t, true)
}

/// The adapter's hint is authoritative, the whitelist tag comes second, and a guess is
/// flagged whenever it is used and only then.
pub proof fn a_guessed_type_is_always_flagged(
    adapter_hint: Option<RunRecordType>,
    whitelist_tag: Option<RunRecordType>,
    command: Seq<char>,
)
    ensures
        resolved_type(adapter_hint, whitelist_tag, command).1 <==> adapter_hint is None && whitelist_tag is None,
        adapter_hint is Some ==> resolved_type(adapter_hint, whitelist_tag, command).0 == adapter_hint->0,
        adapter_hint is None && whitelist_tag is Some ==> resolved_type(adapter_hint, whitelist_tag, command).0
            == whitelist_tag->0,
{
}

// ---------------------------------------------------------------------------
// Assembly
// ---------------------------------------------------------------------------

/// Why an operation cannot be assembled.
#[derive(Clone, Copy, Debug, PartialEq, Eq, Structural)]
pub enum AssembleError {
    NoWorkingDirectory,
    NoRepo,
    NoCommit,
}

impl AssembleError {
    /// What the error says.
    pub open spec fn text(self) -> Seq<char> {
        match self {
            AssembleError::NoWorkingDirectory => "operation has no working_directory; cannot relativize/join"@,
            AssembleError::NoRepo => "adapter could not source repo"@,
            AssembleError::NoCommit => "adapter could not source commit"@,
        }
    }

    /// What the error says.
    pub fn message(self) -> (s: &'static str)
        ensures
            s@ == self.text(),
    {
        match self {
            AssembleError::NoWorkingDirectory => "operation has no working_directory; cannot relativize/join",
            AssembleError::NoRepo => "adapter could not source repo",
            AssembleError::NoCommit => "adapter could not source commit",
        }
    }
}

/// What was probed of the host.
#[derive(Clone, Debug)]
pub struct Host {
    pub platform: String,
    pub architecture: String,
    pub tool_versions: Option<StrMap<String>>,
}

/// What a [`Host`] says.
pub struct HostView {
    pub platform: Seq<char>,
    pub architecture: Seq<char>,
    pub tool_versions: Option<Map<Seq<char>, Seq<char>>>,
}

impl View for Host {
    type V = HostView;

    open spec fn view(&self) -> HostView {
        HostView {
            platform: self.platform@,
            architecture: self.architecture@,
            tool_versions: text_map(self.tool_versions),
        }
    }
}

/// An assembled operation.
#[derive(Clone, Debug)]
pub struct Assembled {
    pub body: SubmissionBody,
    /// Whether the `type` was guessed from the command.
    pub heuristic: bool,
    /// The in-scope files that could not be read for hashing.
    pub unreadable: Vec<String>,
}

/// Why the operation cannot be assembled, if it cannot.
pub open spec fn obstacle(op: OperationView, facts: AdapterView) -> Option<AssembleError> {
    if op.working_directory is None {
        Some(AssembleError::NoWorkingDirectory)
    } else if facts.repo is None {
        Some(AssembleError::NoRepo)
    } else if facts.commit is None {
        Some(AssembleError::NoCommit)
    } else {
        None
    }
}

/// The command of an operation: the root's command line, or else its kernel name.
pub open spec fn command_of(op: OperationView) -> Seq<char> {
    match op.command {
        Some(c) => c,
        None => op.root_comm,
    }
}

/// The time window on the wire.
pub open spec fn window(start: Timestamp, end: Timestamp) -> TimestampsView {
    TimestampsView {
        start_time: rfc3339_millis(start.seconds(), start.subsec_nanos()),
        end_time: rfc3339_millis(end.seconds(), end.subsec_nanos()),
        duration_ms: elapsed_ms(start, end) as u64,
    }
}

/// The run record of an operation that ended at `end`.
pub open spec fn record_of(
    op: OperationView,
    facts: AdapterView,
    hashed: HashingView,
    vars: Seq<(Seq<char>, Seq<char>)>,
    host: HostView,
    end: Timestamp,
) -> RunRecordView {
    RunRecordView {
        run_type: resolved_type(facts.type_hint, op.whitelist_type, command_of(op)).0,
        command: command_of(op),
        exit_code: op.exit_code,
        platform: host.platform,
        architecture: host.architecture,
        working_directory: op.working_directory->0,
        repo: facts.repo->0,
        commit: facts.commit->0,
        tool_versions: host.tool_versions,
        inputs: or_null(hashed_entries(hashed.inputs, hashed.input_digests())),
        outputs: or_null(hashed_entries(hashed.outputs, hashed.output_digests())),
        environment: captured(facts.allowed, vars),
        timestamps: window(op.start_time, end),
    }
}

/// The sidecar of an operation that ended at `end`.
pub open spec fn sidecar_of(op: OperationView, facts: AdapterView, end: Timestamp) -> SidecarView {
    let w = window(op.start_time, end);
    SidecarView {
        start_time: Some(w.start_time),
        end_time: Some(w.end_time),
        duration_ms: Some(w.duration_ms),
        observation_mode: Some(OBSERVATION_MODE@),
        run_id: facts.run_id,
        run_attempt: facts.run_attempt,
        deploy_target: facts.deploy_target,
    }
}

/// When the operation ended; `now` when that was not observed.
pub open spec fn end_of(op: OperationView, now: Timestamp) -> Timestamp {
    match op.end_time {
        Some(t) => t,
        None => now,
    }
}

/// Whether `r` is what assembling the operation gives when `now` is the current instant.
pub open spec fn assembled(
    op: OperationView,
    facts: AdapterView,
    hashed: HashingView,
    vars: Seq<(Seq<char>, Seq<char>)>,
    host: HostView,
    now: Timestamp,
    r: Result<Assembled, AssembleError>,
) -> bool {
    match obstacle(op, facts) {
        Some(e) => r == Err::<Assembled, AssembleError>(e),
        None => {
            &&& r is Ok
            &&& r->Ok_0.body@ == (SubmissionView {
                run_record: record_of(op, facts, hashed, vars, host, end_of(op, now)),
                metadata: sidecar_of(op, facts, end_of(op, now)),
            })
            &&& r->Ok_0.heuristic == resolved_type(facts.type_hint, op.whitelist_type, command_of(op)).1
            &&& texts(r->Ok_0.unreadable@) == flagged_paths(hashed.inputs, hashed.input_digests())
                + flagged_paths(hashed.outputs, hashed.output_digests())
        },
    }
}

/// Whether every artifact on a list carries `sha256:` and 64 lowercase hexadecimal digits.
pub open spec fn list_well_hashed(list: Option<Seq<ArtifactView>>) -> bool {
    list matches Some(entries) ==> forall|i: int|
        0 <= i < entries.len() ==> digest_shaped((#[trigger] entries[i]).hash)
}

/// Whether every artifact of a record carries `sha256:` and 64 lowercase hexadecimal digits.
pub open spec fn well_hashed(record: RunRecordView) -> bool {
    list_well_hashed(record.inputs) && list_well_hashed(record.outputs)
}

proof fn lemma_list_well_hashed(paths: Seq<Seq<char>>, digests: Seq<Option<Seq<char>>>)
    requires
        paths.len() == digests.len(),
        forall|i: int| 0 <= i < digests.len() ==> (#[trigger] digests[i] matches Some(d) ==> digest_shaped(d)),
    ensures
        list_well_hashed(or_null(hashed_entries(paths, digests))),
{
    let entries = hashed_entries(paths, digests);
    assert forall|i: int| 0 <= i < entries.len() implies digest_shaped((#[trigger] entries[i]).hash) by {
        assert(entries.contains(entries[i]));
        every_artifact_is_one_of_the_paths(paths, digests, entries[i]);
        let k = choose|k: int|
            0 <= k < paths.len() && #[trigger] paths[k] == entries[i].path && digests[k] == Some(entries[i].hash);
        assert(digests[k] == Some(entries[i].hash));
    }
}

/// Every digest of the hashing reaches the record in the shape of a digest.
proof fn lemma_record_well_hashed(h: HashingView)
    requires
        h.wf(),
        h.finished(),
    ensures
        list_well_hashed(or_null(hashed_entries(h.inputs, h.input_digests()))),
        list_well_hashed(or_null(hashed_entries(h.outputs, h.output_digests()))),
{
    let (a, b) = (h.input_digests(), h.output_digests());
    assert forall|i: int| 0 <= i < a.len() implies (#[trigger] a[i] matches Some(d) ==> digest_shaped(d)) by {
        assert(a[i] == h.digests[i]);
    }
    assert forall|i: int| 0 <= i < b.len() implies (#[trigger] b[i] matches Some(d) ==> digest_shaped(d)) by {
        assert(b[i] == h.digests[i + h.inputs.len()]);
    }
    lemma_list_well_hashed(h.inputs, a);
    lemma_list_well_hashed(h.outputs, b);
}

/// Why the operation cannot be assembled, if it cannot; nothing needs to be hashed
/// then.
pub fn blocked<A: CiAdapter>(op: &Operation, adapter: &A) -> (r: Option<AssembleError>)
    ensures
        r == obstacle(op@, adapter.facts()),
{
    if op.working_directory.is_none() {
        Some(AssembleError::NoWorkingDirectory)
    } else if adapter.repo().is_none() {
        Some(AssembleError::NoRepo)
    } else if adapter.commit().is_none() {
        Some(AssembleError::NoCommit)
    } else {
        None
    }
}

/// Assemble one operation whose files were hashed. `env_vars` is the process environment
/// to filter through the adapter's allowlist; an operation that was not seen to end is
/// taken to end now.
pub fn assemble<A: CiAdapter>(
    op: &Operation,
    adapter: &A,
    hashing: &Hashing,
    env_vars: &Vec<(String, String)>,
    host: Host,
) -> (r: Result<Assembled, AssembleError>)
    requires
        hashing@.of(op@),
        hashing@.wf(),
        hashing@.finished(),
    ensures
        exists|now: Timestamp|
            now.is_reading() && #[trigger] assembled(
                op@,
                adapter.facts(),
                hashing@,
                pairs(env_vars@),
                host@,
                now,
                r,
            ),
        r matches Ok(a) ==> well_hashed(a.body@.run_record),
{
    let now = Timestamp::now();
    assemble_at(op, adapter, hashing, env_vars, host, now)
}

/// Assemble one operation whose files were hashed, with `now` as the current instant.
pub fn assemble_at<A: CiAdapter>(
    op: &Operation,
    adapter: &A,
    hashing: &Hashing,
    env_vars: &Vec<(String, String)>,
    host: Host,
    now: Timestamp,
) -> (r: Result<Assembled, AssembleError>)
    requires
        hashing@.of(op@),
        hashing@.wf(),
        hashing@.finished(),
    ensures
        assembled(op@, adapter.facts(), hashing@, pairs(env_vars@), host@, now, r),
        r matches Ok(a) ==> well_hashed(a.body@.run_record),
{
    let working_directory = match &op.working_directory {
        Some(wd) => wd.clone(),
        None => {
            return Err(AssembleError::NoWorkingDirectory);
        },
    };
    let repo = match adapter.repo() {
        Some(repo) => repo,
        None => {
            return Err(AssembleError::NoRepo);
        },
    };
    let commit = match adapter.commit() {
        Some(commit) => commit,
        None => {
            return Err(AssembleError::NoCommit);
        },
    };
    let command = match &op.command {
        Some(c) => c.clone(),
        None => op.root_comm.clone(),
    };
    let (run_type, heuristic) = resolve_type(adapter.type_hint(), op.whitelist_type, command.as_str());

    let (inputs, mut unreadable) = hash_set(&hashing.inputs, &hashing.digests, 0);
    let (outputs, mut more) = hash_set(&hashing.outputs, &hashing.digests, hashing.inputs.len());
    let ghost (first, second) = (unreadable@, more@);
    unreadable.append(&mut more);
    proof {
        let h = hashing@;
        assert(h.digests.subrange(0, h.inputs.len() as int) =~= h.input_digests());
        assert(h.digests.subrange(h.inputs.len() as int, h.total()) =~= h.output_digests());
        assert(texts(unreadable@) =~= texts(first) + texts(second));
        lemma_record_well_hashed(h);
    }

    let environment = adapter.env_allowlist().capture(env_vars);

    let end = match op.end_time {
        Some(t) => t,
        None => now,
    };
    let duration_ms = millis_between(&op.start_time, &end);
    let start_iso = op.start_time.to_millis_text();
    let end_iso = end.to_millis_text();

    let run_record = RunRecord {
        run_type,
        command,
        exit_code: op.exit_code,
        platform: host.platform,
        architecture: host.architecture,
        working_directory,
        repo,
        commit,
        tool_versions: host.tool_versions,
        inputs,
        outputs,
        environment,
        timestamps: Timestamps { start_time: start_iso.clone(), end_time: end_iso.clone(), duration_ms },
    };
    let identity = adapter.run_identity();
    let metadata = ExecutionMetadataSidecar {
        start_time: Some(start_iso),
        end_time: Some(end_iso),
        duration_ms: Some(duration_ms),
        observation_mode: Some(OBSERVATION_MODE.to_owned()),
        run_id: identity.run_id,
        run_attempt: identity.run_attempt,
        deploy_target: adapter.deploy_target(),
    };
    Ok(Assembled { body: SubmissionBody { run_record, metadata }, heuristic, unreadable })
}

// ---------------------------------------------------------------------------
// What holds of every record
// ---------------------------------------------------------------------------

/// Run identity and deploy target stay out of the record that a receipt is made of: two
/// runs that differ in nothing else give the same record, and carry their own identity
/// on the sidecar.
pub proof fn run_identity_stays_out_of_the_record(
    op: OperationView,
    one: AdapterView,
    two: AdapterView,
    hashed: HashingView,
    vars: Seq<(Seq<char>, Seq<char>)>,
    host: HostView,
    end: Timestamp,
)
    requires
        two == (AdapterView {
            run_id: two.run_id,
            run_attempt: two.run_attempt,
            deploy_target: two.deploy_target,
            ..one
        }),
    ensures
        record_of(op, one, hashed, vars, host, end) == record_of(op, two, hashed, vars, host, end),
        sidecar_of(op, two, end).run_id == two.run_id,
        sidecar_of(op, two, end).run_attempt == two.run_attempt,
        sidecar_of(op, two, end).deploy_target == two.deploy_target,
{
}

/// An exit code that was not observed stays unknown; it is never defaulted to 0. The
/// sidecar names the one capture mode, and its times are those of the record.
pub proof fn nothing_unobserved_is_made_up(
    op: OperationView,
    facts: AdapterView,
    hashed: HashingView,
    vars: Seq<(Seq<char>, Seq<char>)>,
    host: HostView,
    end: Timestamp,
)
    ensures
        ({
            let record = record_of(op, facts, hashed, vars, host, end);
            let sidecar = sidecar_of(op, facts, end);
            &&& record.exit_code == op.exit_code
            &&& sidecar.observation_mode == Some(OBSERVATION_MODE@)
            &&& sidecar.start_time == Some(record.timestamps.start_time)
            &&& sidecar.end_time == Some(record.timestamps.end_time)
            &&& sidecar.duration_ms == Some(record.timestamps.duration_ms)
        }),
{
}

/// Every artifact of a record lies inside the record's working directory, outside the
/// excluded directories; inputs are files that were read and neither written nor
/// deleted, outputs are files that were written and not deleted after that, and no file
/// is both. Every hash is `sha256:` and 64 lowercase hexadecimal digits.
pub proof fn artifacts_lie_in_scope(
    op: OperationView,
    facts: AdapterView,
    hashed: HashingView,
    vars: Seq<(Seq<char>, Seq<char>)>,
    host: HostView,
    end: Timestamp,
    e: ArtifactView,
)
    requires
        hashed.of(op),
        hashed.wf(),
        hashed.finished(),
        op.working_directory is Some,
    ensures
        ({
            let record = record_of(op, facts, hashed, vars, host, end);
            let read = record.inputs is Some && record.inputs->0.contains(e);
            let written = record.outputs is Some && record.outputs->0.contains(e);
            &&& read ==> op.has_input(e.path) && scoped(e.path, record.working_directory)
            &&& written ==> op.has_output(e.path) && scoped(e.path, record.working_directory)
            &&& !(read && written)
            &&& read || written ==> digest_shaped(e.hash)
            &&& well_hashed(record)
        }),
{
    let record = record_of(op, facts, hashed, vars, host, end);
    lemma_record_well_hashed(hashed);
    if record.inputs is Some && record.inputs->0.contains(e) {
        every_artifact_is_one_of_the_paths(hashed.inputs, hashed.input_digests(), e);
        assert(hashed.inputs.contains(e.path));
        assert(op.has_input(e.path));
    }
    if record.outputs is Some && record.outputs->0.contains(e) {
        every_artifact_is_one_of_the_paths(hashed.outputs, hashed.output_digests(), e);
        assert(hashed.outputs.contains(e.path));
        assert(op.has_output(e.path));
    }
}

/// A variable that is not on the adapter's allowlist, such as the token, changes nothing
/// in the record, whatever its value.
pub proof fn other_variables_stay_out_of_the_record(
    op: OperationView,
    facts: AdapterView,
    hashed: HashingView,
    vars: Seq<(Seq<char>, Seq<char>)>,
    secret: (Seq<char>, Seq<char>),
    host: HostView,
    end: Timestamp,
)
    requires
        !facts.allowed.contains(secret.0),
    ensures
        record_of(op, facts, hashed, vars.push(secret), host, end) == record_of(op, facts, hashed, vars, host, end),
{
    crate::adapter::capture_ignores_other_variables(facts.allowed, vars, secret);
}

/// Whether the list is present and holds the artifact.
pub open spec fn on_list(list: Option<Seq<ArtifactView>>, e: ArtifactView) -> bool {
    list is Some && list->0.contains(e)
}

/// Whether a list of the record is complete and right for the files at `paths`, whose
/// digests stand at `digests[from..]`: it holds each file with a digest under that digest, and
/// nothing else, in ascending order; it is absent only when no file has a digest.
pub open spec fn lists_all(
    list: Option<Seq<ArtifactView>>,
    paths: Seq<Seq<char>>,
    digests: Seq<Option<Seq<char>>>,
    from: int,
) -> bool {
    &&& forall|i: int|
        0 <= i < paths.len() && digests[from + i] is Some ==> on_list(
            list,
            ArtifactView { path: #[trigger] paths[i], hash: digests[from + i]->0 },
        )
    &&& forall|e: ArtifactView| #[trigger]
        on_list(list, e) ==> exists|i: int|
            0 <= i < paths.len() && #[trigger] paths[i] == e.path && digests[from + i] == Some(e.hash)
    &&& list is Some ==> list->0.len() > 0
    &&& forall|a: int, b: int|
        list is Some && 0 <= a < b < list->0.len() ==> text_before(
            (#[trigger] list->0[a]).path,
            (#[trigger] list->0[b]).path,
        )
}

proof fn lemma_lists_all(paths: Seq<Seq<char>>, all: Seq<Option<Seq<char>>>, from: int, digests: Seq<Option<Seq<char>>>)
    requires
        0 <= from,
        from + paths.len() <= all.len(),
        digests == all.subrange(from, from + paths.len()),
        ascending(paths),
    ensures
        lists_all(or_null(hashed_entries(paths, digests)), paths, all, from),
{
    let entries = hashed_entries(paths, digests);
    let list = or_null(entries);
    assert forall|i: int| 0 <= i < paths.len() && all[from + i] is Some implies on_list(
        list,
        ArtifactView { path: #[trigger] paths[i], hash: all[from + i]->0 },
    ) by {
        assert(digests[i] == all[from + i]);
        no_path_is_silently_dropped(paths, digests, i);
        assert(entries.contains(ArtifactView { path: paths[i], hash: digests[i]->0 }));
    }
    assert forall|e: ArtifactView| #[trigger] on_list(list, e) implies exists|i: int|
        0 <= i < paths.len() && #[trigger] paths[i] == e.path && all[from + i] == Some(e.hash) by {
        every_artifact_is_one_of_the_paths(paths, digests, e);
        let i = choose|i: int| 0 <= i < paths.len() && #[trigger] paths[i] == e.path && digests[i] == Some(e.hash);
        assert(paths[i] == e.path && all[from + i] == Some(e.hash));
    }
    assert forall|a: int, b: int| list is Some && 0 <= a < b < list->0.len() implies text_before(
        (#[trigger] list->0[a]).path,
        (#[trigger] list->0[b]).path,
    ) by {
        artifacts_are_in_the_order_of_their_paths(paths, digests, a, b);
    }
}

/// The record is complete: every input and every output whose digest is known is on the
/// record's list under that digest, whatever the exit code, and every one without a digest is
/// reported as unreadable. A list is absent only when no file of its kind has a digest.
pub proof fn every_hashed_file_is_on_the_record(
    op: OperationView,
    facts: AdapterView,
    hashed: HashingView,
    vars: Seq<(Seq<char>, Seq<char>)>,
    host: HostView,
    now: Timestamp,
    r: Result<Assembled, AssembleError>,
)
    requires
        assembled(op, facts, hashed, vars, host, now, r),
        hashed.of(op),
        hashed.finished(),
        r is Ok,
    ensures
        ({
            let n = hashed.inputs.len() as int;
            let record = r->Ok_0.body@.run_record;
            &&& lists_all(record.inputs, hashed.inputs, hashed.digests, 0)
            &&& lists_all(record.outputs, hashed.outputs, hashed.digests, n)
            &&& forall|i: int|
                0 <= i < hashed.inputs.len() && hashed.digests[i] is None ==> texts(r->Ok_0.unreadable@).contains(
                    #[trigger] hashed.inputs[i],
                )
            &&& forall|i: int|
                0 <= i < hashed.outputs.len() && hashed.digests[n + i] is None ==> texts(r->Ok_0.unreadable@).contains(
                    #[trigger] hashed.outputs[i],
                )
        }),
        forall|p: Seq<char>| op.has_input(p) ==> #[trigger] hashed.inputs.contains(p),
        forall|p: Seq<char>| op.has_output(p) ==> #[trigger] hashed.outputs.contains(p),
{
    let n = hashed.inputs.len() as int;
    let (a, b) = (hashed.input_digests(), hashed.output_digests());
    assert(a =~= hashed.digests.subrange(0, 0 + n));
    assert(b =~= hashed.digests.subrange(n, n + hashed.outputs.len()));
    lemma_lists_all(hashed.inputs, hashed.digests, 0, a);
    lemma_lists_all(hashed.outputs, hashed.digests, n, b);
    let (f, g) = (flagged_paths(hashed.inputs, a), flagged_paths(hashed.outputs, b));
    let all = texts(r->Ok_0.unreadable@);
    assert forall|i: int| 0 <= i < hashed.inputs.len() && hashed.digests[i] is None implies all.contains(
        #[trigger] hashed.inputs[i],
    ) by {
        assert(a[i] == hashed.digests[i]);
        no_path_is_silently_dropped(hashed.inputs, a, i);
        let k = choose|k: int| 0 <= k < f.len() && f[k] == hashed.inputs[i];
        assert(all[k] == hashed.inputs[i]);
    }
    assert forall|i: int| 0 <= i < hashed.outputs.len() && hashed.digests[n + i] is None implies all.contains(
        #[trigger] hashed.outputs[i],
    ) by {
        assert(b[i] == hashed.digests[n + i]);
        no_path_is_silently_dropped(hashed.outputs, b, i);
        let k = choose|k: int| 0 <= k < g.len() && g[k] == hashed.outputs[i];
        assert(all[f.len() + k] == hashed.outputs[i]);
    }
}

/// An operation is assembled exactly when its working directory, the repository and the
/// commit are known; what is missing is named, the working directory before the repository
/// before the commit.
pub proof fn only_what_is_missing_stops_an_assembly(
    op: OperationView,
    facts: AdapterView,
    hashed: HashingView,
    vars: Seq<(Seq<char>, Seq<char>)>,
    host: HostView,
    now: Timestamp,
    r: Result<Assembled, AssembleError>,
)
    requires
        assembled(op, facts, hashed, vars, host, now, r),
    ensures
        r is Ok <==> op.working_directory is Some && facts.repo is Some && facts.commit is Some,
        op.working_directory is None ==> r == Err::<Assembled, AssembleError>(AssembleError::NoWorkingDirectory),
        op.working_directory is Some && facts.repo is None ==> r == Err::<Assembled, AssembleError>(
            AssembleError::NoRepo,
        ),
        op.working_directory is Some && facts.repo is Some && facts.commit is None ==> r == Err::<
            Assembled,
            AssembleError,
        >(AssembleError::NoCommit),
{
}

/// The record says what was observed and what the adapter and the host say, each in its own
/// place: the root's command line (its kernel name when there is none), its exit code, where
/// it ran, which repository and commit, on which host, and from when to when.
pub proof fn a_record_says_what_was_observed(
    op: OperationView,
    facts: AdapterView,
    hashed: HashingView,
    vars: Seq<(Seq<char>, Seq<char>)>,
    host: HostView,
    now: Timestamp,
    r: Result<Assembled, AssembleError>,
)
    requires
        assembled(op, facts, hashed, vars, host, now, r),
        r is Ok,
    ensures
        ({
            let record = r->Ok_0.body@.run_record;
            let end = if op.end_time is Some { op.end_time->0 } else { now };
            let (a, b) = (op.start_time.total_nanos(), end.total_nanos());
            &&& record.command == (if op.command is Some { op.command->0 } else { op.root_comm })
            &&& record.exit_code == op.exit_code
            &&& Some(record.working_directory) == op.working_directory
            &&& Some(record.repo) == facts.repo
            &&& Some(record.commit) == facts.commit
            &&& record.platform == host.platform
            &&& record.architecture == host.architecture
            &&& record.tool_versions == host.tool_versions
            &&& record.environment == captured(facts.allowed, vars)
            &&& record.timestamps.start_time == rfc3339_millis(
                op.start_time.seconds(),
                op.start_time.subsec_nanos(),
            )
            &&& record.timestamps.end_time == rfc3339_millis(end.seconds(), end.subsec_nanos())
            &&& b < a ==> record.timestamps.duration_ms == 0
            &&& a <= b && (b - a) / 1_000_000 <= u64::MAX ==> {
                &&& record.timestamps.duration_ms * 1_000_000 <= b - a
                &&& b - a < (record.timestamps.duration_ms + 1) * 1_000_000
            }
            &&& r->Ok_0.body@.metadata == (SidecarView {
                start_time: Some(record.timestamps.start_time),
                end_time: Some(record.timestamps.end_time),
                duration_ms: Some(record.timestamps.duration_ms),
                observation_mode: Some("file_access_tracking"@),
                run_id: facts.run_id,
                run_attempt: facts.run_attempt,
                deploy_target: facts.deploy_target,
            })
            &&& (facts.type_hint is Some ==> record.run_type == facts.type_hint->0 && !r->Ok_0.heuristic)
            &&& (facts.type_hint is None && op.whitelist_type is Some ==> record.run_type == op.whitelist_type->0
                && !r->Ok_0.heuristic)
            &&& (facts.type_hint is None && op.whitelist_type is None ==> r->Ok_0.heuristic && {
                &&& record.run_type is Deploy <==> mentions(record.command, "deploy"@)
                &&& record.run_type is Test <==> mentions(record.command, "test"@) && !mentions(
                    record.command,
                    "deploy"@,
                )
            })
        }),
{
    lemma_guess(command_of(op));
}

/// Whether a character is this lower-case letter, in either case.
pub open spec fn same_letter(c: char, letter: char) -> bool {
    c == letter || c as int + 32 == letter as int
}

/// Whether the word stands at this place of the command, in any mixture of cases.
pub open spec fn mentioned_at(command: Seq<char>, word: Seq<char>, at: int) -> bool {
    &&& 0 <= at
    &&& at + word.len() <= command.len()
    &&& forall|k: int| 0 <= k < word.len() ==> same_letter(command[at + k], #[trigger] word[k])
}

/// Whether the word stands somewhere in the command, in any mixture of cases.
pub open spec fn mentions(command: Seq<char>, word: Seq<char>) -> bool {
    exists|at: int| #[trigger] mentioned_at(command, word, at)
}

proof fn lemma_mentions(command: Seq<char>, word: Seq<char>)
    requires
        forall|k: int| 0 <= k < word.len() ==> 'a' <= #[trigger] word[k] <= 'z',
    ensures
        holds(lowered(command), word) <==> mentions(command, word),
{
    let low = lowered(command);
    assert(forall|i: int| 0 <= i < command.len() ==> low[i] == crate::text::lower_char(command[i]));
    if holds(low, word) {
        let at = choose|at: int| crate::text::occurs_at(low, word, at);
        assert forall|k: int| 0 <= k < word.len() implies same_letter(command[at + k], #[trigger] word[k]) by {
            assert(low.subrange(at, at + word.len())[k] == word[k]);
            assert(low[at + k] == word[k]);
        }
        assert(mentioned_at(command, word, at));
    }
    if mentions(command, word) {
        let at = choose|at: int| #[trigger] mentioned_at(command, word, at);
        assert forall|k: int| 0 <= k < word.len() implies low[at + k] == #[trigger] word[k] by {
            assert(same_letter(command[at + k], word[k]));
        }
        assert(low.subrange(at, at + word.len()) =~= word);
        assert(crate::text::occurs_at(low, word, at));
    }
}

proof fn lemma_guess(command: Seq<char>)
    ensures
        guessed_type(command) is Deploy <==> mentions(command, "deploy"@),
        guessed_type(command) is Test <==> mentions(command, "test"@) && !mentions(command, "deploy"@),
{
    reveal_strlit("deploy");
    reveal_strlit("test");
    lemma_mentions(command, "deploy"@);
    lemma_mentions(command, "test"@);
}

} // verus!
