//! The GitHub Actions adapter.
//!
//! Sources `repo`, the authoritative head `commit`, the `type` hint, the deploy
//! target, the run identity and the env allowlist from the GitHub Actions
//! environment. On `pull_request` events `GITHUB_SHA` is a synthetic merge commit, so
//! the adapter reads the pull request's head SHA from the event payload.

use vstd::prelude::*;

use crate::adapter::{
    capture_is_fail_closed, holds_token, is_token_variable, let_through, AdapterView, CiAdapter, EnvAllowlist, RunIdentity,
};
use crate::command::{answer, answer_of, output_bytes, push_words, stdout_of, CommandOutput};
use crate::env::{a_variable_is_found_by_its_very_name, env_value, is_set, is_unset, lookup, pairs};
use crate::json::{json_string_at, string_at};
use crate::runrecord::RunRecordType;
use crate::text::{begins, begins_with, clone_opt, opt_str, opt_text, same_text, texts};

verus! {

/// What the adapter found in the environment.
#[derive(Clone, Debug)]
pub struct GithubAdapter {
    pub repo: Option<String>,
    pub commit: Option<String>,
    pub type_hint: Option<RunRecordType>,
    pub deploy_target: Option<String>,
    pub run_id: Option<String>,
    pub run_attempt: Option<String>,
    pub env_allowlist: EnvAllowlist,
}

/// The variables of a GitHub Actions environment.
pub type EnvPairs = Seq<(Seq<char>, Seq<char>)>;

/// Whether the event checks out a synthetic merge commit.
pub open spec fn on_pull_request(event_name: Option<Seq<char>>) -> bool {
    event_name == Some("pull_request"@) || event_name == Some("pull_request_target"@)
}

/// `s` unless it is empty.
pub open spec fn non_empty(s: Option<Seq<char>>) -> Option<Seq<char>> {
    match s {
        Some(s) => if s.len() > 0 {
            Some(s)
        } else {
            None
        },
        None => None,
    }
}

/// The canonical commit: on a pull request the head SHA when the payload has one, and
/// `GITHUB_SHA` otherwise.
pub open spec fn canonical_commit(
    event_name: Option<Seq<char>>,
    github_sha: Option<Seq<char>>,
    head_sha: Option<Seq<char>>,
) -> Option<Seq<char>> {
    if on_pull_request(event_name) && non_empty(head_sha) is Some {
        head_sha
    } else {
        non_empty(github_sha)
    }
}

/// Where the payload of a pull request holds the head SHA.
pub const HEAD_SHA_POINTER: &'static str = "/pull_request/head/sha";

/// The head SHA that an event payload holds.
pub open spec fn payload_head(event_json: Option<Seq<char>>) -> Option<Seq<char>> {
    match event_json {
        Some(text) => json_string_at(text, HEAD_SHA_POINTER@),
        None => None,
    }
}

/// Whether the event checks out a synthetic merge commit.
fn is_pull_request(event_name: Option<&str>) -> (r: bool)
    ensures
        r == on_pull_request(opt_str(event_name)),
{
    match event_name {
        Some(name) => same_text(name, "pull_request") || same_text(name, "pull_request_target"),
        None => false,
    }
}

/// The canonical commit, given the head SHA that the event payload holds.
pub fn choose_commit(event_name: Option<&str>, github_sha: Option<&str>, head_sha: Option<String>) -> (r: Option<
    String,
>)
    ensures
        opt_text(r) == canonical_commit(opt_str(event_name), opt_str(github_sha), opt_text(head_sha)),
{
    if is_pull_request(event_name) {
        if let Some(sha) = head_sha {
            if !sha.as_str().is_empty() {
                return Some(sha);
            }
        }
    }
    match github_sha {
        Some(sha) => if sha.is_empty() {
            None
        } else {
            Some(sha.to_owned())
        },
        None => None,
    }
}

/// Resolve the canonical commit.
///
/// - `pull_request` / `pull_request_target`: the head SHA from the event payload,
///   never the synthetic merge `GITHUB_SHA` unless the payload has none.
/// - everything else (push, merge_group, ...): `GITHUB_SHA`.
pub fn resolve_commit(event_name: Option<&str>, github_sha: Option<&str>, event_json: Option<&str>) -> (r: Option<
    String,
>)
    ensures
        opt_text(r) == canonical_commit(
            opt_str(event_name),
            opt_str(github_sha),
            payload_head(opt_str(event_json)),
        ),
{
    let mut head_sha: Option<String> = None;
    if is_pull_request(event_name) {
        if let Some(text) = event_json {
            head_sha = string_at(text, HEAD_SHA_POINTER);
        }
    }
    choose_commit(event_name, github_sha, head_sha)
}

/// The arguments that ask `git` for the checked-out commit, in the workspace if it is
/// known.
pub open spec fn head_args(workspace: Option<Seq<char>>) -> Seq<Seq<char>> {
    match workspace {
        Some(ws) => seq!["-C"@, ws, "rev-parse"@, "HEAD"@],
        None => seq!["rev-parse"@, "HEAD"@],
    }
}

/// The arguments that ask `git` for the checked-out commit, in the workspace if it is
/// known.
pub fn git_head_args(workspace: Option<&str>) -> (args: Vec<String>)
    ensures
        texts(args@) == head_args(opt_str(workspace)),
{
    let mut args: Vec<String> = Vec::new();
    if let Some(ws) = workspace {
        push_words(&mut args, &["-C", ws]);
    }
    push_words(&mut args, &["rev-parse", "HEAD"]);
    assert(texts(args@) =~= head_args(opt_str(workspace)));
    args
}

/// The commit that `git` answered with.
pub open spec fn head_answer(out: Option<CommandOutput>) -> Option<Seq<char>> {
    match output_bytes(out) {
        Some(bytes) => answer(bytes),
        None => None,
    }
}

/// Last-resort commit: what `git rev-parse HEAD` answered.
pub fn git_head(out: Option<CommandOutput>) -> (r: Option<String>)
    ensures
        opt_text(r) == head_answer(out),
{
    match stdout_of(out) {
        Some(bytes) => answer_of(bytes),
        None => None,
    }
}

/// The commit that the environment and the event payload name.
pub open spec fn env_commit(vars: EnvPairs, event_json: Option<Seq<char>>) -> Option<Seq<char>> {
    canonical_commit(
        env_value(vars, "GITHUB_EVENT_NAME"@),
        env_value(vars, "GITHUB_SHA"@),
        payload_head(event_json),
    )
}

/// `a`, or `b` when there is no `a`.
pub open spec fn either(a: Option<Seq<char>>, b: Option<Seq<char>>) -> Option<Seq<char>> {
    if a is Some {
        a
    } else {
        b
    }
}

fn as_deref(s: &Option<String>) -> (r: Option<&str>)
    ensures
        opt_str(r) == opt_text(*s),
{
    match s {
        Some(s) => Some(s.as_str()),
        None => None,
    }
}

/// Where the environment says that the event payload lies.
pub fn event_path(vars: &Vec<(String, String)>) -> (r: Option<String>)
    ensures
        opt_text(r) == env_value(pairs(vars@), "GITHUB_EVENT_PATH"@),
{
    lookup(vars, "GITHUB_EVENT_PATH")
}

/// The workspace that the environment names.
pub fn workspace(vars: &Vec<(String, String)>) -> (r: Option<String>)
    ensures
        opt_text(r) == env_value(pairs(vars@), "GITHUB_WORKSPACE"@),
{
    lookup(vars, "GITHUB_WORKSPACE")
}

/// The commit that the environment and the event payload name; when there is none,
/// [`git_head`] is the last resort.
pub fn commit_from_env(vars: &Vec<(String, String)>, event_json: Option<&str>) -> (r: Option<String>)
    ensures
        opt_text(r) == env_commit(pairs(vars@), opt_str(event_json)),
{
    let event_name = lookup(vars, "GITHUB_EVENT_NAME");
    let github_sha = lookup(vars, "GITHUB_SHA");
    resolve_commit(as_deref(&event_name), as_deref(&github_sha), event_json)
}

/// Whether a key is kept out of the allowlist, whoever asks for it: the variables of the
/// pipeline token, the platform's own secrets, and the runner's temporary directory.
pub open spec fn withheld(key: Seq<char>) -> bool {
    ||| holds_token(key)
    ||| key == "GITHUB_TOKEN"@
    ||| begins(key, "ACTIONS_"@)
    ||| key == "RUNNER_TEMP"@
}

fn is_withheld(key: &str) -> (r: bool)
    ensures
        r == withheld(key@),
{
    is_token_variable(key) || same_text(key, "GITHUB_TOKEN") || begins_with(key, "ACTIONS_") || same_text(
        key,
        "RUNNER_TEMP",
    )
}

/// The keys that the adapter allows, of those that were asked for.
pub open spec fn released(keys: Seq<Seq<char>>) -> Set<Seq<char>> {
    keys.to_set().filter(|k: Seq<char>| !withheld(k))
}

/// The keys that the adapter allows, of those that were asked for.
fn release(keys: Vec<String>) -> (a: EnvAllowlist)
    ensures
        a@ == released(texts(keys@)),
{
    let ghost all = texts(keys@);
    let mut r: Vec<String> = Vec::new();
    let mut i: usize = 0;
    while i < keys.len()
        invariant
            i <= keys@.len(),
            all == texts(keys@),
            forall|j: int| 0 <= j < r@.len() ==> all.contains((#[trigger] r@[j])@) && !withheld(r@[j]@),
            forall|j: int| 0 <= j < i && !withheld(#[trigger] all[j]) ==> texts(r@).contains(all[j]),
        decreases keys@.len() - i,
    {
        let ghost before = r@;
        assert(all[i as int] == keys@[i as int]@);
        if !is_withheld(keys[i].as_str()) {
            r.push(keys[i].clone());
            assert(texts(r@)[before.len() as int] == all[i as int]);
        }
        proof {
            assert forall|j: int| 0 <= j < i + 1 && !withheld(#[trigger] all[j]) implies texts(r@).contains(all[j]) by {
                if j < i {
                    let k = choose|k: int| 0 <= k < texts(before).len() && texts(before)[k] == all[j];
                    assert(texts(r@)[k] == all[j]);
                }
            }
        }
        i += 1;
    }
    proof {
        let t = texts(r@);
        assert forall|k: Seq<char>| t.contains(k) <==> all.contains(k) && !withheld(k) by {
            if t.contains(k) {
                let j = choose|j: int| 0 <= j < t.len() && t[j] == k;
                assert(r@[j]@ == k);
            }
        }
        assert(t.to_set() =~= released(all));
    }
    EnvAllowlist::new(r)
}

/// What the adapter finds in an environment.
pub open spec fn github_facts(
    vars: EnvPairs,
    event_json: Option<Seq<char>>,
    head: Option<Seq<char>>,
    type_hint: Option<RunRecordType>,
    deploy_target: Option<Seq<char>>,
    allowlist_keys: Seq<Seq<char>>,
) -> AdapterView {
    AdapterView {
        repo: env_value(vars, "GITHUB_REPOSITORY"@),
        commit: either(env_commit(vars, event_json), head),
        type_hint,
        deploy_target: either(deploy_target, env_value(vars, "GITHUB_ENVIRONMENT"@)),
        allowed: released(allowlist_keys),
        run_id: env_value(vars, "GITHUB_RUN_ID"@),
        run_attempt: env_value(vars, "GITHUB_RUN_ATTEMPT"@),
    }
}

impl GithubAdapter {
    /// Build the adapter from the GitHub Actions environment, the event payload if it
    /// could be read, what came of `git rev-parse HEAD` if it was run, and the
    /// action-supplied `type` hint, deploy target and env allowlist keys, of which some are
    /// always withheld.
    pub fn from_env(
        vars: &Vec<(String, String)>,
        event_json: Option<&str>,
        head: Option<CommandOutput>,
        type_hint: Option<RunRecordType>,
        deploy_target: Option<String>,
        allowlist_keys: Vec<String>,
    ) -> (a: Self)
        ensures
            a.facts() == github_facts(
                pairs(vars@),
                opt_str(event_json),
                head_answer(head),
                type_hint,
                opt_text(deploy_target),
                texts(allowlist_keys@),
            ),
    {
        let commit = match commit_from_env(vars, event_json) {
            Some(commit) => Some(commit),
            None => git_head(head),
        };
        let deploy_target = match deploy_target {
            Some(target) => Some(target),
            None => lookup(vars, "GITHUB_ENVIRONMENT"),
        };
        GithubAdapter {
            repo: lookup(vars, "GITHUB_REPOSITORY"),
            commit,
            type_hint,
            deploy_target,
            run_id: lookup(vars, "GITHUB_RUN_ID"),
            run_attempt: lookup(vars, "GITHUB_RUN_ATTEMPT"),
            env_allowlist: release(allowlist_keys),
        }
    }
}

impl CiAdapter for GithubAdapter {
    open spec fn facts(&self) -> AdapterView {
        AdapterView {
            repo: opt_text(self.repo),
            commit: opt_text(self.commit),
            type_hint: self.type_hint,
            deploy_target: opt_text(self.deploy_target),
            allowed: self.env_allowlist@,
            run_id: opt_text(self.run_id),
            run_attempt: opt_text(self.run_attempt),
        }
    }

    fn repo(&self) -> (r: Option<String>) {
        clone_opt(&self.repo)
    }

    fn commit(&self) -> (r: Option<String>) {
        clone_opt(&self.commit)
    }

    fn type_hint(&self) -> (r: Option<RunRecordType>) {
        self.type_hint
    }

    fn deploy_target(&self) -> (r: Option<String>) {
        clone_opt(&self.deploy_target)
    }

    fn env_allowlist(&self) -> (r: &EnvAllowlist) {
        &self.env_allowlist
    }

    fn run_identity(&self) -> (r: RunIdentity) {
        RunIdentity { run_id: clone_opt(&self.run_id), run_attempt: clone_opt(&self.run_attempt) }
    }
}

/// On a pull request the commit is the head that shipped: whenever the payload has a
/// head SHA, that is the commit, whatever merge commit `GITHUB_SHA` names and whatever
/// `git` has checked out.
pub proof fn a_pull_request_ships_its_head(
    event_name: Option<Seq<char>>,
    merge: Option<Seq<char>>,
    head: Seq<char>,
)
    requires
        on_pull_request(event_name),
        head.len() > 0,
    ensures
        canonical_commit(event_name, merge, Some(head)) == Some(head),
{
}

/// On every other event the payload does not matter: the commit is `GITHUB_SHA`.
pub proof fn other_events_ship_the_named_commit(
    event_name: Option<Seq<char>>,
    sha: Seq<char>,
    head: Option<Seq<char>>,
)
    requires
        !on_pull_request(event_name),
        sha.len() > 0,
    ensures
        canonical_commit(event_name, Some(sha), head) == Some(sha),
{
}

/// What is checked out counts only when neither the payload nor the environment names
/// a commit, and a commit is never empty.
pub proof fn the_checkout_is_the_last_resort(
    vars: EnvPairs,
    event_json: Option<Seq<char>>,
    head: Option<CommandOutput>,
    type_hint: Option<RunRecordType>,
    deploy_target: Option<Seq<char>>,
    allowlist_keys: Seq<Seq<char>>,
)
    ensures
        ({
            let commit = github_facts(
                vars,
                event_json,
                head_answer(head),
                type_hint,
                deploy_target,
                allowlist_keys,
            ).commit;
            &&& env_commit(vars, event_json) is Some ==> commit == env_commit(vars, event_json)
            &&& commit is Some ==> commit->0.len() > 0
        }),
{
}

/// No adapter lets the pipeline token through, nor any other withheld variable, whatever
/// keys it was built with; every other key that was asked for is allowed.
pub proof fn the_adapter_never_lets_the_token_through(
    vars: EnvPairs,
    event_json: Option<Seq<char>>,
    head: Option<Seq<char>>,
    type_hint: Option<RunRecordType>,
    deploy_target: Option<Seq<char>>,
    allowlist_keys: Seq<Seq<char>>,
    environment: EnvPairs,
    key: Seq<char>,
)
    ensures
        ({
            let facts = github_facts(vars, event_json, head, type_hint, deploy_target, allowlist_keys);
            &&& holds_token(key) ==> withheld(key)
            &&& withheld(key) ==> !facts.allowed.contains(key) && !let_through(
                facts.allowed,
                environment,
            ).contains_key(key)
            &&& !withheld(key) ==> (facts.allowed.contains(key) <==> allowlist_keys.contains(key))
        }),
{
    capture_is_fail_closed(released(allowlist_keys), environment, key);
}

/// Every fact comes from the variable of its very name: the repository, the run and its
/// attempt, and the deploy target when the action names none. A variable that is not set
/// leaves its fact unknown; the hint is the one that was given.
pub proof fn facts_come_from_the_variables_of_their_names(
    vars: EnvPairs,
    event_json: Option<Seq<char>>,
    head: Option<Seq<char>>,
    type_hint: Option<RunRecordType>,
    deploy_target: Option<Seq<char>>,
    allowlist_keys: Seq<Seq<char>>,
    value: Seq<char>,
)
    ensures
        ({
            let facts = github_facts(vars, event_json, head, type_hint, deploy_target, allowlist_keys);
            &&& facts.repo == Some(value) <==> is_set(vars, "GITHUB_REPOSITORY"@, value)
            &&& facts.repo is None <==> is_unset(vars, "GITHUB_REPOSITORY"@)
            &&& facts.run_id == Some(value) <==> is_set(vars, "GITHUB_RUN_ID"@, value)
            &&& facts.run_id is None <==> is_unset(vars, "GITHUB_RUN_ID"@)
            &&& facts.run_attempt == Some(value) <==> is_set(vars, "GITHUB_RUN_ATTEMPT"@, value)
            &&& facts.run_attempt is None <==> is_unset(vars, "GITHUB_RUN_ATTEMPT"@)
            &&& deploy_target is Some ==> facts.deploy_target == deploy_target
            &&& deploy_target is None ==> (facts.deploy_target == Some(value) <==> is_set(
                vars,
                "GITHUB_ENVIRONMENT"@,
                value,
            ))
            &&& deploy_target is None ==> (facts.deploy_target is None <==> is_unset(vars, "GITHUB_ENVIRONMENT"@))
            &&& facts.type_hint == type_hint
        }),
{
    a_variable_is_found_by_its_very_name(vars, "GITHUB_REPOSITORY"@);
    a_variable_is_found_by_its_very_name(vars, "GITHUB_RUN_ID"@);
    a_variable_is_found_by_its_very_name(vars, "GITHUB_RUN_ATTEMPT"@);
    a_variable_is_found_by_its_very_name(vars, "GITHUB_ENVIRONMENT"@);
}

/// Whether the event payload names the head of a pull request.
pub open spec fn names_head(event_json: Option<Seq<char>>, sha: Seq<char>) -> bool {
    &&& event_json is Some
    &&& json_string_at(event_json->0, "/pull_request/head/sha"@) == Some(sha)
    &&& sha.len() > 0
}

/// Which commit a run is about: on the two pull-request events the head that the payload
/// names; else what `GITHUB_SHA` names; else what is checked out.
pub proof fn the_commit_is_the_one_that_shipped(
    vars: EnvPairs,
    event_json: Option<Seq<char>>,
    head: Option<Seq<char>>,
    type_hint: Option<RunRecordType>,
    deploy_target: Option<Seq<char>>,
    allowlist_keys: Seq<Seq<char>>,
    sha: Seq<char>,
)
    ensures
        ({
            let commit = github_facts(vars, event_json, head, type_hint, deploy_target, allowlist_keys).commit;
            let pull = is_set(vars, "GITHUB_EVENT_NAME"@, "pull_request"@) || is_set(
                vars,
                "GITHUB_EVENT_NAME"@,
                "pull_request_target"@,
            );
            let headless = !pull || forall|h: Seq<char>| !(#[trigger] names_head(event_json, h));
            let unnamed = forall|v: Seq<char>| #[trigger] is_set(vars, "GITHUB_SHA"@, v) ==> v.len() == 0;
            &&& pull && names_head(event_json, sha) ==> commit == Some(sha)
            &&& headless && is_set(vars, "GITHUB_SHA"@, sha) && sha.len() > 0 ==> commit == Some(sha)
            &&& headless && unnamed ==> commit == head
        }),
{
    a_variable_is_found_by_its_very_name(vars, "GITHUB_EVENT_NAME"@);
    a_variable_is_found_by_its_very_name(vars, "GITHUB_SHA"@);
    let event = env_value(vars, "GITHUB_EVENT_NAME"@);
    assert(on_pull_request(event) <==> is_set(vars, "GITHUB_EVENT_NAME"@, "pull_request"@) || is_set(
        vars,
        "GITHUB_EVENT_NAME"@,
        "pull_request_target"@,
    ));
    let payload = payload_head(event_json);
    if payload is Some && payload->0.len() > 0 {
        assert(names_head(event_json, payload->0));
    }
    let named = env_value(vars, "GITHUB_SHA"@);
    if named is Some {
        assert(is_set(vars, "GITHUB_SHA"@, named->0));
    }
}

/// A key is allowed exactly when it was asked for and is not one of the few that are never
/// released: the two token variables, `GITHUB_TOKEN`, `RUNNER_TEMP`, and whatever begins with
/// `ACTIONS_`.
pub proof fn a_key_is_allowed_when_asked_for(
    vars: EnvPairs,
    event_json: Option<Seq<char>>,
    head: Option<Seq<char>>,
    type_hint: Option<RunRecordType>,
    deploy_target: Option<Seq<char>>,
    allowlist_keys: Seq<Seq<char>>,
    key: Seq<char>,
)
    ensures
        github_facts(vars, event_json, head, type_hint, deploy_target, allowlist_keys).allowed.contains(key) <==> {
            &&& allowlist_keys.contains(key)
            &&& key != "INPUT_PIPELINE_TOKEN"@
            &&& key != "IDORA_PIPELINE_TOKEN"@
            &&& key != "GITHUB_TOKEN"@
            &&& key != "RUNNER_TEMP"@
            &&& !(exists|rest: Seq<char>| key == #[trigger] ("ACTIONS_"@ + rest))
        },
{
    let p = "ACTIONS_"@;
    if begins(key, p) {
        assert(key =~= p + key.skip(p.len() as int));
    }
    if exists|rest: Seq<char>| key == #[trigger] (p + rest) {
        let rest = choose|rest: Seq<char>| key == #[trigger] (p + rest);
        assert(key.take(p.len() as int) =~= p);
    }
}

/// The checked-out commit is asked of `git` in the workspace when that is known; what counts
/// is what a successful `git` wrote.
pub proof fn the_checkout_is_asked_in_the_workspace(workspace: Seq<char>, out: CommandOutput)
    ensures
        head_args(Some(workspace)) == seq!["-C"@, workspace, "rev-parse"@, "HEAD"@],
        head_args(None) == seq!["rev-parse"@, "HEAD"@],
        head_answer(None) is None,
        !out.success ==> head_answer(Some(out)) is None,
        out.success ==> head_answer(Some(out)) == answer(out.stdout@),
{
}

} // verus!
