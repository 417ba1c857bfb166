use ci_tracer::adapter::github::{
    choose_commit, commit_from_env, event_path, git_head, git_head_args, resolve_commit, workspace, GithubAdapter,
};
use ci_tracer::adapter::{CiAdapter, EnvAllowlist};
use ci_tracer::command::CommandOutput;
use ci_tracer::runrecord::RunRecordType;

const MERGE: &str = "1111111111111111111111111111111111111111";
const HEAD: &str = "2222222222222222222222222222222222222222";

fn vars(pairs: &[(&str, &str)]) -> Vec<(String, String)> {
    pairs.iter().map(|(k, v)| (k.to_string(), v.to_string())).collect()
}

fn answered(text: &str) -> Option<CommandOutput> {
    Some(CommandOutput { success: true, stdout: text.as_bytes().to_vec() })
}

#[test]
fn push_uses_github_sha() {
    assert_eq!(resolve_commit(Some("push"), Some(MERGE), None).as_deref(), Some(MERGE));
}

#[test]
fn pull_request_uses_head_sha_not_merge() {
    let json = format!(r#"{{"pull_request":{{"head":{{"sha":"{HEAD}"}}}}}}"#);
    assert_eq!(resolve_commit(Some("pull_request"), Some(MERGE), Some(&json)).as_deref(), Some(HEAD));
}

#[test]
fn pull_request_target_uses_head_sha() {
    let json = format!(r#"{{"pull_request":{{"head":{{"sha":"{HEAD}"}}}}}}"#);
    assert_eq!(resolve_commit(Some("pull_request_target"), Some(MERGE), Some(&json)).as_deref(), Some(HEAD));
}

#[test]
fn pull_request_without_payload_falls_back_to_github_sha() {
    assert_eq!(resolve_commit(Some("pull_request"), Some(MERGE), None).as_deref(), Some(MERGE));
}

#[test]
fn merge_group_uses_github_sha() {
    assert_eq!(resolve_commit(Some("merge_group"), Some(HEAD), None).as_deref(), Some(HEAD));
}

#[test]
fn unusable_payloads_fall_back_to_github_sha() {
    for json in [
        "not json",
        "{}",
        r#"{"pull_request":{"head":{"sha":7}}}"#,
        r#"{"pull_request":{"head":{"sha":""}}}"#,
        r#"{"pull_request":["head"]}"#,
        r#"[{"pull_request":{"head":{"sha":"x"}}}]"#,
    ] {
        assert_eq!(resolve_commit(Some("pull_request"), Some(MERGE), Some(json)).as_deref(), Some(MERGE), "{json}");
    }
}

#[test]
fn the_payload_matters_on_pull_requests_only() {
    let json = format!(r#"{{"pull_request":{{"head":{{"sha":"{HEAD}"}}}}}}"#);
    assert_eq!(resolve_commit(Some("push"), Some(MERGE), Some(&json)).as_deref(), Some(MERGE));
    assert_eq!(resolve_commit(None, Some(MERGE), Some(&json)).as_deref(), Some(MERGE));
}

#[test]
fn an_empty_commit_is_none() {
    assert_eq!(resolve_commit(Some("push"), Some(""), None), None);
    assert_eq!(resolve_commit(None, None, None), None);
    assert_eq!(choose_commit(Some("pull_request"), None, Some(String::new())), None);
    assert_eq!(choose_commit(Some("pull_request"), None, Some(HEAD.to_string())).as_deref(), Some(HEAD));
}

#[test]
fn the_checkout_is_asked_in_the_workspace() {
    assert_eq!(git_head_args(Some("/w")), vec!["-C", "/w", "rev-parse", "HEAD"]);
    assert_eq!(git_head_args(None), vec!["rev-parse", "HEAD"]);
}

#[test]
fn the_checkout_answer_is_trimmed_and_strict() {
    assert_eq!(git_head(answered("abc\n")).as_deref(), Some("abc"));
    assert_eq!(git_head(answered(" \n")), None);
    assert_eq!(git_head(None), None);
    assert_eq!(git_head(Some(CommandOutput { success: false, stdout: b"abc".to_vec() })), None);
    assert_eq!(git_head(Some(CommandOutput { success: true, stdout: vec![0xff, 0x61] })), None);
    assert_eq!(git_head(answered("h\u{e9}ad\n")).as_deref(), Some("h\u{e9}ad"));
}

#[test]
fn the_adapter_reads_the_environment() {
    let v = vars(&[
        ("GITHUB_REPOSITORY", "owner/name"),
        ("GITHUB_EVENT_NAME", "push"),
        ("GITHUB_SHA", MERGE),
        ("GITHUB_RUN_ID", "42"),
        ("GITHUB_RUN_ATTEMPT", "2"),
        ("GITHUB_ENVIRONMENT", "staging"),
        ("GITHUB_EVENT_PATH", "/e.json"),
        ("GITHUB_WORKSPACE", "/w"),
    ]);
    assert_eq!(event_path(&v).as_deref(), Some("/e.json"));
    assert_eq!(workspace(&v).as_deref(), Some("/w"));
    assert_eq!(commit_from_env(&v, None).as_deref(), Some(MERGE));
    let a = GithubAdapter::from_env(&v, None, answered(HEAD), Some(RunRecordType::Test), None, vec!["CI".to_string()]);
    assert_eq!(a.repo().as_deref(), Some("owner/name"));
    assert_eq!(a.commit().as_deref(), Some(MERGE));
    assert_eq!(a.type_hint(), Some(RunRecordType::Test));
    assert_eq!(a.deploy_target().as_deref(), Some("staging"));
    assert_eq!(a.run_identity().run_id.as_deref(), Some("42"));
    assert_eq!(a.run_identity().run_attempt.as_deref(), Some("2"));
    assert!(a.env_allowlist().capture(&vars(&[("CI", "1")])).is_some());
    let b = GithubAdapter::from_env(&v, None, None, None, Some("prod".to_string()), vec![]);
    assert_eq!(b.deploy_target().as_deref(), Some("prod"));
}

#[test]
fn the_checkout_is_used_when_nothing_names_a_commit() {
    let a = GithubAdapter::from_env(&vars(&[]), None, answered(HEAD), None, None, vec![]);
    assert_eq!(a.commit().as_deref(), Some(HEAD));
    assert_eq!(a.repo(), None);
    let b = GithubAdapter::from_env(&vars(&[]), None, None, None, None, vec![]);
    assert_eq!(b.commit(), None);
}

#[test]
fn empty_allowlist_captures_nothing() {
    let al = EnvAllowlist::default();
    assert!(al.capture(&vec![("FOO".to_string(), "bar".to_string())]).is_none());
}

#[test]
fn allowlist_is_fail_closed() {
    let al = EnvAllowlist::new(vec!["NODE_ENV".to_string()]);
    let captured = al
        .capture(&vec![
            ("NODE_ENV".to_string(), "production".to_string()),
            ("SECRET_TOKEN".to_string(), "leak".to_string()),
        ])
        .unwrap();
    assert_eq!(captured.len(), 1);
    assert_eq!(captured.get("NODE_ENV").unwrap(), "production");
    assert!(captured.get("SECRET_TOKEN").is_none());
}

#[test]
fn the_last_of_equal_captured_variables_counts() {
    let al = EnvAllowlist::new(vec!["A".to_string(), "B".to_string()]);
    let captured = al.capture(&vars(&[("A", "1"), ("B", "2"), ("A", "3")])).unwrap();
    assert_eq!(captured.len(), 2);
    assert_eq!(captured.get("A").unwrap(), "3");
    assert_eq!(captured.get("B").unwrap(), "2");
}

#[test]
fn an_allowlist_without_a_match_captures_nothing() {
    let al = EnvAllowlist::new(vec!["A".to_string()]);
    assert!(al.capture(&vars(&[("a", "1"), ("AB", "2")])).is_none());
    assert!(al.capture(&vars(&[])).is_none());
}

#[test]
fn the_adapter_withholds_the_token_and_the_platforms_secrets() {
    let keys = ["INPUT_PIPELINE_TOKEN", "IDORA_PIPELINE_TOKEN", "GITHUB_TOKEN", "ACTIONS_RUNTIME_TOKEN", "ACTIONS_", "RUNNER_TEMP"];
    let env: Vec<(String, String)> = keys.iter().map(|k| (k.to_string(), "tok".to_string())).collect();
    let names: Vec<String> = keys.iter().map(|k| k.to_string()).collect();
    let a = GithubAdapter::from_env(&vars(&[]), None, None, None, None, names.clone());
    assert!(a.env_allowlist().capture(&env).is_none());
    let mut more = names;
    more.extend(["NODE_ENV".to_string(), "MY_ACTIONS_".to_string()]);
    let b = GithubAdapter::from_env(&vars(&[]), None, None, None, None, more);
    let mut env = env;
    env.extend(vars(&[("NODE_ENV", "production"), ("MY_ACTIONS_", "1"), ("OTHER", "2")]));
    let captured = b.env_allowlist().capture(&env).unwrap();
    assert_eq!(captured.len(), 2);
    assert_eq!(captured.get("NODE_ENV").unwrap(), "production");
    assert_eq!(captured.get("MY_ACTIONS_").unwrap(), "1");
}
