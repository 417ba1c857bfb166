use ci_tracer::config::{flag, input, parse_csv, parse_type, parse_whitelist, Config};
use ci_tracer::runrecord::RunRecordType;

fn vars(pairs: &[(&str, &str)]) -> Vec<(String, String)> {
    pairs.iter().map(|(k, v)| (k.to_string(), v.to_string())).collect()
}

#[test]
fn parses_tagged_and_untagged_entries() {
    let wl = parse_whitelist("npm run build=>build, npm run test => test, make deploy");
    assert_eq!(wl.len(), 3);
    assert_eq!(wl[0].pattern, "npm run build");
    assert_eq!(wl[0].type_tag, Some(RunRecordType::Build));
    assert_eq!(wl[1].pattern, "npm run test");
    assert_eq!(wl[1].type_tag, Some(RunRecordType::Test));
    assert_eq!(wl[2].pattern, "make deploy");
    assert_eq!(wl[2].type_tag, None);
}

#[test]
fn csv_trims_and_drops_empties() {
    assert_eq!(parse_csv("A, B ,,C,"), vec!["A", "B", "C"]);
}

#[test]
fn type_parsing_is_case_insensitive() {
    assert_eq!(parse_type("Deploy"), Some(RunRecordType::Deploy));
    assert_eq!(parse_type("nope"), None);
}

#[test]
fn types_are_trimmed_before_they_are_compared() {
    assert_eq!(parse_type("  BUILD\t"), Some(RunRecordType::Build));
    assert_eq!(parse_type("\u{a0}test\u{3000}"), Some(RunRecordType::Test));
    assert_eq!(parse_type(""), None);
    assert_eq!(parse_type("build test"), None);
}

#[test]
fn only_the_first_arrow_separates() {
    let wl = parse_whitelist("a=>b=>build,=>test,x =>");
    assert_eq!(wl.len(), 3);
    assert_eq!(wl[0].pattern, "a");
    assert_eq!(wl[0].type_tag, None);
    assert_eq!(wl[1].pattern, "");
    assert_eq!(wl[1].type_tag, Some(RunRecordType::Test));
    assert_eq!(wl[2].pattern, "x");
    assert_eq!(wl[2].type_tag, None);
}

#[test]
fn list_items_hold_no_separator_and_no_outer_space() {
    assert!(parse_csv("").is_empty());
    assert!(parse_csv(" , ,\t,").is_empty());
    assert_eq!(parse_csv("a b , c"), vec!["a b", "c"]);
    for item in parse_csv(" x ,y,, z\n,") {
        assert!(!item.is_empty() && !item.contains(',') && item.trim() == item);
    }
}

#[test]
fn an_empty_environment_gives_the_default_posture() {
    let c = Config::from_env(&vars(&[]));
    assert_eq!(c.pipeline_url, None);
    assert_eq!(c.token, None);
    assert_eq!(c.type_hint, None);
    assert_eq!(c.deploy_target, None);
    assert!(c.env_allowlist.is_empty());
    assert!(!c.hard_fail);
    assert_eq!(c.state_dir, "/tmp");
    assert_eq!(c.whitelist.len(), 2);
    assert_eq!(c.whitelist[0].pattern, "npm run build");
    assert_eq!(c.whitelist[0].type_tag, Some(RunRecordType::Build));
    assert_eq!(c.whitelist[1].pattern, "npm run test");
    assert_eq!(c.whitelist[1].type_tag, Some(RunRecordType::Test));
}

#[test]
fn inputs_are_trimmed_and_win_over_fallbacks() {
    let c = Config::from_env(&vars(&[
        ("INPUT_PIPELINE_URL", " https://pipe.example "),
        ("IDORA_PIPELINE_URL", "https://other.example"),
        ("INPUT_PIPELINE_TOKEN", "  "),
        ("IDORA_PIPELINE_TOKEN", "tok"),
        ("INPUT_WHITELIST", "make=>deploy"),
        ("INPUT_TYPE", "Test"),
        ("INPUT_DEPLOY_TARGET", "prod"),
        ("INPUT_ENV_ALLOWLIST", "NODE_ENV, CI"),
        ("INPUT_HARD_FAIL", "Yes"),
        ("RUNNER_TEMP", "/run/temp"),
    ]));
    assert_eq!(c.pipeline_url.as_deref(), Some("https://pipe.example"));
    assert_eq!(c.token.as_deref(), Some("tok"));
    assert_eq!(c.whitelist.len(), 1);
    assert_eq!(c.whitelist[0].type_tag, Some(RunRecordType::Deploy));
    assert_eq!(c.type_hint, Some(RunRecordType::Test));
    assert_eq!(c.deploy_target.as_deref(), Some("prod"));
    assert_eq!(c.env_allowlist, vec!["NODE_ENV", "CI"]);
    assert!(c.hard_fail);
    assert_eq!(c.state_dir, "/run/temp");
}

#[test]
fn flags_accept_three_spellings() {
    for (value, on) in [("true", true), ("TRUE", true), ("1", true), ("yes", true), ("no", false), ("on", false), ("", false)] {
        assert_eq!(flag(&vars(&[("INPUT_HARD_FAIL", value)]), "HARD_FAIL"), on, "{value:?}");
    }
    assert!(!flag(&vars(&[]), "HARD_FAIL"));
}

#[test]
fn the_first_of_equal_variables_counts() {
    let v = vars(&[("INPUT_X", "one"), ("INPUT_X", "two")]);
    assert_eq!(input(&v, "X").as_deref(), Some("one"));
    assert_eq!(input(&v, "Y"), None);
}

#[test]
fn an_empty_state_directory_counts_as_none() {
    assert_eq!(Config::from_env(&vars(&[("RUNNER_TEMP", "")])).state_dir, "/tmp");
}

#[test]
fn the_token_is_never_on_the_allowlist() {
    let c = Config::from_env(&vars(&[(
        "INPUT_ENV_ALLOWLIST",
        "INPUT_PIPELINE_TOKEN, NODE_ENV,IDORA_PIPELINE_TOKEN,MY_PIPELINE_TOKEN",
    )]));
    assert_eq!(c.env_allowlist, vec!["NODE_ENV", "MY_PIPELINE_TOKEN"]);
}

#[test]
fn lists_types_and_entries_read_back_as_written() {
    let items = vec!["npm run build", "a=b", "x y"];
    assert_eq!(parse_csv(&items.join(",")), items);
    for t in [RunRecordType::Build, RunRecordType::Test, RunRecordType::Deploy] {
        assert_eq!(parse_type(t.as_str()), Some(t));
        for command in ["make all", "a=", ">x", "="] {
            let wl = parse_whitelist(&format!("{command}=>{}", t.as_str()));
            assert_eq!((wl.len(), wl[0].pattern.as_str(), wl[0].type_tag), (1, command, Some(t)));
        }
    }
}
