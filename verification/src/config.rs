//! Agent configuration, sourced from the environment that the Action sets up.
//!
//! Action inputs arrive as `INPUT_*` variables; CI context arrives as the platform's
//! own variables, read by the adapter.

use vstd::prelude::*;

use crate::adapter::{capture_is_fail_closed, holds_token, is_token_variable, let_through};
use crate::env::{a_variable_is_found_by_its_very_name, env_value, is_set, is_unset, lookup, pairs};
use crate::observe::{entries, EntryView, WhitelistEntry};
use crate::runrecord::RunRecordType;
use crate::text::{
    chars_of, find_chars, holds, lemma_split_apart, lemma_split_none, lemma_split_on, lemma_split_push, lemma_trimmed, lower_text,
    lowered, occurs_at, opt_text,
    same_text, split_on, split_ranges, text_slice, texts, trim_chars, trim_text, trimmed, white,
};

verus! {

/// What the agent was asked to do.
#[derive(Clone, Debug)]
pub struct Config {
    /// Pipeline base URL.
    pub pipeline_url: Option<String>,
    /// Bearer token for the pipeline; in memory only, never logged.
    pub token: Option<String>,
    /// Commands that root an operation, with optional `type` tags.
    pub whitelist: Vec<WhitelistEntry>,
    /// Job-level operation `type` hint.
    pub type_hint: Option<RunRecordType>,
    /// Deploy destination, if this job deploys.
    pub deploy_target: Option<String>,
    /// Environment keys that the core may capture; never those that hold the token.
    pub env_allowlist: Vec<String>,
    /// Whether the build is failed when eBPF is unavailable (opt-in).
    pub hard_fail: bool,
    /// Writable per-job state directory for buffering and signals.
    pub state_dir: String,
}

/// What a [`Config`] says.
pub struct ConfigView {
    pub pipeline_url: Option<Seq<char>>,
    pub token: Option<Seq<char>>,
    pub whitelist: Seq<EntryView>,
    pub type_hint: Option<RunRecordType>,
    pub deploy_target: Option<Seq<char>>,
    pub env_allowlist: Seq<Seq<char>>,
    pub hard_fail: bool,
    pub state_dir: Seq<char>,
}

impl View for Config {
    type V = ConfigView;

    open spec fn view(&self) -> ConfigView {
        ConfigView {
            pipeline_url: opt_text(self.pipeline_url),
            token: opt_text(self.token),
            whitelist: entries(self.whitelist@),
            type_hint: self.type_hint,
            deploy_target: opt_text(self.deploy_target),
            env_allowlist: texts(self.env_allowlist@),
            hard_fail: self.hard_fail,
            state_dir: self.state_dir@,
        }
    }
}

// ---------------------------------------------------------------------------
// Parsers
// ---------------------------------------------------------------------------

/// The `type` that a text names, whatever its case and surrounding white space.
pub open spec fn type_named(s: Seq<char>) -> Option<RunRecordType> {
    let t = lowered(trimmed(s));
    if t == "build"@ {
        Some(RunRecordType::Build)
    } else if t == "test"@ {
        Some(RunRecordType::Test)
    } else if t == "deploy"@ {
        Some(RunRecordType::Deploy)
    } else {
        None
    }
}

/// Parse a `type` into the execution variant.
pub fn parse_type(s: &str) -> (r: Option<RunRecordType>)
    ensures
        r == type_named(s@),
{
    let t = trim_text(s);
    let t = lower_text(t.as_str());
    if same_text(t.as_str(), "build") {
        Some(RunRecordType::Build)
    } else if same_text(t.as_str(), "test") {
        Some(RunRecordType::Test)
    } else if same_text(t.as_str(), "deploy") {
        Some(RunRecordType::Deploy)
    } else {
        None
    }
}

/// The pieces, trimmed, without those of which nothing is left.
pub open spec fn kept(pieces: Seq<Seq<char>>) -> Seq<Seq<char>>
    decreases pieces.len(),
{
    if pieces.len() == 0 {
        Seq::empty()
    } else {
        let before = kept(pieces.drop_last());
        let last = trimmed(pieces.last());
        if last.len() > 0 {
            before.push(last)
        } else {
            before
        }
    }
}

/// The items of a comma-separated list.
pub open spec fn csv_items(s: Seq<char>) -> Seq<Seq<char>> {
    kept(split_on(s, ','))
}

/// Parse a comma-separated list, trimming and dropping empties.
pub fn parse_csv(s: &str) -> (r: Vec<String>)
    ensures
        texts(r@) == csv_items(s@),
{
    let v = chars_of(s);
    let (starts, ends) = split_ranges(&v, ',');
    let ghost pieces = split_on(s@, ',');
    let mut r: Vec<String> = Vec::new();
    let mut i: usize = 0;
    proof {
        assert(pieces.take(0) =~= Seq::<Seq<char>>::empty());
        assert(texts(r@) =~= Seq::<Seq<char>>::empty());
    }
    while i < starts.len()
        invariant
            i <= starts@.len(),
            starts@.len() == ends@.len(),
            starts@.len() == pieces.len(),
            pieces == split_on(v@, ','),
            forall|k: int|
                0 <= k < starts@.len() ==> {
                    &&& (#[trigger] starts@[k]) <= ends@[k] <= v@.len()
                    &&& v@.subrange(starts@[k] as int, ends@[k] as int) == pieces[k]
                },
            texts(r@) == kept(pieces.take(i as int)),
        decreases starts@.len() - i,
    {
        let item = trim_chars(&v, starts[i], ends[i]);
        proof {
            assert(pieces.take(i + 1).drop_last() =~= pieces.take(i as int));
            assert(pieces.take(i + 1).last() == pieces[i as int]);
        }
        if !item.as_str().is_empty() {
            let ghost before = r@;
            r.push(item);
            assert(texts(r@) =~= texts(before).push(item@));
        }
        i += 1;
    }
    assert(pieces.take(i as int) =~= pieces);
    r
}

/// Where `p` first occurs in `s`.
pub open spec fn first_at(s: Seq<char>, p: Seq<char>) -> int {
    choose|at: int| occurs_at(s, p, at) && forall|k: int| 0 <= k < at ==> !occurs_at(s, p, k)
}

/// The whitelist entry that an item stands for: `command` or `command=>type`.
pub open spec fn entry_for(item: Seq<char>) -> EntryView {
    if holds(item, "=>"@) {
        let at = first_at(item, "=>"@);
        EntryView { pattern: trimmed(item.take(at)), type_tag: type_named(item.skip(at + 2)) }
    } else {
        EntryView { pattern: item, type_tag: None }
    }
}

fn parse_entry(item: &str) -> (e: WhitelistEntry)
    ensures
        e@ == entry_for(item@),
{
    let v = chars_of(item);
    let arrow = chars_of("=>");
    proof {
        reveal_strlit("=>");
    }
    match find_chars(&v, &arrow) {
        None => WhitelistEntry::new(item, None),
        Some(at) => {
            let n = v.len();
            let command = trim_chars(&v, 0, at);
            let tag = text_slice(&v, at + 2, n);
            proof {
                lemma_first_at(item@, "=>"@, at as int);
                assert(v@.subrange(0, at as int) =~= item@.take(at as int));
                assert(v@.subrange(at + 2, n as int) =~= item@.skip(at + 2));
            }
            WhitelistEntry::new(command.as_str(), parse_type(tag.as_str()))
        },
    }
}

/// The entries of a whitelist specification.
pub open spec fn whitelist_entries(s: Seq<char>) -> Seq<EntryView> {
    csv_items(s).map_values(|item: Seq<char>| entry_for(item))
}

/// Parse a whitelist specification: comma-separated entries, each `command` or
/// `command=>type` (e.g. `npm run build=>build,npm run test=>test`).
pub fn parse_whitelist(s: &str) -> (r: Vec<WhitelistEntry>)
    ensures
        entries(r@) == whitelist_entries(s@),
{
    let items = parse_csv(s);
    let ghost all = whitelist_entries(s@);
    let mut r: Vec<WhitelistEntry> = Vec::new();
    let mut i: usize = 0;
    while i < items.len()
        invariant
            i <= items@.len(),
            texts(items@) == csv_items(s@),
            all == whitelist_entries(s@),
            r@.len() == i,
            forall|k: int| 0 <= k < i ==> (#[trigger] r@[k])@ == all[k],
        decreases items@.len() - i,
    {
        assert(csv_items(s@)[i as int] == items@[i as int]@);
        r.push(parse_entry(items[i].as_str()));
        i += 1;
    }
    assert(entries(r@) =~= all);
    r
}

// ---------------------------------------------------------------------------
// The environment
// ---------------------------------------------------------------------------

/// The whitelist of a job that names none.
pub const DEFAULT_WHITELIST: &'static str = "npm run build=>build,npm run test=>test";

/// The value of an action input, trimmed, unless nothing is left.
pub open spec fn input_value(vars: Seq<(Seq<char>, Seq<char>)>, name: Seq<char>) -> Option<Seq<char>> {
    match env_value(vars, "INPUT_"@ + name) {
        Some(v) => if trimmed(v).len() > 0 {
            Some(trimmed(v))
        } else {
            None
        },
        None => None,
    }
}

/// The value of an action input, trimmed, unless nothing is left.
pub fn input(vars: &Vec<(String, String)>, name: &str) -> (r: Option<String>)
    ensures
        opt_text(r) == input_value(pairs(vars@), name@),
{
    let mut key = String::from_str("INPUT_");
    key.append(name);
    match lookup(vars, key.as_str()) {
        None => None,
        Some(v) => {
            let t = trim_text(v.as_str());
            if t.as_str().is_empty() {
                None
            } else {
                Some(t)
            }
        },
    }
}

/// The value of an action input, or else of a fallback variable.
pub open spec fn input_or(
    vars: Seq<(Seq<char>, Seq<char>)>,
    name: Seq<char>,
    fallback: Seq<char>,
) -> Option<Seq<char>> {
    match input_value(vars, name) {
        Some(v) => Some(v),
        None => env_value(vars, fallback),
    }
}

fn input_or_env(vars: &Vec<(String, String)>, name: &str, fallback: &str) -> (r: Option<String>)
    ensures
        opt_text(r) == input_or(pairs(vars@), name@, fallback@),
{
    match input(vars, name) {
        Some(v) => Some(v),
        None => lookup(vars, fallback),
    }
}

/// Whether an input switches something on.
pub open spec fn switched_on(v: Option<Seq<char>>) -> bool {
    match v {
        Some(s) => lowered(s) == "true"@ || lowered(s) == "1"@ || lowered(s) == "yes"@,
        None => false,
    }
}

/// Whether an action input switches something on: `true`, `1` or `yes`, in any case.
pub fn flag(vars: &Vec<(String, String)>, name: &str) -> (r: bool)
    ensures
        r == switched_on(input_value(pairs(vars@), name@)),
{
    match input(vars, name) {
        Some(v) => {
            let t = lower_text(v.as_str());
            same_text(t.as_str(), "true") || same_text(t.as_str(), "1") || same_text(t.as_str(), "yes")
        },
        None => false,
    }
}

/// The keys that may be captured: the token's variables are never among them.
pub open spec fn capturable(keys: Seq<Seq<char>>) -> Seq<Seq<char>>
    decreases keys.len(),
{
    if keys.len() == 0 {
        Seq::empty()
    } else if holds_token(keys.last()) {
        capturable(keys.drop_last())
    } else {
        capturable(keys.drop_last()).push(keys.last())
    }
}

/// Parse the keys that may be captured: a comma-separated list, without the variables that
/// hold the pipeline token.
pub fn parse_allowlist(s: &str) -> (r: Vec<String>)
    ensures
        texts(r@) == capturable(csv_items(s@)),
{
    let keys = parse_csv(s);
    let ghost all = csv_items(s@);
    let mut r: Vec<String> = Vec::new();
    let mut i: usize = 0;
    proof {
        assert(all.take(0) =~= Seq::<Seq<char>>::empty());
        assert(texts(r@) =~= Seq::<Seq<char>>::empty());
    }
    while i < keys.len()
        invariant
            i <= keys@.len(),
            all == texts(keys@),
            texts(r@) == capturable(all.take(i as int)),
        decreases keys@.len() - i,
    {
        proof {
            assert(all.take(i + 1).drop_last() =~= all.take(i as int));
            assert(all.take(i + 1).last() == keys@[i as int]@);
        }
        let key = keys[i].as_str();
        if !is_token_variable(key) {
            let ghost before = r@;
            r.push(key.to_owned());
            assert(texts(r@) =~= texts(before).push(key@));
        }
        i += 1;
    }
    assert(all.take(i as int) =~= all);
    r
}

/// What an environment configures.
pub open spec fn configured(vars: Seq<(Seq<char>, Seq<char>)>) -> ConfigView {
    ConfigView {
        pipeline_url: input_or(vars, "PIPELINE_URL"@, "IDORA_PIPELINE_URL"@),
        token: input_or(vars, "PIPELINE_TOKEN"@, "IDORA_PIPELINE_TOKEN"@),
        whitelist: whitelist_entries(
            match input_value(vars, "WHITELIST"@) {
                Some(s) => s,
                None => DEFAULT_WHITELIST@,
            },
        ),
        type_hint: match input_value(vars, "TYPE"@) {
            Some(s) => type_named(s),
            None => None,
        },
        deploy_target: input_value(vars, "DEPLOY_TARGET"@),
        env_allowlist: match input_value(vars, "ENV_ALLOWLIST"@) {
            Some(s) => capturable(csv_items(s)),
            None => Seq::empty(),
        },
        hard_fail: switched_on(input_value(vars, "HARD_FAIL"@)),
        state_dir: match env_value(vars, "RUNNER_TEMP"@) {
            Some(dir) => if dir.len() > 0 {
                dir
            } else {
                "/tmp"@
            },
            None => "/tmp"@,
        },
    }
}

impl Config {
    /// The configuration that these environment variables make.
    pub fn from_env(vars: &Vec<(String, String)>) -> (c: Self)
        ensures
            c@ == configured(pairs(vars@)),
    {
        let whitelist = match input(vars, "WHITELIST") {
            Some(s) => parse_whitelist(s.as_str()),
            None => parse_whitelist(DEFAULT_WHITELIST),
        };
        let type_hint = match input(vars, "TYPE") {
            Some(s) => parse_type(s.as_str()),
            None => None,
        };
        let env_allowlist = match input(vars, "ENV_ALLOWLIST") {
            Some(s) => parse_allowlist(s.as_str()),
            None => Vec::new(),
        };
        let state_dir = match lookup(vars, "RUNNER_TEMP") {
            Some(dir) => if dir.as_str().is_empty() {
                "/tmp".to_owned()
            } else {
                dir
            },
            None => "/tmp".to_owned(),
        };
        let c = Config {
            pipeline_url: input_or_env(vars, "PIPELINE_URL", "IDORA_PIPELINE_URL"),
            token: input_or_env(vars, "PIPELINE_TOKEN", "IDORA_PIPELINE_TOKEN"),
            whitelist,
            type_hint,
            deploy_target: input(vars, "DEPLOY_TARGET"),
            env_allowlist,
            hard_fail: flag(vars, "HARD_FAIL"),
            state_dir,
        };
        proof {
            assert(texts(Seq::<String>::empty()) =~= Seq::<Seq<char>>::empty());
        }
        c
    }
}

// ---------------------------------------------------------------------------
// What holds of every configuration
// ---------------------------------------------------------------------------

proof fn lemma_kept(pieces: Seq<Seq<char>>, item: Seq<char>)
    requires
        kept(pieces).contains(item),
    ensures
        item.len() > 0,
        trimmed(item) == item,
        exists|i: int| 0 <= i < pieces.len() && trimmed(#[trigger] pieces[i]) == item,
    decreases pieces.len(),
{
    if pieces.len() > 0 {
        let before = pieces.drop_last();
        let n = pieces.len() - 1;
        let k = choose|k: int| 0 <= k < kept(pieces).len() && kept(pieces)[k] == item;
        if kept(before).contains(item) {
            lemma_kept(before, item);
            let i = choose|i: int| 0 <= i < before.len() && trimmed(#[trigger] before[i]) == item;
            assert(trimmed(pieces[i]) == item);
        } else {
            if k < kept(before).len() {
                assert(kept(before)[k] == item);
            }
            assert(trimmed(pieces[n]) == item);
            lemma_trimmed(pieces[n]);
        }
    }
}

/// Every item of a comma-separated list is non-empty, has no white space at either
/// end, and holds no comma.
pub proof fn list_items_are_clean(s: Seq<char>, item: Seq<char>)
    requires
        csv_items(s).contains(item),
    ensures
        item.len() > 0,
        trimmed(item) == item,
        !item.contains(','),
{
    let pieces = split_on(s, ',');
    lemma_kept(pieces, item);
    let i = choose|i: int| 0 <= i < pieces.len() && trimmed(#[trigger] pieces[i]) == item;
    lemma_split_on(s, ',');
    lemma_trimmed(pieces[i]);
}

/// Items written one after the other, with commas between them.
pub open spec fn comma_joined(items: Seq<Seq<char>>) -> Seq<char>
    decreases items.len(),
{
    if items.len() == 0 {
        Seq::empty()
    } else if items.len() == 1 {
        items[0]
    } else {
        comma_joined(items.drop_last()).push(',') + items.last()
    }
}

/// Whether an item can stand in a list: non-empty, without white space at either end, and
/// without a comma.
pub open spec fn clean(item: Seq<char>) -> bool {
    item.len() > 0 && trimmed(item) == item && !item.contains(',')
}

/// A list of clean items reads back as it was written.
pub proof fn a_list_reads_back(items: Seq<Seq<char>>)
    requires
        forall|i: int| 0 <= i < items.len() ==> clean(#[trigger] items[i]),
    ensures
        csv_items(comma_joined(items)) == items,
{
    let s = comma_joined(items);
    if items.len() == 0 {
        assert(split_on(s, ',') =~= seq![Seq::<char>::empty()]);
        let one = seq![Seq::<char>::empty()];
        assert(one.drop_last() =~= Seq::<Seq<char>>::empty());
        assert(kept(one.drop_last()) =~= Seq::<Seq<char>>::empty());
        assert(trimmed(Seq::<char>::empty()) =~= Seq::<char>::empty());
        assert(kept(one) =~= items);
    } else {
        lemma_pieces(items);
        lemma_kept_clean(items);
    }
}

proof fn lemma_pieces(items: Seq<Seq<char>>)
    requires
        items.len() > 0,
        forall|i: int| 0 <= i < items.len() ==> clean(#[trigger] items[i]),
    ensures
        split_on(comma_joined(items), ',') == items,
    decreases items.len(),
{
    if items.len() == 1 {
        lemma_split_none(items[0], ',');
        assert(seq![items[0]] =~= items);
    } else {
        let before = items.drop_last();
        assert forall|i: int| 0 <= i < before.len() implies clean(#[trigger] before[i]) by {
            assert(before[i] == items[i]);
        }
        lemma_pieces(before);
        assert(clean(items[items.len() - 1]));
        lemma_split_push(comma_joined(before), ',', items.last());
        assert(before.push(items.last()) =~= items);
    }
}

proof fn lemma_kept_clean(items: Seq<Seq<char>>)
    requires
        forall|i: int| 0 <= i < items.len() ==> clean(#[trigger] items[i]),
    ensures
        kept(items) == items,
    decreases items.len(),
{
    if items.len() > 0 {
        let before = items.drop_last();
        assert forall|i: int| 0 <= i < before.len() implies clean(#[trigger] before[i]) by {
            assert(before[i] == items[i]);
        }
        lemma_kept_clean(before);
        assert(clean(items[items.len() - 1]));
        assert(before.push(items.last()) =~= items);
    }
}

/// The wire name of a `type` names that type.
#[verifier::spinoff_prover]
pub proof fn type_names_read_back(t: RunRecordType)
    ensures
        type_named(t.name()) == Some(t),
{
    reveal_strlit("build");
    reveal_strlit("test");
    reveal_strlit("deploy");
    let s = t.name();
    assert(trimmed(s) == s);
    assert(lowered(s) =~= s);
    assert("build"@[0] != "test"@[0] && "build"@[0] != "deploy"@[0] && "test"@[0] != "deploy"@[0]);
}

/// A command and its tag read back as they were written, and so does a command without one.
#[verifier::spinoff_prover]
pub proof fn whitelist_entries_read_back(command: Seq<char>, t: RunRecordType)
    requires
        trimmed(command) == command,
        !holds(command, "=>"@),
    ensures
        entry_for(command + "=>"@ + t.name()) == (EntryView { pattern: command, type_tag: Some(t) }),
        entry_for(command) == (EntryView { pattern: command, type_tag: None }),
{
    lemma_arrow(command, t.name());
    lemma_around_arrow(command, t.name());
    type_names_read_back(t);
    let item = command + "=>"@ + t.name();
    assert(entry_for(item).pattern == trimmed(command));
    assert(entry_for(item).type_tag == type_named(t.name()));
}

proof fn lemma_around_arrow(command: Seq<char>, rest: Seq<char>)
    ensures
        (command + "=>"@ + rest).take(command.len() as int) == command,
        (command + "=>"@ + rest).skip(command.len() as int + 2) == rest,
{
    reveal_strlit("=>");
    let item = command + "=>"@ + rest;
    assert(item.take(command.len() as int) =~= command);
    assert(item.skip(command.len() as int + 2) =~= rest);
}

proof fn lemma_arrow(command: Seq<char>, rest: Seq<char>)
    requires
        !holds(command, "=>"@),
    ensures
        holds(command + "=>"@ + rest, "=>"@),
        first_at(command + "=>"@ + rest, "=>"@) == command.len(),
{
    reveal_strlit("=>");
    let arrow = "=>"@;
    let item = command + arrow + rest;
    let n = command.len() as int;
    assert(item.subrange(n, n + 2) =~= arrow);
    assert(occurs_at(item, arrow, n));
    assert forall|k: int| 0 <= k < n implies !occurs_at(item, arrow, k) by {
        if occurs_at(item, arrow, k) {
            let pair = item.subrange(k, k + 2);
            assert(pair[0] == '=' && pair[1] == '>');
            assert(item[k + 1] == '>');
            if k + 1 < n {
                assert(command.subrange(k, k + 2) =~= pair);
                assert(occurs_at(command, arrow, k));
            } else {
                assert(item[n] == arrow[0]);
            }
        }
    }
    lemma_first_at(item, arrow, n);
}

/// There is only one first occurrence.
proof fn lemma_first_at(s: Seq<char>, p: Seq<char>, n: int)
    requires
        0 <= n,
        occurs_at(s, p, n),
        forall|k: int| 0 <= k < n ==> !occurs_at(s, p, k),
    ensures
        holds(s, p),
        first_at(s, p) == n,
{
    let at = first_at(s, p);
    assert(occurs_at(s, p, at) && forall|k: int| 0 <= k < at ==> !occurs_at(s, p, k));
}

proof fn lemma_capturable(keys: Seq<Seq<char>>, key: Seq<char>)
    ensures
        capturable(keys).contains(key) <==> keys.contains(key) && !holds_token(key),
    decreases keys.len(),
{
    if keys.len() > 0 {
        let before = keys.drop_last();
        let n = keys.len() - 1;
        let (c, c0) = (capturable(keys), capturable(before));
        lemma_capturable(before, key);
        if c.contains(key) {
            let i = choose|i: int| 0 <= i < c.len() && c[i] == key;
            if i < c0.len() {
                assert(c0[i] == key);
                let j = choose|j: int| 0 <= j < before.len() && before[j] == key;
                assert(keys[j] == key);
            } else {
                assert(keys[n] == key);
            }
        }
        if keys.contains(key) && !holds_token(key) {
            let i = choose|i: int| 0 <= i < keys.len() && keys[i] == key;
            if i < n {
                assert(before[i] == key);
                let j = choose|j: int| 0 <= j < c0.len() && c0[j] == key;
                assert(c[j] == key);
            } else {
                assert(c[c0.len() as int] == key);
            }
        }
    }
}

/// The token is never captured: no configuration, whatever its allowlist names, lets a
/// variable through that holds the pipeline token; every other key of the list is kept.
pub proof fn the_token_is_never_captured(
    vars: Seq<(Seq<char>, Seq<char>)>,
    environment: Seq<(Seq<char>, Seq<char>)>,
    key: Seq<char>,
)
    ensures
        holds_token(key) ==> !let_through(configured(vars).env_allowlist.to_set(), environment).contains_key(key),
        !holds_token(key) && input_value(vars, "ENV_ALLOWLIST"@) is Some && csv_items(
            input_value(vars, "ENV_ALLOWLIST"@)->0,
        ).contains(key) ==> configured(vars).env_allowlist.to_set().contains(key),
{
    let allowed = configured(vars).env_allowlist;
    match input_value(vars, "ENV_ALLOWLIST"@) {
        Some(s) => {
            lemma_capturable(csv_items(s), key);
        },
        None => {},
    }
    capture_is_fail_closed(allowed.to_set(), environment, key);
}

/// An action input always wins over the fallback variable, and a blank input counts
/// as none.
pub proof fn inputs_win_over_fallbacks(vars: Seq<(Seq<char>, Seq<char>)>)
    ensures
        input_value(vars, "PIPELINE_URL"@) is Some ==> configured(vars).pipeline_url == input_value(
            vars,
            "PIPELINE_URL"@,
        ),
        input_value(vars, "PIPELINE_TOKEN"@) is Some ==> configured(vars).token == input_value(
            vars,
            "PIPELINE_TOKEN"@,
        ),
        forall|name: Seq<char>| #[trigger]
            input_value(vars, name) is Some ==> input_value(vars, name)->0.len() > 0,
{
}

/// An environment that configures nothing captures no variable, submits nowhere, never
/// fails the build, and keeps its state under `/tmp`.
pub proof fn the_default_posture_is_minimal()
    ensures
        ({
            let c = configured(Seq::empty());
            &&& c.pipeline_url is None
            &&& c.token is None
            &&& c.type_hint is None
            &&& c.deploy_target is None
            &&& c.env_allowlist.len() == 0
            &&& !c.hard_fail
            &&& c.state_dir == "/tmp"@
        }),
{
}

/// Whether the variable is set to this value, white space around it aside, and not blank.
pub open spec fn is_given(vars: Seq<(Seq<char>, Seq<char>)>, name: Seq<char>, value: Seq<char>) -> bool {
    value.len() > 0 && exists|raw: Seq<char>| #[trigger] is_set(vars, name, raw) && value == trimmed(raw)
}

/// Whether the variable is not set, or blank.
pub open spec fn is_blank(vars: Seq<(Seq<char>, Seq<char>)>, name: Seq<char>) -> bool {
    forall|raw: Seq<char>| #[trigger] is_set(vars, name, raw) ==> trimmed(raw).len() == 0
}

proof fn lemma_given(vars: Seq<(Seq<char>, Seq<char>)>, name: Seq<char>, full: Seq<char>)
    requires
        full == "INPUT_"@ + name,
    ensures
        forall|v: Seq<char>| #[trigger] is_given(vars, full, v) <==> input_value(vars, name) == Some(v),
        is_blank(vars, full) <==> input_value(vars, name) is None,
{
    a_variable_is_found_by_its_very_name(vars, full);
    match env_value(vars, full) {
        Some(raw) => {
            assert(is_set(vars, full, raw));
        },
        None => {},
    }
}

proof fn lemma_input_names()
    ensures
        "INPUT_PIPELINE_URL"@ == "INPUT_"@ + "PIPELINE_URL"@,
        "INPUT_PIPELINE_TOKEN"@ == "INPUT_"@ + "PIPELINE_TOKEN"@,
        "INPUT_DEPLOY_TARGET"@ == "INPUT_"@ + "DEPLOY_TARGET"@,
        "INPUT_HARD_FAIL"@ == "INPUT_"@ + "HARD_FAIL"@,
{
    assert("INPUT_PIPELINE_URL"@ =~= "INPUT_"@ + "PIPELINE_URL"@) by {
        reveal_strlit("INPUT_");
        reveal_strlit("INPUT_PIPELINE_URL");
        reveal_strlit("PIPELINE_URL");
    }
    assert("INPUT_PIPELINE_TOKEN"@ =~= "INPUT_"@ + "PIPELINE_TOKEN"@) by {
        reveal_strlit("INPUT_");
        reveal_strlit("INPUT_PIPELINE_TOKEN");
        reveal_strlit("PIPELINE_TOKEN");
    }
    assert("INPUT_DEPLOY_TARGET"@ =~= "INPUT_"@ + "DEPLOY_TARGET"@) by {
        reveal_strlit("INPUT_");
        reveal_strlit("INPUT_DEPLOY_TARGET");
        reveal_strlit("DEPLOY_TARGET");
    }
    assert("INPUT_HARD_FAIL"@ =~= "INPUT_"@ + "HARD_FAIL"@) by {
        reveal_strlit("INPUT_");
        reveal_strlit("INPUT_HARD_FAIL");
        reveal_strlit("HARD_FAIL");
    }
}

proof fn lemma_more_input_names()
    ensures
        "INPUT_WHITELIST"@ == "INPUT_"@ + "WHITELIST"@,
        "INPUT_TYPE"@ == "INPUT_"@ + "TYPE"@,
        "INPUT_ENV_ALLOWLIST"@ == "INPUT_"@ + "ENV_ALLOWLIST"@,
{
    assert("INPUT_WHITELIST"@ =~= "INPUT_"@ + "WHITELIST"@) by {
        reveal_strlit("INPUT_");
        reveal_strlit("INPUT_WHITELIST");
        reveal_strlit("WHITELIST");
    }
    assert("INPUT_TYPE"@ =~= "INPUT_"@ + "TYPE"@) by {
        reveal_strlit("INPUT_");
        reveal_strlit("INPUT_TYPE");
        reveal_strlit("TYPE");
    }
    assert("INPUT_ENV_ALLOWLIST"@ =~= "INPUT_"@ + "ENV_ALLOWLIST"@) by {
        reveal_strlit("INPUT_");
        reveal_strlit("INPUT_ENV_ALLOWLIST");
        reveal_strlit("ENV_ALLOWLIST");
    }
}

/// The pipeline's address and the token come from the inputs `PIPELINE_URL` and
/// `PIPELINE_TOKEN`, and only when those are blank from the variables `IDORA_PIPELINE_URL`
/// and `IDORA_PIPELINE_TOKEN`, as they are; the deploy target comes from the input
/// `DEPLOY_TARGET` alone.
pub proof fn where_records_go_comes_from_the_inputs(vars: Seq<(Seq<char>, Seq<char>)>, v: Seq<char>)
    ensures
        is_given(vars, "INPUT_PIPELINE_URL"@, v) ==> configured(vars).pipeline_url == Some(v),
        is_blank(vars, "INPUT_PIPELINE_URL"@) ==> (configured(vars).pipeline_url == Some(v) <==> is_set(
            vars,
            "IDORA_PIPELINE_URL"@,
            v,
        )),
        is_given(vars, "INPUT_PIPELINE_TOKEN"@, v) ==> configured(vars).token == Some(v),
        is_blank(vars, "INPUT_PIPELINE_TOKEN"@) ==> (configured(vars).token == Some(v) <==> is_set(
            vars,
            "IDORA_PIPELINE_TOKEN"@,
            v,
        )),
        configured(vars).deploy_target == Some(v) <==> is_given(vars, "INPUT_DEPLOY_TARGET"@, v),
        is_blank(vars, "INPUT_DEPLOY_TARGET"@) <==> configured(vars).deploy_target is None,
{
    lemma_input_names();
    lemma_given(vars, "PIPELINE_URL"@, "INPUT_PIPELINE_URL"@);
    lemma_given(vars, "PIPELINE_TOKEN"@, "INPUT_PIPELINE_TOKEN"@);
    lemma_given(vars, "DEPLOY_TARGET"@, "INPUT_DEPLOY_TARGET"@);
    a_variable_is_found_by_its_very_name(vars, "IDORA_PIPELINE_URL"@);
    a_variable_is_found_by_its_very_name(vars, "IDORA_PIPELINE_TOKEN"@);
}

/// The build is failed for want of capture exactly when the input `HARD_FAIL` is `true`, `1`
/// or `yes`, in any case. State is kept in `RUNNER_TEMP`, and under `/tmp` when that is not
/// set or empty.
pub proof fn failing_hard_is_asked_for(vars: Seq<(Seq<char>, Seq<char>)>, v: Seq<char>)
    ensures
        is_given(vars, "INPUT_HARD_FAIL"@, v) ==> (configured(vars).hard_fail <==> lowered(v) == "true"@ || lowered(v)
            == "1"@ || lowered(v) == "yes"@),
        is_blank(vars, "INPUT_HARD_FAIL"@) ==> !configured(vars).hard_fail,
        is_set(vars, "RUNNER_TEMP"@, v) && v.len() > 0 ==> configured(vars).state_dir == v,
        is_set(vars, "RUNNER_TEMP"@, v) && v.len() == 0 ==> configured(vars).state_dir == "/tmp"@,
        is_unset(vars, "RUNNER_TEMP"@) ==> configured(vars).state_dir == "/tmp"@,
{
    lemma_input_names();
    lemma_given(vars, "HARD_FAIL"@, "INPUT_HARD_FAIL"@);
    a_variable_is_found_by_its_very_name(vars, "RUNNER_TEMP"@);
}

/// The whitelist is the one that the input `WHITELIST` writes, and that of the two `npm`
/// commands when the input is blank; the hint is the type that the input `TYPE` names; the
/// keys to capture are those on the list that the input `ENV_ALLOWLIST` writes, but for the
/// two that hold the token.
pub proof fn what_is_observed_comes_from_the_inputs(
    vars: Seq<(Seq<char>, Seq<char>)>,
    v: Seq<char>,
    key: Seq<char>,
)
    ensures
        is_given(vars, "INPUT_WHITELIST"@, v) ==> configured(vars).whitelist == whitelist_entries(v),
        is_blank(vars, "INPUT_WHITELIST"@) ==> configured(vars).whitelist == seq![
            EntryView { pattern: "npm run build"@, type_tag: Some(RunRecordType::Build) },
            EntryView { pattern: "npm run test"@, type_tag: Some(RunRecordType::Test) },
        ],
        is_given(vars, "INPUT_TYPE"@, v) ==> configured(vars).type_hint == type_named(v),
        is_blank(vars, "INPUT_TYPE"@) ==> configured(vars).type_hint is None,
        is_given(vars, "INPUT_ENV_ALLOWLIST"@, v) ==> (configured(vars).env_allowlist.contains(key) <==> csv_items(
            v,
        ).contains(key) && key != "INPUT_PIPELINE_TOKEN"@ && key != "IDORA_PIPELINE_TOKEN"@),
        is_blank(vars, "INPUT_ENV_ALLOWLIST"@) ==> configured(vars).env_allowlist.len() == 0,
{
    lemma_more_input_names();
    lemma_given(vars, "WHITELIST"@, "INPUT_WHITELIST"@);
    lemma_given(vars, "TYPE"@, "INPUT_TYPE"@);
    lemma_given(vars, "ENV_ALLOWLIST"@, "INPUT_ENV_ALLOWLIST"@);
    lemma_default_whitelist();
    if is_given(vars, "INPUT_ENV_ALLOWLIST"@, v) {
        lemma_capturable(csv_items(v), key);
    }
}

proof fn lemma_default_whitelist()
    ensures
        whitelist_entries(DEFAULT_WHITELIST@) == seq![
            EntryView { pattern: "npm run build"@, type_tag: Some(RunRecordType::Build) },
            EntryView { pattern: "npm run test"@, type_tag: Some(RunRecordType::Test) },
        ],
{
    lemma_default_items();
    let (x, y) = ("npm run build"@ + "=>"@ + "build"@, "npm run test"@ + "=>"@ + "test"@);
    assert(csv_items(DEFAULT_WHITELIST@) == seq![x, y]) by {
        lemma_two_items(x, y);
    }
    lemma_pair_of_entries(DEFAULT_WHITELIST@, x, y);
    lemma_sealed("npm run build"@, RunRecordType::Build);
    lemma_sealed("npm run test"@, RunRecordType::Test);
}

/// The entry for an item, as a name that is not looked into.
#[verifier::opaque]
spec fn sealed(item: Seq<char>) -> EntryView {
    entry_for(item)
}

proof fn lemma_sealed(command: Seq<char>, t: RunRecordType)
    requires
        trimmed(command) == command,
        !holds(command, "=>"@),
    ensures
        sealed(command + "=>"@ + t.name()) == (EntryView { pattern: command, type_tag: Some(t) }),
{
    reveal(sealed);
    whitelist_entries_read_back(command, t);
}

proof fn lemma_pair_of_entries(s: Seq<char>, x: Seq<char>, y: Seq<char>)
    requires
        csv_items(s) == seq![x, y],
    ensures
        whitelist_entries(s) == seq![sealed(x), sealed(y)],
{
    reveal(sealed);
    assert(whitelist_entries(s) =~= seq![entry_for(x), entry_for(y)]);
}

proof fn lemma_two_items(x: Seq<char>, y: Seq<char>)
    requires
        clean(x),
        clean(y),
    ensures
        csv_items(x.push(',') + y) == seq![x, y],
{
    a_list_is_read_item_by_item(x, y);
    a_list_is_read_item_by_item(y, x);
    assert(seq![x] + seq![y] =~= seq![x, y]);
}

#[verifier::spinoff_prover]
proof fn lemma_default_items()
    ensures
        ({
            let (a, b) = ("npm run build"@, "npm run test"@);
            let (x, y) = (a + "=>"@ + "build"@, b + "=>"@ + "test"@);
            &&& DEFAULT_WHITELIST@ == x.push(',') + y
            &&& clean(x)
            &&& clean(y)
            &&& trimmed(a) == a
            &&& trimmed(b) == b
            &&& !holds(a, "=>"@)
            &&& !holds(b, "=>"@)
        }),
{
    reveal_strlit("npm run build=>build,npm run test=>test");
    reveal_strlit("npm run build");
    reveal_strlit("npm run test");
    reveal_strlit("=>");
    reveal_strlit("build");
    reveal_strlit("test");
    let (a, b) = ("npm run build"@, "npm run test"@);
    let (x, y) = (a + "=>"@ + "build"@, b + "=>"@ + "test"@);
    assert(DEFAULT_WHITELIST@ =~= x.push(',') + y);
    assert(!white(x[0]) && !white(x.last()) && !white(y[0]) && !white(y.last()));
    assert(!white(a[0]) && !white(a.last()) && !white(b[0]) && !white(b.last()));
    assert(!a.contains('>') && !b.contains('>'));
    assert forall|at: int| !occurs_at(a, "=>"@, at) by {
        if occurs_at(a, "=>"@, at) {
            assert(a.subrange(at, at + 2)[1] == '>');
            assert(a[at + 1] == '>');
        }
    }
    assert forall|at: int| !occurs_at(b, "=>"@, at) by {
        if occurs_at(b, "=>"@, at) {
            assert(b.subrange(at, at + 2)[1] == '>');
            assert(b[at + 1] == '>');
        }
    }
}

/// A list is read item by item: what stands before a comma and what stands after it are read
/// on their own. What holds no comma is one item, without the white space around it, or none
/// when nothing else is there.
pub proof fn a_list_is_read_item_by_item(a: Seq<char>, b: Seq<char>)
    ensures
        csv_items(a.push(',') + b) == csv_items(a) + csv_items(b),
        !a.contains(',') && trimmed(a).len() > 0 ==> csv_items(a) == seq![trimmed(a)],
        !a.contains(',') && trimmed(a).len() == 0 ==> csv_items(a) == Seq::<Seq<char>>::empty(),
{
    lemma_split_apart(a, b, ',');
    lemma_kept_apart(split_on(a, ','), split_on(b, ','));
    if !a.contains(',') {
        lemma_split_none(a, ',');
        let one = seq![a];
        assert(one.drop_last() =~= Seq::<Seq<char>>::empty());
        assert(kept(one.drop_last()) =~= Seq::<Seq<char>>::empty());
        assert(one.last() == a);
        assert(trimmed(a).len() > 0 ==> kept(one) =~= seq![trimmed(a)]);
    }
}

proof fn lemma_kept_apart(p: Seq<Seq<char>>, q: Seq<Seq<char>>)
    ensures
        kept(p + q) == kept(p) + kept(q),
    decreases q.len(),
{
    if q.len() == 0 {
        assert(p + q =~= p);
        assert(kept(p + q) =~= kept(p) + kept(q));
    } else {
        lemma_kept_apart(p, q.drop_last());
        assert((p + q).drop_last() =~= p + q.drop_last());
        assert((p + q).last() == q.last());
        assert(kept(p + q) =~= kept(p) + kept(q));
    }
}

/// An entry is cut at its first arrow: what stands before it, without the white space
/// around it, is the command, and what stands after it names the tag. Without an arrow the
/// whole item is the command, and there is no tag.
pub proof fn an_entry_is_cut_at_its_first_arrow(command: Seq<char>, tag: Seq<char>)
    requires
        !holds(command, "=>"@),
    ensures
        entry_for(command + "=>"@ + tag) == (EntryView { pattern: trimmed(command), type_tag: type_named(tag) }),
        entry_for(command) == (EntryView { pattern: command, type_tag: None }),
{
    lemma_arrow(command, tag);
    lemma_around_arrow(command, tag);
}

/// A whitelist has one entry for every item of its list, in the same order, and no other.
pub proof fn a_whitelist_has_one_entry_for_every_item(s: Seq<char>, i: int)
    ensures
        whitelist_entries(s).len() == csv_items(s).len(),
        0 <= i < csv_items(s).len() ==> whitelist_entries(s)[i] == entry_for(csv_items(s)[i]),
{
}

/// A text names a type exactly when it is that type's name, in any case and with any white
/// space around it.
pub proof fn a_type_is_named_in_any_case(s: Seq<char>)
    ensures
        type_named(s) == Some(RunRecordType::Build) <==> lowered(trimmed(s)) == "build"@,
        type_named(s) == Some(RunRecordType::Test) <==> lowered(trimmed(s)) == "test"@,
        type_named(s) == Some(RunRecordType::Deploy) <==> lowered(trimmed(s)) == "deploy"@,
{
    reveal_strlit("build");
    reveal_strlit("test");
    reveal_strlit("deploy");
    assert("build"@[0] != "test"@[0] && "build"@[0] != "deploy"@[0] && "test"@[0] != "deploy"@[0]);
}

} // verus!
