//! The CI-adapter boundary that makes the recorder portable.
//!
//! The core never reads a platform's variables directly; it asks an adapter.
//! Supporting a new CI platform is implementing [`CiAdapter`] against a new system.

use vstd::prelude::*;

use crate::env::pairs;
use crate::runrecord::{text_map, RunRecordType};
use crate::strmap::StrMap;
use crate::text::{opt_text, same_text, texts};

pub mod github;

verus! {

/// Deploy-event identity carried on the sidecar; deliberately not part of the hashed
/// record.
#[derive(Clone, Debug, PartialEq, Eq)]
pub struct RunIdentity {
    pub run_id: Option<String>,
    pub run_attempt: Option<String>,
}

/// The allowlist of environment keys that the core may capture. Allowlist-only, so
/// that an unknown custom secret is dropped, not leaked.
#[derive(Clone, Debug)]
pub struct EnvAllowlist {
    pub allowed: Vec<String>,
}

impl View for EnvAllowlist {
    type V = Set<Seq<char>>;

    open spec fn view(&self) -> Set<Seq<char>> {
        texts(self.allowed@).to_set()
    }
}

/// Whether a variable of this name holds the pipeline token.
pub open spec fn holds_token(name: Seq<char>) -> bool {
    name == "INPUT_PIPELINE_TOKEN"@ || name == "IDORA_PIPELINE_TOKEN"@
}

/// Whether a variable of this name holds the pipeline token.
pub fn is_token_variable(name: &str) -> (r: bool)
    ensures
        r == holds_token(name@),
{
    same_text(name, "INPUT_PIPELINE_TOKEN") || same_text(name, "IDORA_PIPELINE_TOKEN")
}

/// The variables that an allowlist lets through; of several values for one key the
/// last counts.
pub open spec fn let_through(
    allowed: Set<Seq<char>>,
    vars: Seq<(Seq<char>, Seq<char>)>,
) -> Map<Seq<char>, Seq<char>>
    decreases vars.len(),
{
    if vars.len() == 0 {
        Map::empty()
    } else {
        let before = let_through(allowed, vars.drop_last());
        if allowed.contains(vars.last().0) {
            before.insert(vars.last().0, vars.last().1)
        } else {
            before
        }
    }
}

/// What is captured of the environment: nothing at all rather than an empty map.
pub open spec fn captured(
    allowed: Set<Seq<char>>,
    vars: Seq<(Seq<char>, Seq<char>)>,
) -> Option<Map<Seq<char>, Seq<char>>> {
    if let_through(allowed, vars) == Map::<Seq<char>, Seq<char>>::empty() {
        None
    } else {
        Some(let_through(allowed, vars))
    }
}

impl Default for EnvAllowlist {
    /// The allowlist that lets nothing through.
    fn default() -> (a: Self)
        ensures
            a@ == Set::<Seq<char>>::empty(),
    {
        let a = EnvAllowlist { allowed: Vec::new() };
        assert(a@ =~= Set::<Seq<char>>::empty());
        a
    }
}

impl EnvAllowlist {
    /// The allowlist of these keys.
    pub fn new(keys: Vec<String>) -> (a: Self)
        ensures
            a@ == texts(keys@).to_set(),
    {
        EnvAllowlist { allowed: keys }
    }

    fn allows(&self, key: &str) -> (r: bool)
        ensures
            r == self@.contains(key@),
    {
        let ghost all = texts(self.allowed@);
        let mut i: usize = 0;
        while i < self.allowed.len()
            invariant
                i <= self.allowed@.len(),
                all == texts(self.allowed@),
                forall|j: int| 0 <= j < i ==> #[trigger] all[j] != key@,
            decreases self.allowed@.len() - i,
        {
            if same_text(self.allowed[i].as_str(), key) {
                assert(all[i as int] == key@);
                assert(all.contains(key@));
                return true;
            }
            i += 1;
        }
        false
    }

    /// Apply the allowlist to a set of environment variables. Gives `None` when
    /// nothing is let through, as an empty allowlist never does.
    pub fn capture(&self, vars: &Vec<(String, String)>) -> (r: Option<StrMap<String>>)
        ensures
            text_map(r) == captured(self@, pairs(vars@)),
    {
        let ghost all = pairs(vars@);
        if self.allowed.len() == 0 {
            proof {
                assert forall|k: Seq<char>| !self@.contains(k) by {}
                lemma_nothing_through(self@, all);
            }
            return None;
        }
        let mut m: StrMap<String> = StrMap::new();
        let mut i: usize = 0;
        proof {
            assert(all.take(0) =~= Seq::<(Seq<char>, Seq<char>)>::empty());
            assert(m@.map_values(|s: String| s@) =~= Map::<Seq<char>, Seq<char>>::empty());
        }
        while i < vars.len()
            invariant
                i <= vars@.len(),
                all == pairs(vars@),
                m@.map_values(|s: String| s@) == let_through(self@, all.take(i as int)),
            decreases vars@.len() - i,
        {
            proof {
                assert(all.take(i + 1).drop_last() =~= all.take(i as int));
                assert(all.take(i + 1).last() == (vars@[i as int].0@, vars@[i as int].1@));
            }
            if self.allows(vars[i].0.as_str()) {
                let ghost before = m@;
                m.insert(vars[i].0.clone(), vars[i].1.clone());
                assert(m@.map_values(|s: String| s@) =~= before.map_values(|s: String| s@).insert(
                    vars@[i as int].0@,
                    vars@[i as int].1@,
                ));
            }
            i += 1;
        }
        proof {
            assert(all.take(i as int) =~= all);
            let seen = m@.map_values(|s: String| s@);
            assert(seen.dom() =~= m@.dom());
            if m@ == Map::<Seq<char>, String>::empty() {
                assert(seen =~= Map::<Seq<char>, Seq<char>>::empty());
            }
            if seen == Map::<Seq<char>, Seq<char>>::empty() {
                assert(m@ =~= Map::<Seq<char>, String>::empty());
            }
        }
        if m.is_empty() {
            None
        } else {
            Some(m)
        }
    }
}

proof fn lemma_nothing_through(allowed: Set<Seq<char>>, vars: Seq<(Seq<char>, Seq<char>)>)
    requires
        forall|k: Seq<char>| !allowed.contains(k),
    ensures
        let_through(allowed, vars) == Map::<Seq<char>, Seq<char>>::empty(),
    decreases vars.len(),
{
    if vars.len() > 0 {
        lemma_nothing_through(allowed, vars.drop_last());
    }
}

/// Capture is fail-closed: a key that is not on the allowlist is never captured,
/// whatever its value; every captured value is one that the environment has for its
/// key; and every variable on the allowlist is captured under its key.
pub proof fn capture_is_fail_closed(allowed: Set<Seq<char>>, vars: Seq<(Seq<char>, Seq<char>)>, key: Seq<char>)
    ensures
        let_through(allowed, vars).contains_key(key) ==> allowed.contains(key) && vars.contains(
            (key, let_through(allowed, vars)[key]),
        ),
        allowed.contains(key) && (exists|i: int| 0 <= i < vars.len() && (#[trigger] vars[i]).0 == key)
            ==> let_through(allowed, vars).contains_key(key),
    decreases vars.len(),
{
    if vars.len() > 0 {
        let before = vars.drop_last();
        let n = vars.len() - 1;
        capture_is_fail_closed(allowed, before, key);
        let m = let_through(allowed, vars);
        if m.contains_key(key) {
            if allowed.contains(vars.last().0) && vars.last().0 == key {
                assert(vars[n] == (key, m[key]));
            } else {
                assert(before.contains((key, m[key])));
                let i = choose|i: int| 0 <= i < before.len() && before[i] == (key, m[key]);
                assert(vars[i] == (key, m[key]));
            }
        }
        if allowed.contains(key) && exists|i: int| 0 <= i < vars.len() && (#[trigger] vars[i]).0 == key {
            let i = choose|i: int| 0 <= i < vars.len() && (#[trigger] vars[i]).0 == key;
            if i < n {
                assert(before[i].0 == key);
            }
        }
    }
}

/// An empty allowlist captures nothing.
pub proof fn an_empty_allowlist_captures_nothing(vars: Seq<(Seq<char>, Seq<char>)>)
    ensures
        captured(Set::empty(), vars) is None,
{
    lemma_nothing_through(Set::empty(), vars);
}

/// Variables that are not on the allowlist do not change what is captured.
pub proof fn capture_ignores_other_variables(
    allowed: Set<Seq<char>>,
    vars: Seq<(Seq<char>, Seq<char>)>,
    other: (Seq<char>, Seq<char>),
)
    requires
        !allowed.contains(other.0),
    ensures
        captured(allowed, vars.push(other)) == captured(allowed, vars),
{
    assert(vars.push(other).drop_last() =~= vars);
}

/// Whether the last variable of this very name has this value.
pub open spec fn is_last(vars: Seq<(Seq<char>, Seq<char>)>, name: Seq<char>, value: Seq<char>) -> bool {
    exists|i: int|
        #![trigger vars[i]]
        0 <= i < vars.len() && vars[i].0 == name && vars[i].1 == value && (forall|j: int|
            i < j < vars.len() ==> (#[trigger] vars[j]).0 != name)
}

/// Exactly the variables on the allowlist are captured, each with the last value that the
/// environment has for it; nothing is captured exactly when no variable is on the list.
pub proof fn every_allowed_variable_is_captured(
    allowed: Set<Seq<char>>,
    vars: Seq<(Seq<char>, Seq<char>)>,
    key: Seq<char>,
    value: Seq<char>,
)
    ensures
        allowed.contains(key) && is_last(vars, key, value) <==> captured(allowed, vars) is Some && captured(
            allowed,
            vars,
        )->0.contains_key(key) && captured(allowed, vars)->0[key] == value,
        captured(allowed, vars) is None <==> forall|i: int|
            0 <= i < vars.len() ==> !allowed.contains((#[trigger] vars[i]).0),
{
    let m = let_through(allowed, vars);
    lemma_let_through(allowed, vars, key, value);
    if exists|i: int| 0 <= i < vars.len() && allowed.contains((#[trigger] vars[i]).0) {
        let i = choose|i: int| 0 <= i < vars.len() && allowed.contains((#[trigger] vars[i]).0);
        capture_is_fail_closed(allowed, vars, vars[i].0);
        assert(m.contains_key(vars[i].0));
        assert(!Map::<Seq<char>, Seq<char>>::empty().contains_key(vars[i].0));
    } else {
        assert forall|k: Seq<char>| !m.contains_key(k) by {
            capture_is_fail_closed(allowed, vars, k);
            if m.contains_key(k) {
                let i = choose|i: int| 0 <= i < vars.len() && vars[i] == (k, m[k]);
                assert(allowed.contains(vars[i].0));
            }
        }
        assert(m =~= Map::<Seq<char>, Seq<char>>::empty());
    }
}

proof fn lemma_let_through(
    allowed: Set<Seq<char>>,
    vars: Seq<(Seq<char>, Seq<char>)>,
    key: Seq<char>,
    value: Seq<char>,
)
    ensures
        allowed.contains(key) && is_last(vars, key, value) <==> let_through(allowed, vars).contains_key(key)
            && let_through(allowed, vars)[key] == value,
    decreases vars.len(),
{
    if vars.len() > 0 {
        let before = vars.drop_last();
        let n = vars.len() - 1;
        lemma_let_through(allowed, before, key, value);
        assert(vars[n] == vars.last());
        if vars.last().0 == key {
            if is_last(vars, key, value) {
                let i = choose|i: int|
                    #![trigger vars[i]]
                    0 <= i < vars.len() && vars[i].0 == key && vars[i].1 == value && (forall|j: int|
                        i < j < vars.len() ==> (#[trigger] vars[j]).0 != key);
                assert(i == n);
            }
        } else {
            if is_last(vars, key, value) {
                let i = choose|i: int|
                    #![trigger vars[i]]
                    0 <= i < vars.len() && vars[i].0 == key && vars[i].1 == value && (forall|j: int|
                        i < j < vars.len() ==> (#[trigger] vars[j]).0 != key);
                assert(before[i] == vars[i]);
                assert forall|j: int| i < j < before.len() implies (#[trigger] before[j]).0 != key by {
                    assert(vars[j].0 != key);
                }
            }
            if is_last(before, key, value) {
                let i = choose|i: int|
                    #![trigger before[i]]
                    0 <= i < before.len() && before[i].0 == key && before[i].1 == value && (forall|j: int|
                        i < j < before.len() ==> (#[trigger] before[j]).0 != key);
                assert(vars[i] == before[i]);
                assert forall|j: int| i < j < vars.len() implies (#[trigger] vars[j]).0 != key by {
                    if j < n {
                        assert(before[j].0 != key);
                    }
                }
            }
        }
    }
}

/// What an adapter knows about the run.
pub struct AdapterView {
    pub repo: Option<Seq<char>>,
    pub commit: Option<Seq<char>>,
    pub type_hint: Option<RunRecordType>,
    pub deploy_target: Option<Seq<char>>,
    pub allowed: Set<Seq<char>>,
    pub run_id: Option<Seq<char>>,
    pub run_attempt: Option<Seq<char>>,
}

/// The interface that the core depends on. The `type` hint and the deploy target are
/// job-level (sourced from action inputs) rather than per-operation.
pub trait CiAdapter {
    /// What the adapter knows about the run.
    spec fn facts(&self) -> AdapterView;

    /// Repository identifier in the verification side's canonical form.
    fn repo(&self) -> (r: Option<String>)
        ensures
            opt_text(r) == self.facts().repo,
    ;

    /// Authoritative commit: the head SHA that shipped.
    fn commit(&self) -> (r: Option<String>)
        ensures
            opt_text(r) == self.facts().commit,
    ;

    /// Operation `type` hint, authoritative over whitelist tag and heuristic.
    fn type_hint(&self) -> (r: Option<RunRecordType>)
        ensures
            r == self.facts().type_hint,
    ;

    /// Deploy destination, such as `prod` or `staging`.
    fn deploy_target(&self) -> (r: Option<String>)
        ensures
            opt_text(r) == self.facts().deploy_target,
    ;

    /// Environment-capture allowlist.
    fn env_allowlist(&self) -> (r: &EnvAllowlist)
        ensures
            r@ == self.facts().allowed,
    ;

    /// `run_id` and `run_attempt` for re-deploy identity.
    fn run_identity(&self) -> (r: RunIdentity)
        ensures
            opt_text(r.run_id) == self.facts().run_id,
            opt_text(r.run_attempt) == self.facts().run_attempt,
    ;
}

} // verus!
