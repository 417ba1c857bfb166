//! Lists of environment variables.

use vstd::prelude::*;

use crate::text::{opt_text, same_text};

verus! {

/// The names and values of a list of environment variables.
pub open spec fn pairs(vars: Seq<(String, String)>) -> Seq<(Seq<char>, Seq<char>)> {
    vars.map_values(|v: (String, String)| (v.0@, v.1@))
}

/// The value of the first variable with this name.
pub open spec fn env_value(vars: Seq<(Seq<char>, Seq<char>)>, name: Seq<char>) -> Option<Seq<char>>
    decreases vars.len(),
{
    if vars.len() == 0 {
        None
    } else if vars[0].0 == name {
        Some(vars[0].1)
    } else {
        env_value(vars.drop_first(), name)
    }
}

/// Whether the first variable of this very name has this value.
pub open spec fn is_set(vars: Seq<(Seq<char>, Seq<char>)>, name: Seq<char>, value: Seq<char>) -> bool {
    exists|i: int|
        #![trigger vars[i]]
        0 <= i < vars.len() && vars[i].0 == name && vars[i].1 == value && (forall|j: int|
            0 <= j < i ==> (#[trigger] vars[j]).0 != name)
}

/// Whether no variable has this very name.
pub open spec fn is_unset(vars: Seq<(Seq<char>, Seq<char>)>, name: Seq<char>) -> bool {
    forall|i: int| 0 <= i < vars.len() ==> (#[trigger] vars[i]).0 != name
}

/// A value is found exactly when some variable has that very name, and it is that of the
/// first one that has; it is absent exactly when none has.
pub proof fn a_variable_is_found_by_its_very_name(vars: Seq<(Seq<char>, Seq<char>)>, name: Seq<char>)
    ensures
        forall|v: Seq<char>| env_value(vars, name) == Some(v) <==> #[trigger] is_set(vars, name, v),
        env_value(vars, name) is None <==> is_unset(vars, name),
    decreases vars.len(),
{
    if vars.len() > 0 && vars[0].0 != name {
        let t = vars.drop_first();
        a_variable_is_found_by_its_very_name(t, name);
        assert(forall|i: int| 0 <= i < t.len() ==> t[i] == vars[i + 1]);
        assert forall|v: Seq<char>| is_set(t, name, v) <==> #[trigger] is_set(vars, name, v) by {
            if is_set(t, name, v) {
                let i = choose|i: int|
                    #![trigger t[i]]
                    0 <= i < t.len() && t[i].0 == name && t[i].1 == v && (forall|j: int|
                        0 <= j < i ==> (#[trigger] t[j]).0 != name);
                assert(vars[i + 1] == t[i]);
                assert forall|j: int| 0 <= j < i + 1 implies (#[trigger] vars[j]).0 != name by {
                    if j > 0 {
                        assert(t[j - 1].0 != name);
                    }
                }
            }
            if is_set(vars, name, v) {
                let i = choose|i: int|
                    #![trigger vars[i]]
                    0 <= i < vars.len() && vars[i].0 == name && vars[i].1 == v && (forall|j: int|
                        0 <= j < i ==> (#[trigger] vars[j]).0 != name);
                assert(t[i - 1] == vars[i]);
                assert forall|j: int| 0 <= j < i - 1 implies (#[trigger] t[j]).0 != name by {
                    assert(vars[j + 1].0 != name);
                }
            }
        }
        if is_unset(t, name) {
            assert forall|i: int| 0 <= i < vars.len() implies (#[trigger] vars[i]).0 != name by {
                if i > 0 {
                    assert(t[i - 1].0 != name);
                }
            }
        }
        if is_unset(vars, name) {
            assert forall|i: int| 0 <= i < t.len() implies (#[trigger] t[i]).0 != name by {
                assert(vars[i + 1].0 != name);
            }
        }
    } else if vars.len() > 0 {
        assert(is_set(vars, name, vars[0].1)) by {
            assert(vars[0].0 == name);
        }
        assert forall|v: Seq<char>| #[trigger] is_set(vars, name, v) implies v == vars[0].1 by {
            let i = choose|i: int|
                #![trigger vars[i]]
                0 <= i < vars.len() && vars[i].0 == name && vars[i].1 == v && (forall|j: int|
                    0 <= j < i ==> (#[trigger] vars[j]).0 != name);
            if i > 0 {
                assert(vars[0].0 != name);
            }
        }
    }
}

/// Variables of any other name do not change what is found, wherever they stand.
pub proof fn other_variables_do_not_matter(
    before: Seq<(Seq<char>, Seq<char>)>,
    other: (Seq<char>, Seq<char>),
    after: Seq<(Seq<char>, Seq<char>)>,
    name: Seq<char>,
)
    requires
        other.0 != name,
    ensures
        env_value(before.push(other) + after, name) == env_value(before + after, name),
    decreases before.len(),
{
    let (x, y) = (before.push(other) + after, before + after);
    if before.len() == 0 {
        assert(x.drop_first() =~= y);
    } else {
        let t = before.drop_first();
        assert(x.drop_first() =~= t.push(other) + after);
        assert(y.drop_first() =~= t + after);
        other_variables_do_not_matter(t, other, after, name);
    }
}

/// The value of the first variable with this name.
pub fn lookup(vars: &Vec<(String, String)>, name: &str) -> (r: Option<String>)
    ensures
        opt_text(r) == env_value(pairs(vars@), name@),
        match r {
            Some(v) => is_set(pairs(vars@), name@, v@),
            None => is_unset(pairs(vars@), name@),
        },
{
    let ghost all = pairs(vars@);
    let mut i: usize = 0;
    assert(all.skip(0) =~= all);
    while i < vars.len()
        invariant
            i <= vars@.len(),
            all == pairs(vars@),
            env_value(all, name@) == env_value(all.skip(i as int), name@),
        decreases vars@.len() - i,
    {
        assert(all.skip(i as int)[0] == (vars@[i as int].0@, vars@[i as int].1@));
        if same_text(vars[i].0.as_str(), name) {
            let value = vars[i].1.clone();
            proof {
                a_variable_is_found_by_its_very_name(all, name@);
                assert(is_set(all, name@, value@));
            }
            return Some(value);
        }
        assert(all.skip(i as int).drop_first() =~= all.skip(i + 1));
        i += 1;
    }
    proof {
        a_variable_is_found_by_its_very_name(all, name@);
    }
    None
}

} // verus!
