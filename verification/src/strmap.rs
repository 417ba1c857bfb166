//! A map keyed by text that keeps its entries in ascending key order.

use vstd::prelude::*;

use crate::order::{ascending, is_before, text_before, text_order_is_strict_and_total};
use crate::text::same_text;

verus! {

/// A map from text to `T`, held as a strictly ascending list of entries.
#[derive(Debug, PartialEq, Eq)]
pub struct StrMap<T> {
    entries: Vec<(String, T)>,
}

/// The keys of a list of entries.
pub open spec fn entry_keys<T>(e: Seq<(String, T)>) -> Seq<Seq<char>> {
    e.map_values(|x: (String, T)| x.0@)
}

/// The map that a list of entries with distinct keys stands for.
pub open spec fn entry_map<T>(e: Seq<(String, T)>) -> Map<Seq<char>, T> {
    Map::new(
        |k: Seq<char>| entry_keys(e).contains(k),
        |k: Seq<char>| e[entry_keys(e).index_of(k)].1,
    )
}

impl<T> View for StrMap<T> {
    type V = Map<Seq<char>, T>;

    closed spec fn view(&self) -> Map<Seq<char>, T> {
        entry_map(self.entries@)
    }
}

proof fn lemma_entry_at<T>(e: Seq<(String, T)>, i: int)
    requires
        ascending(entry_keys(e)),
        0 <= i < e.len(),
    ensures
        entry_map(e).contains_key(e[i].0@),
        entry_map(e)[e[i].0@] == e[i].1,
{
    let keys = entry_keys(e);
    assert(keys[i] == e[i].0@);
    assert(keys.contains(e[i].0@));
    let j = keys.index_of(e[i].0@);
    if j != i {
        text_order_is_strict_and_total(keys[i], keys[i], keys[i]);
    }
}

impl<T> StrMap<T> {
    #[verifier::type_invariant]
    spec fn sorted(self) -> bool {
        ascending(entry_keys(self.entries@))
    }

    /// The keys in the order in which the map holds them.
    pub closed spec fn keys(&self) -> Seq<Seq<char>> {
        entry_keys(self.entries@)
    }

    /// The empty map.
    pub fn new() -> (m: Self)
        ensures
            m@ == Map::<Seq<char>, T>::empty(),
    {
        let m = StrMap { entries: Vec::new() };
        assert(m@ =~= Map::<Seq<char>, T>::empty());
        m
    }

    /// The number of entries; the keys are exactly the map's domain, ascending.
    pub fn len(&self) -> (n: usize)
        ensures
            n == self.keys().len(),
            ascending(self.keys()),
            forall|k: Seq<char>| self.keys().contains(k) <==> self@.contains_key(k),
    {
        proof {
            use_type_invariant(self);
        }
        self.entries.len()
    }

    /// Whether the map has no entry.
    pub fn is_empty(&self) -> (r: bool)
        ensures
            r == (self@ == Map::<Seq<char>, T>::empty()),
    {
        if self.entries.len() == 0 {
            assert(self@ =~= Map::<Seq<char>, T>::empty());
            true
        } else {
            assert(entry_keys(self.entries@)[0] == self.entries@[0].0@);
            assert(self@.contains_key(self.entries@[0].0@));
            false
        }
    }

    /// The entry at position `i` in key order.
    pub fn entry(&self, i: usize) -> (r: (&String, &T))
        requires
            i < self.keys().len(),
        ensures
            r.0@ == self.keys()[i as int],
            self@.contains_key(r.0@),
            self@[r.0@] == *r.1,
    {
        proof {
            use_type_invariant(self);
            lemma_entry_at(self.entries@, i as int);
        }
        (&self.entries[i].0, &self.entries[i].1)
    }

    /// The value for `key`, if there is one.
    pub fn get(&self, key: &str) -> (r: Option<&T>)
        ensures
            r is Some <==> self@.contains_key(key@),
            r matches Some(v) ==> *v == self@[key@],
    {
        proof {
            use_type_invariant(self);
        }
        let i = find_slot(&self.entries, key);
        if i < self.entries.len() && same_text(self.entries[i].0.as_str(), key) {
            proof {
                lemma_entry_at(self.entries@, i as int);
            }
            Some(&self.entries[i].1)
        } else {
            proof {
                lemma_not_in_slot(self.entries@, i as int, key@);
            }
            None
        }
    }

    /// Maps `key` to `value`, in place of what it was mapped to before.
    pub fn insert(&mut self, key: String, value: T)
        ensures
            final(self)@ == old(self)@.insert(key@, value),
    {
        proof {
            use_type_invariant(&*self);
        }
        let ghost before = self.entries@;
        let mut e: Vec<(String, T)> = Vec::new();
        std::mem::swap(&mut e, &mut self.entries);
        let i = find_slot(&e, key.as_str());
        let ghost k = key@;
        if i < e.len() && same_text(e[i].0.as_str(), key.as_str()) {
            proof {
                lemma_replace(before, i as int, (key, value));
            }
            e.set(i, (key, value));
        } else {
            proof {
                lemma_not_in_slot(before, i as int, k);
                lemma_insert(before, i as int, (key, value));
            }
            e.insert(i, (key, value));
        }
        self.entries = e;
    }
}

impl<T: Clone> Clone for StrMap<T> {
    /// A map with the same keys and a clone of each value.
    fn clone(&self) -> (r: Self)
        ensures
            r.keys() == self.keys(),
            forall|k: Seq<char>| #[trigger] r@.contains_key(k) <==> self@.contains_key(k),
            forall|k: Seq<char>| #[trigger] r@.contains_key(k) ==> cloned::<T>(self@[k], r@[k]),
    {
        proof {
            use_type_invariant(self);
        }
        let mut e: Vec<(String, T)> = Vec::new();
        let mut i: usize = 0;
        while i < self.entries.len()
            invariant
                i <= self.entries@.len(),
                e@.len() == i,
                forall|j: int| 0 <= j < i ==> (#[trigger] e@[j]).0 == self.entries@[j].0,
                forall|j: int| 0 <= j < i ==> cloned::<T>(self.entries@[j].1, (#[trigger] e@[j]).1),
            decreases self.entries@.len() - i,
        {
            e.push((self.entries[i].0.clone(), self.entries[i].1.clone()));
            i += 1;
        }
        assert(entry_keys(e@) =~= entry_keys(self.entries@));
        let r = StrMap { entries: e };
        proof {
            let keys = entry_keys(r.entries@);
            assert forall|k: Seq<char>| #[trigger] r@.contains_key(k) implies cloned::<T>(self@[k], r@[k]) by {
                let j = keys.index_of(k);
                assert(keys.contains(k));
                assert(r@[k] == r.entries@[j].1);
                assert(self@[k] == self.entries@[j].1);
            }
        }
        r
    }
}

/// The position of the first entry whose key is not before `key`.
fn find_slot<T>(e: &Vec<(String, T)>, key: &str) -> (i: usize)
    requires
        ascending(entry_keys(e@)),
    ensures
        i <= e@.len(),
        forall|j: int| 0 <= j < i ==> text_before((#[trigger] e@[j]).0@, key@),
        forall|j: int| i <= j < e@.len() ==> !text_before((#[trigger] e@[j]).0@, key@),
{
    let mut lo: usize = 0;
    let mut hi: usize = e.len();
    while lo < hi
        invariant
            lo <= hi <= e@.len(),
            ascending(entry_keys(e@)),
            forall|j: int| 0 <= j < lo ==> text_before((#[trigger] e@[j]).0@, key@),
            forall|j: int| hi <= j < e@.len() ==> !text_before((#[trigger] e@[j]).0@, key@),
        decreases hi - lo,
    {
        let mid: usize = lo + (hi - lo) / 2;
        let ghost keys = entry_keys(e@);
        if is_before(e[mid].0.as_str(), key) {
            assert forall|j: int| 0 <= j < mid + 1 implies text_before((#[trigger] e@[j]).0@, key@) by {
                if j < mid {
                    assert(text_before(keys[j], keys[mid as int]));
                    text_order_is_strict_and_total(keys[j], keys[mid as int], key@);
                }
            }
            lo = mid + 1;
        } else {
            assert forall|j: int| mid <= j < e@.len() implies !text_before((#[trigger] e@[j]).0@, key@) by {
                if j > mid {
                    assert(text_before(keys[mid as int], keys[j]));
                    text_order_is_strict_and_total(keys[mid as int], keys[j], key@);
                }
            }
            hi = mid;
        }
    }
    lo
}

proof fn lemma_not_in_slot<T>(e: Seq<(String, T)>, i: int, k: Seq<char>)
    requires
        ascending(entry_keys(e)),
        0 <= i <= e.len(),
        forall|j: int| 0 <= j < i ==> text_before((#[trigger] e[j]).0@, k),
        forall|j: int| i <= j < e.len() ==> !text_before((#[trigger] e[j]).0@, k),
        i < e.len() ==> e[i].0@ != k,
    ensures
        !entry_map(e).contains_key(k),
        forall|j: int| i <= j < e.len() ==> text_before(k, (#[trigger] e[j]).0@),
{
    let keys = entry_keys(e);
    assert forall|j: int| i <= j < e.len() implies text_before(k, (#[trigger] e[j]).0@) by {
        text_order_is_strict_and_total(k, keys[i], keys[j]);
        if j > i {
            assert(text_before(keys[i], keys[j]));
        }
    }
    if keys.contains(k) {
        let j = choose|j: int| 0 <= j < keys.len() && keys[j] == k;
        assert(keys[j] == e[j].0@);
        text_order_is_strict_and_total(k, k, k);
    }
}

proof fn lemma_replace<T>(e: Seq<(String, T)>, i: int, x: (String, T))
    requires
        ascending(entry_keys(e)),
        0 <= i < e.len(),
        e[i].0@ == x.0@,
    ensures
        ascending(entry_keys(e.update(i, x))),
        entry_map(e.update(i, x)) == entry_map(e).insert(x.0@, x.1),
{
    let f = e.update(i, x);
    assert(entry_keys(f) =~= entry_keys(e));
    lemma_same_map(e, f, x, i);
}

proof fn lemma_insert<T>(e: Seq<(String, T)>, i: int, x: (String, T))
    requires
        ascending(entry_keys(e)),
        0 <= i <= e.len(),
        forall|j: int| 0 <= j < i ==> text_before((#[trigger] e[j]).0@, x.0@),
        forall|j: int| i <= j < e.len() ==> text_before(x.0@, (#[trigger] e[j]).0@),
    ensures
        ascending(entry_keys(e.insert(i, x))),
        entry_map(e.insert(i, x)) == entry_map(e).insert(x.0@, x.1),
{
    let f = e.insert(i, x);
    let (ek, fk) = (entry_keys(e), entry_keys(f));
    assert forall|a: int, b: int| 0 <= a < b < fk.len() implies text_before(#[trigger] fk[a], #[trigger] fk[b]) by {
        let a0 = if a < i { a } else { a - 1 };
        let b0 = if b < i { b } else { b - 1 };
        if a != i && b != i {
            assert(fk[a] == ek[a0] && fk[b] == ek[b0]);
        } else if a == i {
            assert(fk[b] == e[b0].0@);
        } else {
            assert(fk[a] == e[a0].0@);
        }
    }
    lemma_same_map(e, f, x, i);
}

/// Two ascending lists that differ only in holding `x` at `at` stand for maps that
/// differ only at `x.0`.
proof fn lemma_same_map<T>(e: Seq<(String, T)>, f: Seq<(String, T)>, x: (String, T), at: int)
    requires
        ascending(entry_keys(e)),
        ascending(entry_keys(f)),
        0 <= at < f.len(),
        f[at] == x,
        f == e.insert(at, x) || (at < e.len() && e[at].0@ == x.0@ && f == e.update(at, x)),
        at <= e.len(),
    ensures
        entry_map(f) == entry_map(e).insert(x.0@, x.1),
{
    let (ek, fk) = (entry_keys(e), entry_keys(f));
    assert forall|k: Seq<char>| entry_map(f).contains_key(k) <==> entry_map(e).insert(x.0@, x.1).contains_key(k) by {
        if fk.contains(k) {
            let j = choose|j: int| 0 <= j < fk.len() && fk[j] == k;
            if j != at {
                let j0 = if f == e.insert(at, x) && j > at { j - 1 } else { j };
                assert(ek[j0] == k);
            }
        }
        if ek.contains(k) {
            let j = choose|j: int| 0 <= j < ek.len() && ek[j] == k;
            if f == e.insert(at, x) {
                let j1 = if j >= at { j + 1 } else { j };
                assert(fk[j1] == k);
            } else {
                assert(fk[j] == k);
            }
        }
        if k == x.0@ {
            assert(fk[at] == k);
        }
    }
    assert forall|k: Seq<char>| entry_map(f).contains_key(k) implies entry_map(f)[k] == entry_map(e).insert(x.0@, x.1)[k] by {
        let j = choose|j: int| 0 <= j < fk.len() && fk[j] == k;
        lemma_entry_at(f, j);
        if k == x.0@ {
            lemma_entry_at(f, at);
        } else {
            let j0 = if f == e.insert(at, x) && j > at { j - 1 } else { j };
            assert(fk[at] == x.0@);
            assert(ek[j0] == k);
            lemma_entry_at(e, j0);
        }
    }
    assert(entry_map(f) =~= entry_map(e).insert(x.0@, x.1));
}

} // verus!
