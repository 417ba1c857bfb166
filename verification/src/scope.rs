//! Input/output inclusion scope.
//!
//! Kernel-global observation sees everything; what counts as an input or output is
//! a scoping decision. Only paths under the operation's working directory are
//! recorded; `node_modules` and `.git` are excluded; out-of-tree paths are
//! excluded (they cannot be relativized and so cannot join).

use vstd::prelude::*;

use crate::text::{begins, chars_of, contains_text, holds, match_at, trim_slashes, unslashed};

verus! {

/// Whether `path` lies below the directory `root`, at a directory boundary.
pub open spec fn below(path: Seq<char>, root: Seq<char>) -> bool {
    let r = unslashed(root);
    begins(path, r) && path.len() > r.len() && path[r.len() as int] == '/'
}

/// Whether `path` goes through a directory that is never recorded.
pub open spec fn excluded(path: Seq<char>) -> bool {
    holds(path, "/node_modules/"@) || holds(path, "/.git/"@)
}

/// Whether `path` counts as an input or output of an operation rooted at `wd`.
pub open spec fn scoped(path: Seq<char>, wd: Seq<char>) -> bool {
    &&& path.len() > 0
    &&& path[0] == '/'
    &&& wd.len() > 0
    &&& below(path, wd)
    &&& !excluded(path)
}

/// Whether `path` should be recorded as an input or output of an operation
/// rooted at `working_directory`.
pub fn in_scope(path: &str, working_directory: &str) -> (r: bool)
    ensures
        r == scoped(path@, working_directory@),
{
    if !starts_absolute(path) {
        return false;
    }
    if working_directory.is_empty() || !is_under(path, working_directory) {
        return false;
    }
    !(contains_text(path, "/node_modules/") || contains_text(path, "/.git/"))
}

/// Whether `path` begins with a slash.
pub fn starts_absolute(path: &str) -> (r: bool)
    ensures
        r == (path@.len() > 0 && path@[0] == '/'),
{
    match path.chars().next() {
        Some(c) => c == '/',
        None => false,
    }
}

/// Whether `path` is under `root`, respecting directory boundaries (so
/// `/work/repo2/a` is not under `/work/repo`, nor is `/work/repo` itself).
pub fn is_under(path: &str, root: &str) -> (r: bool)
    ensures
        r == below(path@, root@),
{
    let base = trim_slashes(root);
    let p = chars_of(path);
    let b = chars_of(base.as_str());
    if b.len() >= p.len() {
        return false;
    }
    assert(p@.subrange(0, b@.len() as int) =~= p@.take(b@.len() as int));
    match_at(&p, &b, 0) && p[b.len()] == '/'
}

/// Every path in scope is absolute and names something strictly inside the
/// working directory; nothing outside it, and not the directory itself, is ever
/// in scope.
pub proof fn in_scope_is_inside_the_working_directory(path: Seq<char>, wd: Seq<char>)
    requires
        scoped(path, wd),
    ensures
        path[0] == '/',
        path != unslashed(wd),
        exists|rest: Seq<char>| path == unslashed(wd) + seq!['/'] + rest,
{
    let r = unslashed(wd);
    let rest = path.skip(r.len() as int + 1);
    assert(path =~= r + seq!['/'] + rest);
}

/// Trailing slashes on the working directory do not change the scope.
pub proof fn scope_ignores_trailing_slashes(path: Seq<char>, wd: Seq<char>)
    requires
        wd.len() > 0,
    ensures
        scoped(path, wd) == scoped(path, wd.push('/')),
{
    assert(wd.push('/').drop_last() =~= wd);
}

/// A sibling directory whose name extends the working directory's is out of scope.
pub proof fn scope_respects_directory_boundaries(wd: Seq<char>, c: char, rest: Seq<char>)
    requires
        c != '/',
        unslashed(wd) == wd,
    ensures
        !scoped(wd.push(c) + rest, wd),
{
    let path = wd.push(c) + rest;
    assert(path[wd.len() as int] == c);
}

/// Within the working directory nothing but the two excluded directories is
/// left out.
pub proof fn scope_over_includes_within_the_tree(wd: Seq<char>, rest: Seq<char>)
    requires
        unslashed(wd).len() > 0,
        unslashed(wd)[0] == '/',
        !excluded(unslashed(wd) + seq!['/'] + rest),
    ensures
        scoped(unslashed(wd) + seq!['/'] + rest, wd),
{
    let r = unslashed(wd);
    let path = r + seq!['/'] + rest;
    assert(path.take(r.len() as int) =~= r);
    assert(wd.len() > 0);
}

/// Whether `base` is the directory that `wd` names: `wd` without the slashes at its end.
pub open spec fn names_directory(wd: Seq<char>, base: Seq<char>) -> bool {
    &&& base.len() <= wd.len()
    &&& forall|i: int| 0 <= i < base.len() ==> wd[i] == base[i]
    &&& forall|i: int| base.len() <= i < wd.len() ==> wd[i] == '/'
    &&& base.len() > 0 ==> base.last() != '/'
}

/// Whether `path` names something inside the directory that `wd` names, at any depth.
pub open spec fn lies_inside(path: Seq<char>, wd: Seq<char>) -> bool {
    exists|base: Seq<char>, rest: Seq<char>|
        #![trigger base + seq!['/'] + rest]
        names_directory(wd, base) && path == base + seq!['/'] + rest
}

/// Whether one of the directories on `path` has this name: it stands between two slashes.
pub open spec fn goes_through(path: Seq<char>, name: Seq<char>) -> bool {
    exists|before: Seq<char>, after: Seq<char>|
        path == #[trigger] (before + seq!['/'] + name + seq!['/'] + after)
}

/// A path names one directory only.
proof fn lemma_one_directory(wd: Seq<char>, a: Seq<char>, b: Seq<char>)
    requires
        names_directory(wd, a),
        names_directory(wd, b),
    ensures
        a == b,
{
    if a.len() < b.len() {
        assert(wd[b.len() - 1] == b[b.len() - 1]);
    } else if b.len() < a.len() {
        assert(wd[a.len() - 1] == a[a.len() - 1]);
    }
    assert(a =~= b);
}

proof fn lemma_below(path: Seq<char>, wd: Seq<char>)
    ensures
        below(path, wd) <==> lies_inside(path, wd),
{
    let r = unslashed(wd);
    crate::text::only_trailing_slashes_are_dropped(wd);
    if below(path, wd) {
        let rest = path.skip(r.len() as int + 1);
        assert(path =~= r + seq!['/'] + rest);
    }
    if lies_inside(path, wd) {
        let (base, rest) = choose|base: Seq<char>, rest: Seq<char>|
            #![trigger base + seq!['/'] + rest]
            names_directory(wd, base) && path == base + seq!['/'] + rest;
        lemma_one_directory(wd, base, r);
        assert(path.take(r.len() as int) =~= r);
    }
}

proof fn lemma_through(path: Seq<char>, segment: Seq<char>, name: Seq<char>)
    requires
        segment == seq!['/'] + name + seq!['/'],
    ensures
        holds(path, segment) <==> goes_through(path, name),
{
    if holds(path, segment) {
        let at = choose|at: int| crate::text::occurs_at(path, segment, at);
        let (before, after) = (path.take(at), path.skip(at + segment.len()));
        assert(path =~= before + path.subrange(at, at + segment.len()) + after);
        assert(path =~= before + seq!['/'] + name + seq!['/'] + after);
    }
    if goes_through(path, name) {
        let (before, after) = choose|before: Seq<char>, after: Seq<char>|
            path == #[trigger] (before + seq!['/'] + name + seq!['/'] + after);
        let at = before.len() as int;
        assert(path.subrange(at, at + segment.len()) =~= segment);
        assert(crate::text::occurs_at(path, segment, at));
    }
}

/// The scope is a matter of directories alone: an absolute path counts exactly when it names
/// something inside the working directory and none of the directories on it is called
/// `node_modules` or `.git`. No other name, and nothing else about the path, matters.
pub proof fn the_directories_of_a_path_decide_its_scope(path: Seq<char>, wd: Seq<char>)
    ensures
        scoped(path, wd) <==> {
            &&& path.len() > 0 && path[0] == '/'
            &&& wd.len() > 0
            &&& lies_inside(path, wd)
            &&& !goes_through(path, "node_modules"@)
            &&& !goes_through(path, ".git"@)
        },
{
    reveal_strlit("/node_modules/");
    reveal_strlit("node_modules");
    reveal_strlit("/.git/");
    reveal_strlit(".git");
    assert("/node_modules/"@ =~= seq!['/'] + "node_modules"@ + seq!['/']);
    assert("/.git/"@ =~= seq!['/'] + ".git"@ + seq!['/']);
    lemma_below(path, wd);
    lemma_through(path, "/node_modules/"@, "node_modules"@);
    lemma_through(path, "/.git/"@, ".git"@);
}

} // verus!
