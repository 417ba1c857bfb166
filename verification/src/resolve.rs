//! Resolution of the non-I/O execution fields: how `/proc` is read, and what the host
//! and its toolchain are.

use vstd::prelude::*;
use vstd::slice::slice_subrange;

use crate::command::{output_bytes, stdout_of, CommandOutput};
use crate::events::{loose_text, lossy_text};
use crate::runrecord::text_map;
use crate::strmap::StrMap;
use crate::text::{
    chars_of, decimal, decimal_text, find_char, first_index, lemma_first_index, opt_text, same_text, trim_chars, trimmed,
};

verus! {

// ---------------------------------------------------------------------------
// Processes
// ---------------------------------------------------------------------------

/// `/proc` as a source of process metadata. Reads must happen while the process is
/// alive, which is why operation roots are captured eagerly during observation.
pub struct ProcFs;

/// The pieces between NUL bytes: one more piece than there are NUL bytes.
pub open spec fn nul_pieces(raw: Seq<u8>) -> Seq<Seq<u8>>
    decreases raw.len(),
{
    if raw.len() == 0 {
        seq![Seq::<u8>::empty()]
    } else {
        let pieces = nul_pieces(raw.drop_last());
        if raw.last() == 0 {
            pieces.push(Seq::<u8>::empty())
        } else {
            pieces.drop_last().push(pieces.last().push(raw.last()))
        }
    }
}

/// The text so far with one more argument; empty arguments do not show.
pub open spec fn with_argument(line: Option<Seq<char>>, arg: Seq<u8>) -> Option<Seq<char>> {
    if arg.len() == 0 {
        line
    } else {
        match line {
            Some(t) => Some(t + " "@ + loose_text(arg)),
            None => Some(loose_text(arg)),
        }
    }
}

/// The arguments joined with spaces, if there is one that is not empty.
pub open spec fn joined(args: Seq<Seq<u8>>) -> Option<Seq<char>>
    decreases args.len(),
{
    if args.len() == 0 {
        None
    } else {
        with_argument(joined(args.drop_last()), args.last())
    }
}

/// The command line that a `cmdline` file holds: its NUL-separated arguments joined
/// with spaces.
pub open spec fn command_line(raw: Seq<u8>) -> Option<Seq<char>> {
    joined(nul_pieces(raw))
}

fn add_argument(line: Option<String>, arg: &[u8]) -> (r: Option<String>)
    ensures
        opt_text(r) == with_argument(opt_text(line), arg@),
{
    if arg.len() == 0 {
        return line;
    }
    let text = lossy_text(arg);
    match line {
        Some(mut t) => {
            t.append(" ");
            t.append(text.as_str());
            Some(t)
        },
        None => Some(text),
    }
}

impl ProcFs {
    /// Where the arguments of `pid` can be read.
    pub fn cmdline_path(pid: u32) -> (s: String)
        ensures
            s@ == "/proc/"@ + decimal(pid as nat) + "/cmdline"@,
    {
        let mut s = String::from_str("/proc/");
        s.append(decimal_text(pid as u64).as_str());
        s.append("/cmdline");
        s
    }

    /// Where the working directory of `pid` can be read.
    pub fn cwd_path(pid: u32) -> (s: String)
        ensures
            s@ == "/proc/"@ + decimal(pid as nat) + "/cwd"@,
    {
        let mut s = String::from_str("/proc/");
        s.append(decimal_text(pid as u64).as_str());
        s.append("/cwd");
        s
    }

    /// The command line, from what the `cmdline` file held if it could be read.
    pub fn cmdline(raw: Option<Vec<u8>>) -> (r: Option<String>)
        ensures
            opt_text(r) == (match raw {
                Some(raw) => command_line(raw@),
                None => None,
            }),
    {
        let raw = match raw {
            Some(raw) => raw,
            None => {
                return None;
            },
        };
        let bytes = raw.as_slice();
        let n = bytes.len();
        let mut line: Option<String> = None;
        let mut start: usize = 0;
        let mut i: usize = 0;
        proof {
            assert(bytes@.take(0) =~= Seq::<u8>::empty());
            assert(nul_pieces(bytes@.take(0)).drop_last() =~= Seq::<Seq<u8>>::empty());
            assert(bytes@.subrange(0, 0) =~= Seq::<u8>::empty());
        }
        while i < n
            invariant
                start <= i <= n,
                n == bytes@.len(),
                nul_pieces(bytes@.take(i as int)).len() > 0,
                nul_pieces(bytes@.take(i as int)).last() == bytes@.subrange(start as int, i as int),
                opt_text(line) == joined(nul_pieces(bytes@.take(i as int)).drop_last()),
            decreases n - i,
        {
            let ghost pieces = nul_pieces(bytes@.take(i as int));
            proof {
                assert(bytes@.take(i + 1).drop_last() =~= bytes@.take(i as int));
            }
            if bytes[i] == 0 {
                line = add_argument(line, slice_subrange(bytes, start, i));
                start = i + 1;
                proof {
                    assert(pieces.push(Seq::<u8>::empty()).drop_last() =~= pieces);
                    assert(bytes@.subrange(start as int, i + 1) =~= Seq::<u8>::empty());
                }
            } else {
                proof {
                    let grown = pieces.last().push(bytes@[i as int]);
                    assert(pieces.drop_last().push(grown).drop_last() =~= pieces.drop_last());
                    assert(grown =~= bytes@.subrange(start as int, i + 1));
                }
            }
            i += 1;
        }
        assert(bytes@.take(n as int) =~= raw@);
        add_argument(line, slice_subrange(bytes, start, n))
    }

    /// The working directory, from what the `cwd` link pointed to if it could be read.
    pub fn cwd(target: Option<Vec<u8>>) -> (r: Option<String>)
        ensures
            opt_text(r) == (match target {
                Some(t) => Some(loose_text(t@)),
                None => None,
            }),
    {
        match target {
            Some(t) => Some(lossy_text(t.as_slice())),
            None => None,
        }
    }
}

/// A `cmdline` file that is empty, or holds NUL bytes alone, yields no command line; one
/// that holds any other byte yields one.
pub proof fn a_command_line_needs_an_argument(raw: Seq<u8>)
    ensures
        command_line(raw) is Some <==> exists|i: int| 0 <= i < raw.len() && #[trigger] raw[i] != 0,
{
    lemma_nul_pieces(raw);
    lemma_joined(nul_pieces(raw));
    let pieces = nul_pieces(raw);
    if exists|i: int| 0 <= i < raw.len() && #[trigger] raw[i] != 0 {
        let i = choose|i: int| 0 <= i < raw.len() && #[trigger] raw[i] != 0;
        let k = choose|k: int| 0 <= k < pieces.len() && (#[trigger] pieces[k]).contains(raw[i]);
        assert(pieces[k].len() > 0);
    }
    if command_line(raw) is Some {
        let k = choose|k: int| 0 <= k < pieces.len() && (#[trigger] pieces[k]).len() > 0;
        assert(pieces[k].contains(pieces[k][0]));
    }
}

proof fn lemma_nul_pieces(raw: Seq<u8>)
    ensures
        nul_pieces(raw).len() > 0,
        forall|i: int|
            0 <= i < raw.len() && #[trigger] raw[i] != 0 ==> exists|k: int|
                0 <= k < nul_pieces(raw).len() && (#[trigger] nul_pieces(raw)[k]).contains(raw[i]),
        forall|k: int, b: u8|
            0 <= k < nul_pieces(raw).len() && #[trigger] nul_pieces(raw)[k].contains(b) ==> b != 0 && raw.contains(b),
    decreases raw.len(),
{
    if raw.len() > 0 {
        let before = raw.drop_last();
        let n = raw.len() - 1;
        lemma_nul_pieces(before);
        let p = nul_pieces(before);
        let q = nul_pieces(raw);
        let m = p.len() - 1;
        assert forall|i: int| 0 <= i < raw.len() && #[trigger] raw[i] != 0 implies exists|k: int|
            0 <= k < q.len() && (#[trigger] q[k]).contains(raw[i]) by {
            if i < n {
                assert(before[i] == raw[i]);
                let k = choose|k: int| 0 <= k < p.len() && (#[trigger] p[k]).contains(before[i]);
                let j = choose|j: int| 0 <= j < p[k].len() && p[k][j] == raw[i];
                assert(q[k][j] == raw[i]);
                assert(q[k].contains(raw[i]));
            } else {
                assert(q[m][p[m].len() as int] == raw[n]);
                assert(q[m].contains(raw[n]));
            }
        }
        assert forall|k: int, b: u8| 0 <= k < q.len() && #[trigger] q[k].contains(b) implies b != 0 && raw.contains(b) by {
            let j = choose|j: int| 0 <= j < q[k].len() && q[k][j] == b;
            if k < p.len() && j < p[k].len() {
                assert(p[k][j] == b);
                assert(p[k].contains(b));
                let i = choose|i: int| 0 <= i < before.len() && before[i] == b;
                assert(raw[i] == b);
            } else {
                assert(raw[n] == b);
            }
        }
    }
}

proof fn lemma_joined(args: Seq<Seq<u8>>)
    ensures
        joined(args) is Some <==> exists|k: int| 0 <= k < args.len() && (#[trigger] args[k]).len() > 0,
    decreases args.len(),
{
    if args.len() > 0 {
        let before = args.drop_last();
        let n = args.len() - 1;
        lemma_joined(before);
        if exists|k: int| 0 <= k < before.len() && (#[trigger] before[k]).len() > 0 {
            let k = choose|k: int| 0 <= k < before.len() && (#[trigger] before[k]).len() > 0;
            assert(args[k].len() > 0);
        }
        if args[n].len() == 0 && exists|k: int| 0 <= k < args.len() && (#[trigger] args[k]).len() > 0 {
            let k = choose|k: int| 0 <= k < args.len() && (#[trigger] args[k]).len() > 0;
            assert(before[k].len() > 0);
        }
    }
}

// ---------------------------------------------------------------------------
// The host
// ---------------------------------------------------------------------------

/// Host OS name. The agent only runs on Linux.
pub fn platform() -> (s: String)
    ensures
        s@ == "linux"@,
{
    "linux".to_owned()
}

/// The pipeline's name for a CPU architecture.
pub open spec fn normalized_arch(arch: Seq<char>) -> Seq<char> {
    if arch == "x86_64"@ {
        "amd64"@
    } else if arch == "aarch64"@ {
        "arm64"@
    } else {
        arch
    }
}

/// The CPU architecture that the agent was built for, in the pipeline's vocabulary
/// (`amd64`/`arm64`).
pub fn architecture(arch: &str) -> (s: String)
    ensures
        s@ == normalized_arch(arch@),
{
    if same_text(arch, "x86_64") {
        "amd64".to_owned()
    } else if same_text(arch, "aarch64") {
        "arm64".to_owned()
    } else {
        arch.to_owned()
    }
}

/// The version that a tool's answer names: the first line, trimmed, unless nothing is
/// left.
pub open spec fn version_line(text: Seq<char>) -> Option<Seq<char>> {
    let line = trimmed(text.take(first_index(text, '\n')));
    if line.len() > 0 {
        Some(line)
    } else {
        None
    }
}

/// The version that came of probing a tool.
pub open spec fn probed_version(out: Option<CommandOutput>) -> Option<Seq<char>> {
    match output_bytes(out) {
        Some(bytes) => version_line(loose_text(bytes)),
        None => None,
    }
}

/// The version that came of probing a tool.
pub fn probe(out: Option<CommandOutput>) -> (r: Option<String>)
    ensures
        opt_text(r) == probed_version(out),
{
    match stdout_of(out) {
        None => None,
        Some(bytes) => first_line(lossy_text(bytes.as_slice()).as_str()),
    }
}

/// The first line of a tool's answer, trimmed, unless nothing is left.
pub fn first_line(text: &str) -> (r: Option<String>)
    ensures
        opt_text(r) == version_line(text@),
{
    let v = chars_of(text);
    let end = find_char(&v, '\n');
    assert(v@.subrange(0, end as int) =~= text@.take(end as int));
    let line = trim_chars(&v, 0, end);
    if line.as_str().is_empty() {
        None
    } else {
        Some(line)
    }
}

/// The `node` binary, and the argument that makes it tell its version.
pub const NODE_PROBE: (&'static str, &'static str) = ("node", "--version");

/// The `go` binary, and the argument that makes it tell its version.
pub const GO_PROBE: (&'static str, &'static str) = ("go", "version");

/// The map with one more version, if it is known.
pub open spec fn with_version(
    m: Map<Seq<char>, Seq<char>>,
    tool: Seq<char>,
    version: Option<Seq<char>>,
) -> Map<Seq<char>, Seq<char>> {
    match version {
        Some(v) => m.insert(tool, v),
        None => m,
    }
}

/// The versions that are known, if any is.
pub open spec fn known_versions(node: Option<Seq<char>>, go: Option<Seq<char>>) -> Option<Map<Seq<char>, Seq<char>>> {
    if node is None && go is None {
        None
    } else {
        Some(with_version(with_version(Map::empty(), "node"@, node), "go"@, go))
    }
}

/// The toolchain versions, from what came of probing `node` and `go`. Gives `None` when
/// nothing was resolvable rather than guessing.
pub fn tool_versions(node: Option<CommandOutput>, go: Option<CommandOutput>) -> (r: Option<StrMap<String>>)
    ensures
        text_map(r) == known_versions(probed_version(node), probed_version(go)),
{
    let mut m: StrMap<String> = StrMap::new();
    let mut any = false;
    assert(m@.map_values(|s: String| s@) =~= Map::<Seq<char>, Seq<char>>::empty());
    if let Some(v) = probe(node) {
        let ghost before = m@;
        let ghost t = v@;
        m.insert("node".to_owned(), v);
        any = true;
        assert(m@.map_values(|s: String| s@) =~= before.map_values(|s: String| s@).insert("node"@, t));
    }
    if let Some(v) = probe(go) {
        let ghost before = m@;
        let ghost t = v@;
        m.insert("go".to_owned(), v);
        any = true;
        assert(m@.map_values(|s: String| s@) =~= before.map_values(|s: String| s@).insert("go"@, t));
    }
    if any {
        Some(m)
    } else {
        None
    }
}

/// What two command lines make together: one after the other with a space between them, or
/// the one that there is.
pub open spec fn side_by_side(a: Option<Seq<char>>, b: Option<Seq<char>>) -> Option<Seq<char>> {
    if a is Some && b is Some {
        Some(a->0 + " "@ + b->0)
    } else if a is Some {
        a
    } else {
        b
    }
}

/// A command line is read argument by argument: what stands before a NUL byte and what stands
/// after it are read on their own, and a space is put between them. What holds no NUL byte is
/// one argument, or none when it is empty.
pub proof fn a_command_line_is_read_argument_by_argument(a: Seq<u8>, b: Seq<u8>)
    ensures
        command_line(a.push(0) + b) == side_by_side(command_line(a), command_line(b)),
        !a.contains(0) && a.len() > 0 ==> command_line(a) == Some(loose_text(a)),
        a.len() == 0 ==> command_line(a) is None,
{
    lemma_pieces_apart(a, b);
    lemma_joined_apart(nul_pieces(a), nul_pieces(b));
    if !a.contains(0) {
        lemma_one_piece(a);
        let one = seq![a];
        assert(one.drop_last() =~= Seq::<Seq<u8>>::empty());
        assert(one.last() == a);
        assert(joined(one.drop_last()) is None);
        assert(joined(one) == with_argument(None, a));
    }
    if a.len() == 0 {
        assert(!a.contains(0));
    }
}

proof fn lemma_one_piece(a: Seq<u8>)
    requires
        !a.contains(0),
    ensures
        nul_pieces(a) == seq![a],
    decreases a.len(),
{
    if a.len() > 0 {
        let t = a.drop_last();
        assert forall|b: u8| t.contains(b) implies a.contains(b) by {
            let i = choose|i: int| 0 <= i < t.len() && t[i] == b;
            assert(a[i] == b);
        }
        lemma_one_piece(t);
        assert(a[a.len() - 1] == a.last());
        assert(t.push(a.last()) =~= a);
        assert(nul_pieces(a) =~= seq![a]);
    } else {
        assert(a =~= Seq::<u8>::empty());
        assert(nul_pieces(a) =~= seq![a]);
    }
}

proof fn lemma_pieces_apart(a: Seq<u8>, b: Seq<u8>)
    ensures
        nul_pieces(a.push(0) + b) == nul_pieces(a) + nul_pieces(b),
        nul_pieces(b).len() > 0,
    decreases b.len(),
{
    let s = a.push(0) + b;
    if b.len() == 0 {
        assert(s =~= a.push(0));
        assert(s.drop_last() =~= a);
        assert(nul_pieces(s) =~= nul_pieces(a) + nul_pieces(b));
    } else {
        let t = b.drop_last();
        lemma_pieces_apart(a, t);
        assert(s.drop_last() =~= a.push(0) + t);
        assert(s.last() == b.last());
        let (p, q) = (nul_pieces(a), nul_pieces(t));
        assert((p + q).drop_last() =~= p + q.drop_last());
        assert((p + q).last() == q.last());
        assert(nul_pieces(s) =~= p + nul_pieces(b));
    }
}

proof fn lemma_joined_apart(p: Seq<Seq<u8>>, q: Seq<Seq<u8>>)
    ensures
        joined(p + q) == side_by_side(joined(p), joined(q)),
    decreases q.len(),
{
    if q.len() == 0 {
        assert(p + q =~= p);
    } else {
        let t = q.drop_last();
        lemma_joined_apart(p, t);
        assert((p + q).drop_last() =~= p + t);
        assert((p + q).last() == q.last());
        let (x, y, arg) = (joined(p), joined(t), q.last());
        if arg.len() > 0 && x is Some && y is Some {
            let z = loose_text(arg);
            assert((x->0 + " "@ + y->0) + " "@ + z =~= x->0 + " "@ + (y->0 + " "@ + z));
        }
    }
}

/// The two architectures with a name of their own get it, and every other one keeps its name.
pub proof fn architectures_get_the_pipelines_names(arch: Seq<char>)
    ensures
        arch == "x86_64"@ ==> normalized_arch(arch) == "amd64"@,
        arch == "aarch64"@ ==> normalized_arch(arch) == "arm64"@,
        arch != "x86_64"@ && arch != "aarch64"@ ==> normalized_arch(arch) == arch,
{
    reveal_strlit("x86_64");
    reveal_strlit("aarch64");
    assert("x86_64"@[0] != "aarch64"@[0]);
}

/// A version is the first line of the answer, without the white space around it, whatever
/// follows that line; a blank first line is no version.
pub proof fn a_version_is_the_first_line(line: Seq<char>, rest: Seq<char>)
    requires
        !line.contains('\n'),
    ensures
        trimmed(line).len() > 0 ==> version_line(line) == Some(trimmed(line)) && version_line(line.push('\n') + rest)
            == Some(trimmed(line)),
        trimmed(line).len() == 0 ==> version_line(line) is None && version_line(line.push('\n') + rest) is None,
{
    let text = line.push('\n') + rest;
    lemma_first_index(line, '\n');
    lemma_first_index(text, '\n');
    let (i, k) = (first_index(line, '\n'), first_index(text, '\n'));
    if i < line.len() {
        assert(line[i] == '\n');
    }
    if k < line.len() {
        assert(text[k] == line[k]);
        assert(line.contains('\n'));
    }
    if k > line.len() {
        assert(text[line.len() as int] == '\n');
    }
    assert(line.take(i) =~= line);
    assert(text.take(k) =~= line);
}

/// Each tool's version is known exactly when its own probe succeeded, under its own name;
/// without any there is no list.
pub proof fn every_known_version_is_listed(node: Option<Seq<char>>, go: Option<Seq<char>>, tool: Seq<char>)
    ensures
        known_versions(node, go) is None <==> node is None && go is None,
        known_versions(node, go) matches Some(m) ==> {
            &&& m.contains_key("node"@) <==> node is Some
            &&& node is Some ==> m["node"@] == node->0
            &&& m.contains_key("go"@) <==> go is Some
            &&& go is Some ==> m["go"@] == go->0
            &&& tool != "node"@ && tool != "go"@ ==> !m.contains_key(tool)
        },
{
    reveal_strlit("node");
    reveal_strlit("go");
    assert("node"@.len() != "go"@.len());
}

/// A probe tells a version only when the tool ran and succeeded.
pub proof fn a_failed_probe_tells_no_version(out: CommandOutput)
    ensures
        probed_version(None) is None,
        !out.success ==> probed_version(Some(out)) is None,
        out.success ==> probed_version(Some(out)) == version_line(loose_text(out.stdout@)),
{
}

} // verus!
