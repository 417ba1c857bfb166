//! Content hashing.
//!
//! Produces a `sha256:<64 lowercase hex>` digest for every in-scope file. Tracked
//! source inputs are hashed over their git-blob-normalized content, so that
//! checkout-time line-ending and LFS differences do not break the join; generated
//! outputs are hashed as raw bytes. There is no non-hashing mode: the only variation
//! is the tier.
//!
//! Reading files and running `git` is left to the caller: a [`HashJob`] says what to
//! do next and is told what came of it.

use vstd::prelude::*;

use crate::command::{answer, answer_of, git_in, opt_bytes, push_words};
use crate::detect::{bpf_lsm_available, lists_bpf};
use crate::text::{opt_text, texts};

verus! {

// ---------------------------------------------------------------------------
// Digests
// ---------------------------------------------------------------------------

/// The achieved hash fidelity tier. Both tiers hash real content; the tier sets only
/// the grade. `kernel_atomic` is whether the build enables the kernel-atomic tier,
/// `lsm` the kernel's list of security modules if it could be read.
pub fn hash_tier(kernel_atomic: bool, lsm: Option<&str>) -> (r: &'static str)
    ensures
        r@ == (if kernel_atomic && lsm is Some && lists_bpf(lsm->0@) {
            "kernel-atomic"@
        } else {
            "userspace-hashed"@
        }),
{
    if kernel_atomic && bpf_lsm_available(lsm) {
        "kernel-atomic"
    } else {
        "userspace-hashed"
    }
}

/// `sha2::Sha256::digest`: the SHA-256 digest of the bytes.
pub uninterp spec fn sha256(bytes: Seq<u8>) -> Seq<u8>;

/// `sha2::Sha256::digest`: the digest depends on the bytes alone.
#[verifier::external_body]
fn sha256_digest(bytes: &[u8]) -> (d: [u8; 32])
    ensures
        d@ == sha256(bytes@),
{
    <sha2::Sha256 as sha2::Digest>::digest(bytes).into()
}

/// The lowercase hexadecimal digit for `d < 16`.
pub open spec fn hex_digit(d: u8) -> char {
    if d < 10 {
        ('0' as u32 + d) as char
    } else {
        ('a' as u32 + (d - 10)) as char
    }
}

/// Bytes in lowercase hexadecimal, two digits each.
pub open spec fn hex(bytes: Seq<u8>) -> Seq<char>
    decreases bytes.len(),
{
    if bytes.len() == 0 {
        Seq::empty()
    } else {
        hex(bytes.drop_last()).push(hex_digit(bytes.last() / 16)).push(hex_digit(bytes.last() % 16))
    }
}

/// The canonical digest of some content.
pub open spec fn digest_text(bytes: Seq<u8>) -> Seq<char> {
    "sha256:"@ + hex(sha256(bytes))
}

/// Whether `c` is a lowercase hexadecimal digit.
pub open spec fn lower_hex(c: char) -> bool {
    '0' <= c <= '9' || 'a' <= c <= 'f'
}

/// Whether `s` is `sha256:` and 64 lowercase hexadecimal digits.
pub open spec fn digest_shaped(s: Seq<char>) -> bool {
    &&& s.len() == 71
    &&& s.take(7) == "sha256:"@
    &&& forall|i: int| 7 <= i < 71 ==> lower_hex(#[trigger] s[i])
}

fn hex_char(d: u8) -> (c: char)
    requires
        d < 16,
    ensures
        c == hex_digit(d),
{
    if d < 10 {
        (48 + d) as char
    } else {
        (97 + (d - 10)) as char
    }
}

/// Format raw bytes as the canonical `sha256:` digest.
pub fn sha256_of(bytes: &[u8]) -> (s: String)
    ensures
        s@ == digest_text(bytes@),
        digest_shaped(s@),
{
    let d = sha256_digest(bytes);
    let mut s = String::from_str("sha256:");
    let mut i: usize = 0;
    assert(hex(d@.take(0)) =~= Seq::<char>::empty());
    while i < 32
        invariant
            i <= 32,
            d@.len() == 32,
            s@ == "sha256:"@ + hex(d@.take(i as int)),
        decreases 32 - i,
    {
        let b = d[i];
        s.push(hex_char(b / 16));
        s.push(hex_char(b % 16));
        i += 1;
        proof {
            assert(d@.take(i as int).drop_last() =~= d@.take(i - 1));
            assert(s@ =~= "sha256:"@ + hex(d@.take(i as int)));
        }
    }
    proof {
        assert(d@.take(32) =~= d@);
        lemma_hex(d@);
        reveal_strlit("sha256:");
        assert(s@.take(7) =~= "sha256:"@);
        assert forall|i: int| 7 <= i < 71 implies lower_hex(#[trigger] s@[i]) by {
            assert(s@[i] == hex(d@)[i - 7]);
        }
    }
    s
}

proof fn lemma_hex(bytes: Seq<u8>)
    ensures
        hex(bytes).len() == 2 * bytes.len(),
        forall|i: int| 0 <= i < hex(bytes).len() ==> lower_hex(#[trigger] hex(bytes)[i]),
    decreases bytes.len(),
{
    if bytes.len() > 0 {
        lemma_hex(bytes.drop_last());
    }
}

proof fn lemma_hex_digit(a: u8, b: u8)
    requires
        a < 16,
        b < 16,
        hex_digit(a) == hex_digit(b),
    ensures
        a == b,
{
}

/// Two contents carry the same digest text exactly when they have the same digest; in
/// particular the same bytes always carry the same text.
pub proof fn contents_are_told_apart_by_their_digest(a: Seq<u8>, b: Seq<u8>)
    ensures
        digest_text(a) == digest_text(b) <==> sha256(a) == sha256(b),
        a == b ==> digest_text(a) == digest_text(b),
{
    lemma_hex_apart(sha256(a), sha256(b));
    if digest_text(a) == digest_text(b) {
        let n = "sha256:"@.len() as int;
        assert(digest_text(a).skip(n) =~= hex(sha256(a)));
        assert(digest_text(b).skip(n) =~= hex(sha256(b)));
    }
}

proof fn lemma_hex_apart(a: Seq<u8>, b: Seq<u8>)
    ensures
        hex(a) == hex(b) <==> a == b,
    decreases a.len(),
{
    lemma_hex(a);
    lemma_hex(b);
    if hex(a) == hex(b) {
        assert(a.len() == b.len());
        if a.len() > 0 {
            let (x, y) = (hex(a), hex(b));
            let n = x.len() as int;
            assert(x[n - 1] == y[n - 1] && x[n - 2] == y[n - 2]);
            lemma_hex_digit(a.last() / 16, b.last() / 16);
            lemma_hex_digit(a.last() % 16, b.last() % 16);
            assert(a.last() == b.last());
            assert(x.take(n - 2) =~= hex(a.drop_last()));
            assert(y.take(n - 2) =~= hex(b.drop_last()));
            lemma_hex_apart(a.drop_last(), b.drop_last());
            assert(a =~= a.drop_last().push(a.last()));
            assert(b =~= b.drop_last().push(b.last()));
        } else {
            assert(a =~= b);
        }
    }
}

// ---------------------------------------------------------------------------
// Hashing one file
// ---------------------------------------------------------------------------

/// `std::path::Path::strip_prefix`: what is left of `path` below `base`, if `base` is
/// a prefix of it by whole components.
pub uninterp spec fn path_below(path: Seq<char>, base: Seq<char>) -> Option<Seq<char>>;

/// `std::path::Path::strip_prefix` on Unix paths: what it gives depends on the two
/// texts alone. How separators and dots are folded is left to the name.
#[verifier::external_body]
fn strip_base(path: &str, base: &str) -> (r: Option<String>)
    ensures
        opt_text(r) == path_below(path@, base@),
{
    let rest = std::path::Path::new(path).strip_prefix(base).ok()?;
    Some(rest.to_string_lossy().into_owned())
}

/// `s` with every backslash turned forward.
pub open spec fn forward_slashes(s: Seq<char>) -> Seq<char> {
    s.map_values(|c: char| if c == '\\' { '/' } else { c })
}

fn turn_slashes(s: &str) -> (r: String)
    ensures
        r@ == forward_slashes(s@),
{
    let mut r = String::new();
    for c in it: s.chars()
        invariant
            it.seq() == s@,
            r@ == forward_slashes(s@.take(it.index() as int)),
    {
        r.push(if c == '\\' { '/' } else { c });
        assert(r@ =~= forward_slashes(s@.take(it.index() + 1)));
    }
    assert(s@.take(s@.len() as int) =~= s@);
    r
}

/// Computes content hashes for one operation's files, rooted at a repository.
#[derive(Clone, Debug)]
pub struct Hasher {
    pub repo_root: String,
    /// Whether `git` plumbing is usable for this repository (probed once).
    pub git_available: bool,
}

/// A file in scope that could not be read for hashing.
#[derive(Clone, Debug, PartialEq, Eq)]
pub struct Unreadable {
    pub path: String,
}

/// Where the hashing of one file stands.
#[derive(Clone, Debug)]
pub enum Stage {
    /// Asking `git` whether the file, relative to the repository, is tracked.
    Listed(String),
    /// Asking `git` to store the normalized content of the file.
    Oid(String),
    /// Asking `git` for the content of the stored object.
    Blob(String),
    /// Reading the raw bytes.
    Raw,
    /// Hashed, or found to be unreadable.
    Done(Option<String>),
}

/// The hashing of one file.
#[derive(Clone, Debug)]
pub struct HashJob {
    pub repo_root: String,
    pub path: String,
    pub stage: Stage,
}

/// What to do next for a [`HashJob`].
#[derive(Debug)]
pub enum HashAction {
    /// Run `git` with these arguments; reply with its output if it succeeds.
    Git(Vec<String>),
    /// Read this file; reply with its bytes if it can be read.
    Read(String),
    /// Nothing more to do.
    Done(Result<String, Unreadable>),
}

/// What a [`Stage`] says.
pub enum StageView {
    Listed(Seq<char>),
    Oid(Seq<char>),
    Blob(Seq<char>),
    Raw,
    Done(Option<Seq<char>>),
}

/// What a [`HashJob`] says.
pub struct JobView {
    pub repo_root: Seq<char>,
    pub path: Seq<char>,
    pub stage: StageView,
}

/// What a [`HashAction`] says.
pub enum ActionView {
    Git(Seq<Seq<char>>),
    Read(Seq<char>),
    Done(Option<Seq<char>>),
}

impl View for Stage {
    type V = StageView;

    open spec fn view(&self) -> StageView {
        match *self {
            Stage::Listed(rel) => StageView::Listed(rel@),
            Stage::Oid(rel) => StageView::Oid(rel@),
            Stage::Blob(oid) => StageView::Blob(oid@),
            Stage::Raw => StageView::Raw,
            Stage::Done(d) => StageView::Done(opt_text(d)),
        }
    }
}

impl View for HashJob {
    type V = JobView;

    open spec fn view(&self) -> JobView {
        JobView { repo_root: self.repo_root@, path: self.path@, stage: self.stage@ }
    }
}

/// The digest that a finished job found, if any.
pub open spec fn found(r: Result<String, Unreadable>) -> Option<Seq<char>> {
    match r {
        Ok(d) => Some(d@),
        Err(_) => None,
    }
}

impl View for HashAction {
    type V = ActionView;

    open spec fn view(&self) -> ActionView {
        match *self {
            HashAction::Git(args) => ActionView::Git(texts(args@)),
            HashAction::Read(path) => ActionView::Read(path@),
            HashAction::Done(r) => ActionView::Done(found(r)),
        }
    }
}

/// The arguments that ask `git` whether `rel` is tracked.
pub open spec fn tracked_args(root: Seq<char>, rel: Seq<char>) -> Seq<Seq<char>> {
    git_in(root, seq!["ls-files"@, "--error-unmatch"@, "--"@, rel])
}

/// The arguments that make `git` store `path` as it would store `rel`, with the
/// filters that apply to it, and answer with the object's name.
pub open spec fn oid_args(root: Seq<char>, rel: Seq<char>, path: Seq<char>) -> Seq<Seq<char>> {
    git_in(root, seq!["hash-object"@, "-w"@, "--path"@, rel, "--"@, path])
}

/// The arguments that make `git` answer with the content of an object.
pub open spec fn blob_args(root: Seq<char>, oid: Seq<char>) -> Seq<Seq<char>> {
    git_in(root, seq!["cat-file"@, "blob"@, oid])
}

/// The arguments that ask `git` whether `root` lies in a work tree.
pub open spec fn probe_args(root: Seq<char>) -> Seq<Seq<char>> {
    git_in(root, seq!["rev-parse"@, "--is-inside-work-tree"@])
}

impl JobView {
    /// What to do next.
    pub open spec fn action(self) -> ActionView {
        match self.stage {
            StageView::Listed(rel) => ActionView::Git(tracked_args(self.repo_root, rel)),
            StageView::Oid(rel) => ActionView::Git(oid_args(self.repo_root, rel, self.path)),
            StageView::Blob(oid) => ActionView::Git(blob_args(self.repo_root, oid)),
            StageView::Raw => ActionView::Read(self.path),
            StageView::Done(d) => ActionView::Done(d),
        }
    }

    /// Whether the digest of the job, once it is found, has the shape of a digest.
    pub open spec fn well_hashed(self) -> bool {
        self.stage matches StageView::Done(Some(d)) ==> digest_shaped(d)
    }

    /// The job at another stage.
    pub open spec fn at(self, stage: StageView) -> JobView {
        JobView { stage, ..self }
    }

    /// The job after the reply to its action. A tracked file is stored by `git` and
    /// read back; whenever `git` does not help, the raw bytes are read instead.
    pub open spec fn after(self, reply: Option<Seq<u8>>) -> JobView {
        match self.stage {
            StageView::Listed(rel) => if reply is Some {
                self.at(StageView::Oid(rel))
            } else {
                self.at(StageView::Raw)
            },
            StageView::Oid(_) => if reply is Some && answer(reply->0) is Some {
                self.at(StageView::Blob(answer(reply->0)->0))
            } else {
                self.at(StageView::Raw)
            },
            StageView::Blob(_) => if reply is Some {
                self.at(StageView::Done(Some(digest_text(reply->0))))
            } else {
                self.at(StageView::Raw)
            },
            StageView::Raw => if reply is Some {
                self.at(StageView::Done(Some(digest_text(reply->0))))
            } else {
                self.at(StageView::Done(None))
            },
            StageView::Done(_) => self,
        }
    }
}

/// The file's path in the repository, if it lies there.
pub open spec fn relative(root: Seq<char>, path: Seq<char>) -> Option<Seq<char>> {
    match path_below(path, root) {
        Some(rest) => Some(forward_slashes(rest)),
        None => None,
    }
}

/// How the hashing of an input begins.
pub open spec fn input_job(root: Seq<char>, git_available: bool, path: Seq<char>) -> JobView {
    JobView {
        repo_root: root,
        path,
        stage: if git_available && relative(root, path) is Some {
            StageView::Listed(relative(root, path)->0)
        } else {
            StageView::Raw
        },
    }
}

/// How the hashing of an output begins.
pub open spec fn output_job(root: Seq<char>, path: Seq<char>) -> JobView {
    JobView { repo_root: root, path, stage: StageView::Raw }
}

fn git_args(root: &str, words: &[&str]) -> (r: Vec<String>)
    ensures
        texts(r@) == git_in(root@, words@.map_values(|w: &str| w@)),
{
    let mut args: Vec<String> = Vec::new();
    push_words(&mut args, &["-C", root]);
    push_words(&mut args, words);
    proof {
        let ghost head = seq!["-C"@, root@];
        assert(texts(Seq::<String>::empty()) + head =~= head);
    }
    args
}

impl Hasher {
    /// The arguments with which to ask `git` whether it is usable at `repo_root`.
    pub fn probe(repo_root: &str) -> (args: Vec<String>)
        ensures
            texts(args@) == probe_args(repo_root@),
    {
        let args = git_args(repo_root, &["rev-parse", "--is-inside-work-tree"]);
        assert(texts(args@) =~= probe_args(repo_root@));
        args
    }

    /// A hasher for the repository at `repo_root`, given what came of the probe.
    pub fn new(repo_root: String, probed: Option<Vec<u8>>) -> (h: Self)
        ensures
            h.repo_root == repo_root,
            h.git_available == (probed is Some),
    {
        Hasher { repo_root, git_available: probed.is_some() }
    }

    /// Hash an input (read) file. Tracked source files are normalized via git;
    /// everything else falls back to raw bytes.
    pub fn hash_input(&self, abs_path: &str) -> (job: HashJob)
        ensures
            job@ == input_job(self.repo_root@, self.git_available, abs_path@),
    {
        let mut stage = Stage::Raw;
        if self.git_available {
            if let Some(rel) = self.rel_path(abs_path) {
                stage = Stage::Listed(rel);
            }
        }
        HashJob { repo_root: self.repo_root.clone(), path: abs_path.to_owned(), stage }
    }

    /// Hash an output (written or created) file as raw, finalized bytes.
    pub fn hash_output(&self, abs_path: &str) -> (job: HashJob)
        ensures
            job@ == output_job(self.repo_root@, abs_path@),
    {
        HashJob { repo_root: self.repo_root.clone(), path: abs_path.to_owned(), stage: Stage::Raw }
    }

    /// The file's path in the repository, if it lies there.
    pub fn rel_path(&self, abs_path: &str) -> (r: Option<String>)
        ensures
            opt_text(r) == relative(self.repo_root@, abs_path@),
    {
        match strip_base(abs_path, self.repo_root.as_str()) {
            Some(rest) => Some(turn_slashes(rest.as_str())),
            None => None,
        }
    }
}

impl HashJob {
    /// What to do next.
    pub fn next(&self) -> (a: HashAction)
        ensures
            a@ == self@.action(),
            a matches HashAction::Done(Err(e)) ==> e.path@ == self@.path,
    {
        let root = self.repo_root.as_str();
        match &self.stage {
            Stage::Listed(rel) => {
                let args = git_args(root, &["ls-files", "--error-unmatch", "--", rel.as_str()]);
                assert(texts(args@) =~= tracked_args(root@, rel@));
                HashAction::Git(args)
            },
            Stage::Oid(rel) => {
                let args = git_args(
                    root,
                    &["hash-object", "-w", "--path", rel.as_str(), "--", self.path.as_str()],
                );
                assert(texts(args@) =~= oid_args(root@, rel@, self.path@));
                HashAction::Git(args)
            },
            Stage::Blob(oid) => {
                let args = git_args(root, &["cat-file", "blob", oid.as_str()]);
                assert(texts(args@) =~= blob_args(root@, oid@));
                HashAction::Git(args)
            },
            Stage::Raw => HashAction::Read(self.path.clone()),
            Stage::Done(Some(d)) => HashAction::Done(Ok(d.clone())),
            Stage::Done(None) => HashAction::Done(Err(Unreadable { path: self.path.clone() })),
        }
    }

    /// Go on with the reply to the action: the output or the bytes, or nothing when
    /// the command failed or the file could not be read.
    pub fn reply(&mut self, reply: Option<Vec<u8>>)
        ensures
            final(self)@ == old(self)@.after(opt_bytes(reply)),
            old(self)@.well_hashed() ==> final(self)@.well_hashed(),
    {
        let stage = match &self.stage {
            Stage::Listed(rel) => match reply {
                Some(_) => Stage::Oid(rel.clone()),
                None => Stage::Raw,
            },
            Stage::Oid(_) => match reply {
                Some(out) => match answer_of(out) {
                    Some(oid) => Stage::Blob(oid),
                    None => Stage::Raw,
                },
                None => Stage::Raw,
            },
            Stage::Blob(_) => match reply {
                Some(out) => Stage::Done(Some(sha256_of(out.as_slice()))),
                None => Stage::Raw,
            },
            Stage::Raw => match reply {
                Some(bytes) => Stage::Done(Some(sha256_of(bytes.as_slice()))),
                None => Stage::Done(None),
            },
            Stage::Done(_) => {
                return;
            },
        };
        self.stage = stage;
    }
}

// ---------------------------------------------------------------------------
// What a whole job gives
// ---------------------------------------------------------------------------

/// How many replies a job still needs at most.
pub open spec fn replies_left(stage: StageView) -> nat {
    match stage {
        StageView::Listed(_) => 4,
        StageView::Oid(_) => 3,
        StageView::Blob(_) => 2,
        StageView::Raw => 1,
        StageView::Done(_) => 0,
    }
}

/// A job comes to an end: every reply brings it nearer, whatever the reply is.
pub proof fn every_reply_brings_a_job_nearer_its_end(job: JobView, reply: Option<Seq<u8>>)
    ensures
        replies_left(job.stage) > 0 ==> replies_left(job.after(reply).stage) < replies_left(job.stage),
        replies_left(job.stage) == 0 <==> job.stage is Done,
        job.stage is Done ==> job.after(reply) == job,
{
}

/// The reply that a host gives to an action: what `git` writes when run with some
/// arguments, and what a file holds.
pub open spec fn host_reply(
    git: spec_fn(Seq<Seq<char>>) -> Option<Seq<u8>>,
    file: spec_fn(Seq<char>) -> Option<Seq<u8>>,
    action: ActionView,
) -> Option<Seq<u8>> {
    match action {
        ActionView::Git(args) => git(args),
        ActionView::Read(path) => file(path),
        ActionView::Done(_) => None,
    }
}

/// The job after `steps` replies of a host.
pub open spec fn run_job(
    job: JobView,
    git: spec_fn(Seq<Seq<char>>) -> Option<Seq<u8>>,
    file: spec_fn(Seq<char>) -> Option<Seq<u8>>,
    steps: nat,
) -> JobView
    decreases steps,
{
    if steps == 0 {
        job
    } else {
        run_job(job.after(host_reply(git, file, job.action())), git, file, (steps - 1) as nat)
    }
}

/// The content of a tracked file as `git` stores it, when `git` can tell.
pub open spec fn normalized(
    git: spec_fn(Seq<Seq<char>>) -> Option<Seq<u8>>,
    root: Seq<char>,
    rel: Seq<char>,
    path: Seq<char>,
) -> Option<Seq<u8>> {
    match git(oid_args(root, rel, path)) {
        Some(out) => match answer(out) {
            Some(oid) => git(blob_args(root, oid)),
            None => None,
        },
        None => None,
    }
}

/// The content over which an input is hashed: the normalized content of a tracked
/// file, and the raw bytes of any other.
pub open spec fn input_content(
    git: spec_fn(Seq<Seq<char>>) -> Option<Seq<u8>>,
    file: spec_fn(Seq<char>) -> Option<Seq<u8>>,
    root: Seq<char>,
    git_available: bool,
    path: Seq<char>,
) -> Option<Seq<u8>> {
    let rel = relative(root, path);
    if git_available && rel is Some && git(tracked_args(root, rel->0)) is Some && normalized(
        git,
        root,
        rel->0,
        path,
    ) is Some {
        normalized(git, root, rel->0, path)
    } else {
        file(path)
    }
}

/// The digest of some content, if there is content.
pub open spec fn opt_digest(content: Option<Seq<u8>>) -> Option<Seq<char>> {
    match content {
        Some(bytes) => Some(digest_text(bytes)),
        None => None,
    }
}

/// An input is hashed over the content that `git` stores for it when it is tracked
/// and `git` can tell, and over its raw bytes otherwise; it is given up only when
/// the raw bytes cannot be read either. Four replies suffice.
pub proof fn an_input_is_hashed_as_git_stores_it(
    git: spec_fn(Seq<Seq<char>>) -> Option<Seq<u8>>,
    file: spec_fn(Seq<char>) -> Option<Seq<u8>>,
    root: Seq<char>,
    git_available: bool,
    path: Seq<char>,
)
    ensures
        run_job(input_job(root, git_available, path), git, file, 4).stage == StageView::Done(
            opt_digest(input_content(git, file, root, git_available, path)),
        ),
{
    reveal_with_fuel(run_job, 5);
}

/// An output is hashed over its raw bytes, and `git` is never asked about it.
pub proof fn an_output_is_hashed_as_it_is(
    git: spec_fn(Seq<Seq<char>>) -> Option<Seq<u8>>,
    file: spec_fn(Seq<char>) -> Option<Seq<u8>>,
    root: Seq<char>,
    path: Seq<char>,
)
    ensures
        output_job(root, path).action() == ActionView::Read(path),
        run_job(output_job(root, path), git, file, 1).stage == StageView::Done(opt_digest(file(path))),
{
    reveal_with_fuel(run_job, 2);
}

/// The number that a hexadecimal digit stands for.
pub open spec fn hex_value(c: char) -> int {
    if '0' <= c <= '9' {
        c as int - '0' as int
    } else {
        c as int - 'a' as int + 10
    }
}

/// Every byte is written as two digits in its own place, the high half first.
pub proof fn every_byte_is_two_digits(bytes: Seq<u8>, i: int)
    requires
        0 <= i < bytes.len(),
    ensures
        hex(bytes).len() == 2 * bytes.len(),
        lower_hex(hex(bytes)[2 * i]) && lower_hex(hex(bytes)[2 * i + 1]),
        16 * hex_value(hex(bytes)[2 * i]) + hex_value(hex(bytes)[2 * i + 1]) == bytes[i],
    decreases bytes.len(),
{
    lemma_hex(bytes);
    let t = bytes.drop_last();
    lemma_hex(t);
    if i < t.len() {
        every_byte_is_two_digits(t, i);
        assert(hex(bytes)[2 * i] == hex(t)[2 * i]);
        assert(hex(bytes)[2 * i + 1] == hex(t)[2 * i + 1]);
    } else {
        let b = bytes.last();
        assert(hex(bytes)[2 * i] == hex_digit(b / 16));
        assert(hex(bytes)[2 * i + 1] == hex_digit(b % 16));
    }
}

/// The digest of some content is `sha256:` and the hexadecimal digits of its SHA-256, and of
/// nothing else.
pub proof fn a_digest_names_the_sha256_of_the_content(bytes: Seq<u8>)
    ensures
        digest_text(bytes).len() == 7 + 2 * sha256(bytes).len(),
        digest_text(bytes).take(7) == seq!['s', 'h', 'a', '2', '5', '6', ':'],
        digest_text(bytes).skip(7) == hex(sha256(bytes)),
{
    reveal_strlit("sha256:");
    lemma_hex(sha256(bytes));
    assert("sha256:"@ =~= seq!['s', 'h', 'a', '2', '5', '6', ':']);
    assert(digest_text(bytes).take(7) =~= "sha256:"@);
    assert(digest_text(bytes).skip(7) =~= hex(sha256(bytes)));
}

/// What `git` is asked about a file, step by step: whether the repository at `root` has it,
/// to store it as it stores that path, and for the stored object. Then, or when `git` is of
/// no use, the file itself is read.
pub proof fn git_is_asked_step_by_step(job: JobView, word: Seq<char>)
    ensures
        job.stage == StageView::Listed(word) ==> job.action() == ActionView::Git(
            seq!["-C"@, job.repo_root, "ls-files"@, "--error-unmatch"@, "--"@, word],
        ),
        job.stage == StageView::Oid(word) ==> job.action() == ActionView::Git(
            seq!["-C"@, job.repo_root, "hash-object"@, "-w"@, "--path"@, word, "--"@, job.path],
        ),
        job.stage == StageView::Blob(word) ==> job.action() == ActionView::Git(
            seq!["-C"@, job.repo_root, "cat-file"@, "blob"@, word],
        ),
        job.stage is Raw ==> job.action() == ActionView::Read(job.path),
        probe_args(word) == seq!["-C"@, word, "rev-parse"@, "--is-inside-work-tree"@],
{
    let root = job.repo_root;
    assert(tracked_args(root, word) =~= seq!["-C"@, root, "ls-files"@, "--error-unmatch"@, "--"@, word]);
    assert(oid_args(root, word, job.path) =~= seq![
        "-C"@,
        root,
        "hash-object"@,
        "-w"@,
        "--path"@,
        word,
        "--"@,
        job.path,
    ]);
    assert(blob_args(root, word) =~= seq!["-C"@, root, "cat-file"@, "blob"@, word]);
    assert(probe_args(word) =~= seq!["-C"@, word, "rev-parse"@, "--is-inside-work-tree"@]);
}

/// How a job goes on after each reply: only a file that `git` has is stored, only a stored
/// one is read back, and what is hashed is exactly what came back; a refusal by `git` leads
/// to the raw bytes, and only raw bytes that cannot be read leave a file without a digest.
pub proof fn a_job_follows_its_replies(job: JobView, word: Seq<char>, bytes: Seq<u8>)
    ensures
        job.stage == StageView::Listed(word) ==> job.after(Some(bytes)).stage == StageView::Oid(word),
        job.stage is Listed || job.stage is Oid || job.stage is Blob ==> job.after(None).stage is Raw,
        job.stage is Oid && answer(bytes) is Some ==> job.after(Some(bytes)).stage == StageView::Blob(
            answer(bytes)->0,
        ),
        job.stage is Oid && answer(bytes) is None ==> job.after(Some(bytes)).stage is Raw,
        job.stage is Blob || job.stage is Raw ==> job.after(Some(bytes)).stage == StageView::Done(
            Some(digest_text(bytes)),
        ),
        job.stage is Raw ==> job.after(None).stage == StageView::Done(None),
        job.after(Some(bytes)).path == job.path && job.after(None).path == job.path,
        job.after(Some(bytes)).repo_root == job.repo_root && job.after(None).repo_root == job.repo_root,
{
}

/// An input is asked about at `git` exactly when `git` is usable and the file lies below the
/// root; its name there is what stands below the root, with backslashes turned forward.
pub proof fn an_input_goes_through_git_when_it_can(root: Seq<char>, git_available: bool, path: Seq<char>, i: int)
    ensures
        ({
            let job = input_job(root, git_available, path);
            let rest = path_below(path, root);
            &&& job.path == path && job.repo_root == root
            &&& job.stage is Listed <==> git_available && rest is Some
            &&& !(job.stage is Listed) ==> job.stage is Raw
            &&& (job.stage matches StageView::Listed(rel) ==> {
                &&& rel.len() == rest->0.len()
                &&& 0 <= i < rel.len() ==> rel[i] == (if rest->0[i] as int == 92 { '/' } else { rest->0[i] })
            })
        }),
{
}

/// `git` is used exactly when it answered the probe at the given root.
pub proof fn git_is_used_when_it_answers(root: String, probed: Option<Vec<u8>>, h: Hasher)
    requires
        call_ensures(Hasher::new, (root, probed), h),
    ensures
        h.repo_root == root,
        probed is Some ==> h.git_available,
        probed is None ==> !h.git_available,
{
}

/// The tier is a grade only: it is the kernel-atomic one exactly when the build has it and
/// the kernel lists the module that it needs.
pub proof fn the_tier_needs_the_build_and_the_kernel(kernel_atomic: bool, lsm: Option<&str>, r: &'static str)
    requires
        call_ensures(hash_tier, (kernel_atomic, lsm), r),
    ensures
        kernel_atomic && lsm is Some && lists_bpf(lsm->0@) ==> r@ == "kernel-atomic"@,
        !kernel_atomic || lsm is None ==> r@ == "userspace-hashed"@,
        lsm is Some && !lists_bpf(lsm->0@) ==> r@ == "userspace-hashed"@,
{
}

} // verus!
