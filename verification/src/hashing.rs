//! Hashing everything that one operation read and wrote.
//!
//! A [`Hashing`] takes the operation's inputs and then its outputs, each in ascending
//! order, through a [`HashJob`] of its own. The caller performs each [`HostCall`] and
//! replies with what came of it.

use vstd::prelude::*;

use crate::command::opt_bytes;
use crate::hash::{
    digest_shaped, input_content, input_job, opt_digest, output_job, run_job, ActionView, HashAction, HashJob, Hasher, JobView,
    StageView,
};
use crate::observe::{Operation, OperationView};
use crate::order::{ascending, text_before};
use crate::runrecord::{artifacts, ArtifactEntry, ArtifactView};
use crate::text::{opt_text, texts};

verus! {

/// Something that only the host can do.
#[derive(Clone, Debug)]
pub enum HostCall {
    /// Run `git` with these arguments; reply with its output if it succeeds.
    Git(Vec<String>),
    /// Read this file; reply with its bytes if it can be read.
    Read(String),
}

/// The hashing of an operation's files.
#[derive(Clone, Debug)]
pub struct Hashing {
    pub hasher: Hasher,
    pub inputs: Vec<String>,
    pub outputs: Vec<String>,
    /// The digests found so far, inputs first; `None` for an unreadable file.
    pub digests: Vec<Option<String>>,
    /// The file being hashed, when there is one left.
    pub job: Option<HashJob>,
}

/// What a list of optional digests says.
pub open spec fn opt_texts(s: Seq<Option<String>>) -> Seq<Option<Seq<char>>> {
    s.map_values(|d: Option<String>| opt_text(d))
}

/// What a [`Hashing`] says.
#[verifier::ext_equal]
pub struct HashingView {
    pub repo_root: Seq<char>,
    pub git_available: bool,
    pub inputs: Seq<Seq<char>>,
    pub outputs: Seq<Seq<char>>,
    pub digests: Seq<Option<Seq<char>>>,
    pub job: Option<JobView>,
}

impl View for Hashing {
    type V = HashingView;

    open spec fn view(&self) -> HashingView {
        HashingView {
            repo_root: self.hasher.repo_root@,
            git_available: self.hasher.git_available,
            inputs: texts(self.inputs@),
            outputs: texts(self.outputs@),
            digests: opt_texts(self.digests@),
            job: match self.job {
                Some(j) => Some(j@),
                None => None,
            },
        }
    }
}

impl HashingView {
    /// How many files there are to hash.
    pub open spec fn total(self) -> int {
        self.inputs.len() as int + self.outputs.len()
    }

    /// How the hashing of the file at position `i` begins: inputs come first.
    pub open spec fn job_at(self, i: int) -> JobView {
        if i < self.inputs.len() {
            input_job(self.repo_root, self.git_available, self.inputs[i])
        } else {
            output_job(self.repo_root, self.outputs[i - self.inputs.len()])
        }
    }

    /// The job for the file at position `i`, if there is one.
    pub open spec fn job_from(self, i: int) -> Option<JobView> {
        if i < self.total() {
            Some(self.job_at(i))
        } else {
            None
        }
    }

    /// There is a job exactly while files are left, and it is not finished.
    pub open spec fn orderly(self) -> bool {
        &&& self.digests.len() <= self.total()
        &&& self.job is Some <==> self.digests.len() < self.total()
        &&& self.job matches Some(j) ==> !(j.stage is Done)
    }

    /// Whether every digest found so far has the shape of a digest.
    pub open spec fn well_hashed(self) -> bool {
        forall|i: int| 0 <= i < self.digests.len() ==> (#[trigger] self.digests[i] matches Some(d) ==> digest_shaped(d))
    }

    /// What every hashing keeps.
    pub open spec fn wf(self) -> bool {
        self.orderly() && self.well_hashed()
    }

    /// Whether every file was hashed or found to be unreadable.
    pub open spec fn finished(self) -> bool {
        self.digests.len() == self.total()
    }

    /// The hashing after the reply to its call.
    pub open spec fn after(self, reply: Option<Seq<u8>>) -> HashingView {
        match self.job {
            None => self,
            Some(j) => match j.after(reply).stage {
                StageView::Done(d) => HashingView {
                    digests: self.digests.push(d),
                    job: self.job_from(self.digests.len() as int + 1),
                    ..self
                },
                _ => HashingView { job: Some(j.after(reply)), ..self },
            },
        }
    }

    /// Whether this is the hashing of the files of `op`: of all its inputs and all its
    /// outputs, each in ascending order, and of nothing else.
    pub open spec fn of(self, op: OperationView) -> bool {
        &&& ascending(self.inputs)
        &&& ascending(self.outputs)
        &&& forall|p: Seq<char>| self.inputs.contains(p) <==> op.has_input(p)
        &&& forall|p: Seq<char>| self.outputs.contains(p) <==> op.has_output(p)
    }

    /// The digests of the inputs.
    pub open spec fn input_digests(self) -> Seq<Option<Seq<char>>> {
        self.digests.take(self.inputs.len() as int)
    }

    /// The digests of the outputs.
    pub open spec fn output_digests(self) -> Seq<Option<Seq<char>>> {
        self.digests.skip(self.inputs.len() as int)
    }
}

/// How the hashing of an operation's files begins.
pub open spec fn hashing_of(root: Seq<char>, git_available: bool, op: OperationView) -> HashingView {
    let start = HashingView {
        repo_root: root,
        git_available,
        inputs: op.input_paths(),
        outputs: op.output_paths(),
        digests: Seq::empty(),
        job: None,
    };
    HashingView { job: start.job_from(0), ..start }
}

impl Hashing {
    /// Begin to hash the files of `op`.
    pub fn new(op: &Operation, hasher: Hasher) -> (h: Self)
        ensures
            h@ == hashing_of(hasher.repo_root@, hasher.git_available, op@),
            h@.of(op@),
            h@.wf(),
    {
        let inputs = op.scoped_inputs();
        let outputs = op.scoped_outputs();
        let mut h = Hashing { hasher, inputs, outputs, digests: Vec::new(), job: None };
        let job = h.start(0);
        h.job = job;
        assert(h@.digests =~= Seq::<Option<Seq<char>>>::empty());
        h
    }

    fn start(&self, i: usize) -> (r: Option<HashJob>)
        ensures
            (match r {
                Some(j) => Some(j@),
                None => None,
            }) == self@.job_from(i as int),
    {
        if i < self.inputs.len() {
            assert(self@.inputs[i as int] == self.inputs@[i as int]@);
            Some(self.hasher.hash_input(self.inputs[i].as_str()))
        } else if i - self.inputs.len() < self.outputs.len() {
            let k = i - self.inputs.len();
            assert(self@.outputs[k as int] == self.outputs@[k as int]@);
            Some(self.hasher.hash_output(self.outputs[k].as_str()))
        } else {
            None
        }
    }

    /// What the host has to do next; nothing when every file was taken.
    pub fn next(&self) -> (r: Option<HostCall>)
        requires
            self@.wf(),
        ensures
            r is None <==> self@.finished(),
            (match r {
                Some(HostCall::Git(args)) => Some(ActionView::Git(texts(args@))),
                Some(HostCall::Read(path)) => Some(ActionView::Read(path@)),
                None => None,
            }) == (match self@.job {
                Some(j) => Some(j.action()),
                None => None,
            }),
    {
        match &self.job {
            None => None,
            Some(job) => match job.next() {
                HashAction::Git(args) => Some(HostCall::Git(args)),
                HashAction::Read(path) => Some(HostCall::Read(path)),
                HashAction::Done(_) => {
                    assert(false);
                    None
                },
            },
        }
    }

    /// Go on with the reply to the call.
    pub fn reply(&mut self, reply: Option<Vec<u8>>)
        requires
            old(self)@.wf(),
        ensures
            final(self)@ == old(self)@.after(opt_bytes(reply)),
            final(self)@.wf(),
    {
        let ghost before = self@;
        let mut job: Option<HashJob> = None;
        std::mem::swap(&mut job, &mut self.job);
        let mut job = match job {
            Some(job) => job,
            None => {
                return;
            },
        };
        job.reply(reply);
        match job.next() {
            HashAction::Done(Ok(d)) => {
                self.finish(Some(d));
            },
            HashAction::Done(Err(_)) => {
                self.finish(None);
            },
            _ => {
                self.job = Some(job);
            },
        }
    }

    fn finish(&mut self, digest: Option<String>)
        requires
            old(self)@.digests.len() < old(self)@.total(),
            old(self)@.well_hashed(),
            digest matches Some(d) ==> digest_shaped(d@),
        ensures
            final(self)@.well_hashed(),
            final(self)@ == (HashingView {
                digests: old(self)@.digests.push(opt_text(digest)),
                job: old(self)@.job_from(old(self)@.digests.len() as int + 1),
                ..old(self)@
            }),
    {
        let ghost before = self.digests@;
        self.digests.push(digest);
        proof {
            assert(opt_texts(self.digests@) =~= opt_texts(before).push(opt_text(digest)));
        }
        let job = self.start(self.digests.len());
        self.job = job;
    }
}

// ---------------------------------------------------------------------------
// Artifact lists
// ---------------------------------------------------------------------------

/// The artifacts whose digest is known, in order.
pub open spec fn hashed_entries(paths: Seq<Seq<char>>, digests: Seq<Option<Seq<char>>>) -> Seq<ArtifactView>
    decreases paths.len(),
{
    if paths.len() == 0 {
        Seq::empty()
    } else {
        let before = hashed_entries(paths.drop_last(), digests.drop_last());
        match digests.last() {
            Some(hash) => before.push(ArtifactView { path: paths.last(), hash }),
            None => before,
        }
    }
}

/// The paths whose digest is not known, in order.
pub open spec fn flagged_paths(paths: Seq<Seq<char>>, digests: Seq<Option<Seq<char>>>) -> Seq<Seq<char>>
    decreases paths.len(),
{
    if paths.len() == 0 {
        Seq::empty()
    } else {
        let before = flagged_paths(paths.drop_last(), digests.drop_last());
        match digests.last() {
            Some(_) => before,
            None => before.push(paths.last()),
        }
    }
}

/// A list of artifacts on the wire: `null` rather than an empty list.
pub open spec fn or_null(entries: Seq<ArtifactView>) -> Option<Seq<ArtifactView>> {
    if entries.len() == 0 {
        None
    } else {
        Some(entries)
    }
}

/// The artifact entries for `paths`, whose digests stand at `digests[from..]`, and the
/// paths that could not be read; those are flagged instead of silently dropped.
/// Gives no list rather than an empty one.
pub fn hash_set(paths: &Vec<String>, digests: &Vec<Option<String>>, from: usize) -> (r: (
    Option<Vec<ArtifactEntry>>,
    Vec<String>,
))
    requires
        from + paths@.len() <= digests@.len(),
    ensures
        artifacts(r.0) == or_null(
            hashed_entries(texts(paths@), opt_texts(digests@).subrange(from as int, from + paths@.len())),
        ),
        texts(r.1@) == flagged_paths(
            texts(paths@),
            opt_texts(digests@).subrange(from as int, from + paths@.len()),
        ),
{
    let ghost ps = texts(paths@);
    let ghost ds = opt_texts(digests@);
    let mut found: Vec<ArtifactEntry> = Vec::new();
    let mut flagged: Vec<String> = Vec::new();
    let total = digests.len();
    let mut i: usize = 0;
    proof {
        assert(ps.take(0) =~= Seq::<Seq<char>>::empty());
        assert(found@.map_values(|e: ArtifactEntry| e@) =~= Seq::<ArtifactView>::empty());
        assert(texts(flagged@) =~= Seq::<Seq<char>>::empty());
    }
    while i < paths.len()
        invariant
            i <= paths@.len(),
            from + paths@.len() <= total,
            total == digests@.len(),
            ps == texts(paths@),
            ds == opt_texts(digests@),
            found@.map_values(|e: ArtifactEntry| e@) == hashed_entries(
                ps.take(i as int),
                ds.subrange(from as int, from + i),
            ),
            texts(flagged@) == flagged_paths(ps.take(i as int), ds.subrange(from as int, from + i)),
        decreases paths@.len() - i,
    {
        proof {
            assert(ps.take(i + 1).drop_last() =~= ps.take(i as int));
            assert(ds.subrange(from as int, from + i + 1).drop_last() =~= ds.subrange(from as int, from + i));
            assert(ps.take(i + 1).last() == paths@[i as int]@);
            assert(ds.subrange(from as int, from + i + 1).last() == opt_text(digests@[from + i]));
        }
        let path = paths[i].clone();
        match &digests[from + i] {
            Some(hash) => {
                let ghost before = found@;
                let e = ArtifactEntry { path, hash: hash.clone() };
                found.push(e);
                assert(found@.map_values(|e: ArtifactEntry| e@) =~= before.map_values(|e: ArtifactEntry| e@).push(e@));
            },
            None => {
                let ghost before = flagged@;
                flagged.push(path);
                assert(texts(flagged@) =~= texts(before).push(path@));
            },
        }
        i += 1;
    }
    assert(ps.take(i as int) =~= ps);
    if found.len() == 0 {
        (None, flagged)
    } else {
        (Some(found), flagged)
    }
}

// ---------------------------------------------------------------------------
// What a whole hashing gives
// ---------------------------------------------------------------------------

/// The digest that a host gives for the file at position `i`.
pub open spec fn host_digest(
    h: HashingView,
    git: spec_fn(Seq<Seq<char>>) -> Option<Seq<u8>>,
    file: spec_fn(Seq<char>) -> Option<Seq<u8>>,
    i: int,
) -> Option<Seq<char>> {
    if i < h.inputs.len() {
        opt_digest(input_content(git, file, h.repo_root, h.git_available, h.inputs[i]))
    } else {
        opt_digest(file(h.outputs[i - h.inputs.len()]))
    }
}

/// Whether every digest so far is the one that the host gives, and the job in hand will
/// find the one that the host gives.
pub open spec fn faithful(
    h: HashingView,
    git: spec_fn(Seq<Seq<char>>) -> Option<Seq<u8>>,
    file: spec_fn(Seq<char>) -> Option<Seq<u8>>,
) -> bool {
    &&& forall|i: int| 0 <= i < h.digests.len() ==> #[trigger] h.digests[i] == host_digest(h, git, file, i)
    &&& h.job matches Some(j) ==> run_job(j, git, file, 4).stage == StageView::Done(
        host_digest(h, git, file, h.digests.len() as int),
    )
}

proof fn lemma_done_stays(
    job: JobView,
    git: spec_fn(Seq<Seq<char>>) -> Option<Seq<u8>>,
    file: spec_fn(Seq<char>) -> Option<Seq<u8>>,
    steps: nat,
)
    requires
        job.stage is Done,
    ensures
        run_job(job, git, file, steps) == job,
    decreases steps,
{
    if steps > 0 {
        lemma_done_stays(job, git, file, (steps - 1) as nat);
    }
}

/// Running on after the end changes nothing.
proof fn lemma_run_on(
    job: JobView,
    git: spec_fn(Seq<Seq<char>>) -> Option<Seq<u8>>,
    file: spec_fn(Seq<char>) -> Option<Seq<u8>>,
    steps: nat,
)
    requires
        run_job(job, git, file, steps).stage is Done,
    ensures
        run_job(job, git, file, steps + 1) == run_job(job, git, file, steps),
    decreases steps,
{
    if steps > 0 {
        let next = job.after(crate::hash::host_reply(git, file, job.action()));
        lemma_run_on(next, git, file, (steps - 1) as nat);
    } else {
        lemma_done_stays(job, git, file, 1);
    }
}

/// The hashing of an operation's files begins faithful to the host, whatever the host
/// is.
pub proof fn a_hashing_begins_faithful(
    root: Seq<char>,
    git_available: bool,
    op: OperationView,
    git: spec_fn(Seq<Seq<char>>) -> Option<Seq<u8>>,
    file: spec_fn(Seq<char>) -> Option<Seq<u8>>,
)
    ensures
        faithful(hashing_of(root, git_available, op), git, file),
{
    let h = hashing_of(root, git_available, op);
    if h.total() > 0 {
        lemma_fresh_job(h, git, file, 0);
    }
}

proof fn lemma_fresh_job(
    h: HashingView,
    git: spec_fn(Seq<Seq<char>>) -> Option<Seq<u8>>,
    file: spec_fn(Seq<char>) -> Option<Seq<u8>>,
    i: int,
)
    requires
        0 <= i < h.total(),
    ensures
        run_job(h.job_at(i), git, file, 4).stage == StageView::Done(host_digest(h, git, file, i)),
{
    if i < h.inputs.len() {
        crate::hash::an_input_is_hashed_as_git_stores_it(git, file, h.repo_root, h.git_available, h.inputs[i]);
    } else {
        let path = h.outputs[i - h.inputs.len()];
        crate::hash::an_output_is_hashed_as_it_is(git, file, h.repo_root, path);
        let job = output_job(h.repo_root, path);
        lemma_run_on(job, git, file, 1);
        lemma_run_on(job, git, file, 2);
        lemma_run_on(job, git, file, 3);
    }
}

/// Every reply of the host keeps the hashing faithful to it. So once every file was
/// taken, each input carries the digest of its content as `git` stores it when it is
/// tracked, each output the digest of its raw bytes, and no digest is mixed up between
/// files.
pub proof fn the_host_keeps_a_hashing_faithful(
    h: HashingView,
    git: spec_fn(Seq<Seq<char>>) -> Option<Seq<u8>>,
    file: spec_fn(Seq<char>) -> Option<Seq<u8>>,
)
    requires
        h.orderly(),
        faithful(h, git, file),
        h.job is Some,
    ensures
        ({
            let reply = crate::hash::host_reply(git, file, h.job->0.action());
            faithful(h.after(reply), git, file) && h.after(reply).orderly()
        }),
{
    let j = h.job->0;
    let reply = crate::hash::host_reply(git, file, j.action());
    let next = j.after(reply);
    let post = h.after(reply);
    let n = h.digests.len() as int;
    reveal_with_fuel(run_job, 2);
    assert(run_job(j, git, file, 4) == run_job(next, git, file, 3));
    lemma_run_on(next, git, file, 3);
    if next.stage is Done {
        lemma_done_stays(next, git, file, 3);
        assert forall|i: int| 0 <= i < post.digests.len() implies #[trigger] post.digests[i] == host_digest(
            post,
            git,
            file,
            i,
        ) by {
            if i < n {
                assert(h.digests[i] == host_digest(h, git, file, i));
            }
        }
        if n + 1 < h.total() {
            lemma_fresh_job(h, git, file, n + 1);
        }
    }
}

/// Every artifact on a list is one of the paths, with its own digest; and every path
/// whose digest is known is on the list, while every other one is flagged.
pub proof fn no_path_is_silently_dropped(paths: Seq<Seq<char>>, digests: Seq<Option<Seq<char>>>, i: int)
    requires
        paths.len() == digests.len(),
        0 <= i < paths.len(),
    ensures
        digests[i] is Some ==> hashed_entries(paths, digests).contains(
            ArtifactView { path: paths[i], hash: digests[i]->0 },
        ),
        digests[i] is None ==> flagged_paths(paths, digests).contains(paths[i]),
        hashed_entries(paths, digests).len() + flagged_paths(paths, digests).len() == paths.len(),
    decreases paths.len(),
{
    let (p, d) = (paths.drop_last(), digests.drop_last());
    let n = paths.len() - 1;
    lemma_counts(p, d);
    let (e, f) = (hashed_entries(paths, digests), flagged_paths(paths, digests));
    let (e0, f0) = (hashed_entries(p, d), flagged_paths(p, d));
    if i < n {
        no_path_is_silently_dropped(p, d, i);
        if digests[i] is Some {
            let x = ArtifactView { path: paths[i], hash: digests[i]->0 };
            let k = choose|k: int| 0 <= k < e0.len() && e0[k] == x;
            assert(e[k] == x);
        } else {
            let k = choose|k: int| 0 <= k < f0.len() && f0[k] == paths[i];
            assert(f[k] == paths[i]);
        }
    } else {
        if digests[i] is Some {
            assert(e[e0.len() as int] == ArtifactView { path: paths[i], hash: digests[i]->0 });
        } else {
            assert(f[f0.len() as int] == paths[i]);
        }
    }
}

/// The artifacts on a list are among the paths, and every one carries the digest of its
/// own path.
pub proof fn every_artifact_is_one_of_the_paths(
    paths: Seq<Seq<char>>,
    digests: Seq<Option<Seq<char>>>,
    e: ArtifactView,
)
    requires
        paths.len() == digests.len(),
        hashed_entries(paths, digests).contains(e),
    ensures
        exists|i: int| 0 <= i < paths.len() && #[trigger] paths[i] == e.path && digests[i] == Some(e.hash),
    decreases paths.len(),
{
    if paths.len() > 0 {
        let (p, d) = (paths.drop_last(), digests.drop_last());
        let n = paths.len() - 1;
        let before = hashed_entries(p, d);
        let all = hashed_entries(paths, digests);
        let k = choose|k: int| 0 <= k < all.len() && all[k] == e;
        if k < before.len() {
            assert(before[k] == e);
            every_artifact_is_one_of_the_paths(p, d, e);
            let i = choose|i: int| 0 <= i < p.len() && #[trigger] p[i] == e.path && d[i] == Some(e.hash);
            assert(paths[i] == e.path && digests[i] == Some(e.hash));
        } else {
            assert(paths[n] == e.path && digests[n] == Some(e.hash));
        }
    }
}

/// A list of artifacts is in the order of its paths: ascending when they are, so that no
/// path is on it twice.
pub proof fn artifacts_are_in_the_order_of_their_paths(
    paths: Seq<Seq<char>>,
    digests: Seq<Option<Seq<char>>>,
    a: int,
    b: int,
)
    requires
        paths.len() == digests.len(),
        ascending(paths),
        0 <= a < b < hashed_entries(paths, digests).len(),
    ensures
        text_before(hashed_entries(paths, digests)[a].path, hashed_entries(paths, digests)[b].path),
    decreases paths.len(),
{
    let (p, d) = (paths.drop_last(), digests.drop_last());
    let (before, all) = (hashed_entries(p, d), hashed_entries(paths, digests));
    assert forall|i: int, j: int| 0 <= i < j < p.len() implies text_before(#[trigger] p[i], #[trigger] p[j]) by {
        assert(p[i] == paths[i] && p[j] == paths[j]);
    }
    assert(all[a] == before[a]);
    if b < before.len() {
        artifacts_are_in_the_order_of_their_paths(p, d, a, b);
    } else {
        assert(before.contains(before[a]));
        every_artifact_is_one_of_the_paths(p, d, before[a]);
        let i = choose|i: int| 0 <= i < p.len() && #[trigger] p[i] == before[a].path && d[i] == Some(before[a].hash);
        assert(text_before(paths[i], paths[paths.len() - 1]));
    }
}

proof fn lemma_counts(paths: Seq<Seq<char>>, digests: Seq<Option<Seq<char>>>)
    requires
        paths.len() == digests.len(),
    ensures
        hashed_entries(paths, digests).len() + flagged_paths(paths, digests).len() == paths.len(),
    decreases paths.len(),
{
    if paths.len() > 0 {
        lemma_counts(paths.drop_last(), digests.drop_last());
    }
}

} // verus!
