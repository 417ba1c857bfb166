//! Startup detection of what the host's kernel offers.
//!
//! The agent decides deterministically whether it can capture, and never silently
//! produces a low-fidelity record that looks complete. On a host without eBPF the
//! default is to do nothing (no record, build not failed); the gap is reconciled as
//! unknown. Failing hard is an opt-in policy.

use vstd::prelude::*;

use crate::text::{
    chars_of, lemma_split_apart, lemma_split_none, same_text, split_on, split_ranges, trim_chars, trimmed,
};

verus! {

/// Where tracepoints appear when tracefs is mounted.
pub const TRACEFS_EVENTS: &'static str = "/sys/kernel/tracing/events";

/// Where tracepoints appear when debugfs is mounted.
pub const DEBUGFS_EVENTS: &'static str = "/sys/kernel/debug/tracing/events";

/// Where the kernel lists its security modules.
pub const LSM_LIST: &'static str = "/sys/kernel/security/lsm";

/// A coarse pre-flight check for eBPF capability, from the effective user id and
/// from whether [`TRACEFS_EVENTS`] and [`DEBUGFS_EVENTS`] exist. The authoritative
/// check is whether the programs load and attach.
pub fn ebpf_available(euid: u32, tracefs: bool, debugfs: bool) -> (r: bool)
    ensures
        r == (euid == 0 && (tracefs || debugfs)),
{
    has_privilege(euid) && tracefs_present(tracefs, debugfs)
}

/// Attaching needs `CAP_BPF`/`CAP_PERFMON` or root; approximated by an effective
/// user id of 0.
pub fn has_privilege(euid: u32) -> (r: bool)
    ensures
        r == (euid == 0),
{
    euid == 0
}

/// Tracepoints require a mounted tracefs or debugfs.
pub fn tracefs_present(tracefs: bool, debugfs: bool) -> (r: bool)
    ensures
        r == (tracefs || debugfs),
{
    tracefs || debugfs
}

/// Whether a comma-separated list of security modules names `bpf`.
pub open spec fn lists_bpf(lsm: Seq<char>) -> bool {
    exists|i: int| 0 <= i < split_on(lsm, ',').len() && trimmed(#[trigger] split_on(lsm, ',')[i]) == "bpf"@
}

/// Whether the kernel-atomic hashing tier could be enabled here, from the content of
/// [`LSM_LIST`] if it could be read.
pub fn bpf_lsm_available(lsm: Option<&str>) -> (r: bool)
    ensures
        r == (match lsm {
            Some(s) => lists_bpf(s@),
            None => false,
        }),
{
    let s = match lsm {
        Some(s) => s,
        None => {
            return false;
        },
    };
    let v = chars_of(s);
    let (starts, ends) = split_ranges(&v, ',');
    let mut i: usize = 0;
    while i < starts.len()
        invariant
            i <= starts@.len(),
            starts@.len() == ends@.len(),
            starts@.len() == split_on(s@, ',').len(),
            v@ == s@,
            forall|k: int|
                0 <= k < starts@.len() ==> {
                    &&& (#[trigger] starts@[k]) <= ends@[k] <= v@.len()
                    &&& v@.subrange(starts@[k] as int, ends@[k] as int) == split_on(v@, ',')[k]
                },
            forall|k: int| 0 <= k < i ==> trimmed(#[trigger] split_on(s@, ',')[k]) != "bpf"@,
            lsm matches Some(t) && t@ == s@,
        decreases starts@.len() - i,
    {
        let name = trim_chars(&v, starts[i], ends[i]);
        if same_text(name.as_str(), "bpf") {
            assert(trimmed(split_on(s@, ',')[i as int]) == "bpf"@);
            return true;
        }
        i += 1;
    }
    false
}

/// The list of security modules is read module by module: it names `bpf` exactly when one
/// of the names between its commas is `bpf`, white space around it aside.
pub proof fn modules_are_told_apart_by_commas(a: Seq<char>, b: Seq<char>)
    ensures
        lists_bpf(a.push(',') + b) <==> lists_bpf(a) || lists_bpf(b),
        !a.contains(',') ==> (lists_bpf(a) <==> trimmed(a) == "bpf"@),
{
    let s = a.push(',') + b;
    lemma_split_apart(a, b, ',');
    let (p, q, r) = (split_on(a, ','), split_on(b, ','), split_on(s, ','));
    if lists_bpf(a) {
        let i = choose|i: int| 0 <= i < p.len() && trimmed(#[trigger] p[i]) == "bpf"@;
        assert(r[i] == p[i]);
    }
    if lists_bpf(b) {
        let i = choose|i: int| 0 <= i < q.len() && trimmed(#[trigger] q[i]) == "bpf"@;
        assert(r[p.len() + i] == q[i]);
    }
    if lists_bpf(s) {
        let i = choose|i: int| 0 <= i < r.len() && trimmed(#[trigger] r[i]) == "bpf"@;
        if i < p.len() {
            assert(p[i] == r[i]);
        } else {
            assert(q[i - p.len()] == r[i]);
        }
    }
    if !a.contains(',') {
        lemma_split_none(a, ',');
        assert(p[0] == a);
    }
}

/// Capture is available exactly to the root user of a host that shows its tracepoints in
/// either place.
pub proof fn capture_needs_root_and_tracepoints(euid: u32, tracefs: bool, debugfs: bool, r: bool)
    requires
        call_ensures(ebpf_available, (euid, tracefs, debugfs), r),
    ensures
        r ==> euid == 0,
        r ==> tracefs || debugfs,
        euid == 0 && tracefs ==> r,
        euid == 0 && debugfs ==> r,
{
}

} // verus!
