//! How the kernel-side object is built.

use vstd::prelude::*;

use crate::command::push_words;
use crate::text::{same_text, texts};

verus! {

/// The arguments of `cargo` for a build of the kernel-side object.
pub open spec fn build_args(profile: Seq<char>) -> Seq<Seq<char>> {
    let common = seq![
        "+nightly"@,
        "build"@,
        "--manifest-path"@,
        "ci-tracer-ebpf/Cargo.toml"@,
        "--target"@,
        "bpfel-unknown-none"@,
        "-Z"@,
        "build-std=core"@,
        "--target-dir"@,
        "target"@,
    ];
    if profile == "release"@ {
        common.push("--release"@)
    } else {
        common
    }
}

/// The arguments of `cargo` for a build of the kernel-side object with the given profile
/// (`dev` or `release`).
pub fn build_ebpf(profile: &str) -> (args: Vec<String>)
    ensures
        texts(args@) == build_args(profile@),
{
    let mut args: Vec<String> = Vec::new();
    push_words(
        &mut args,
        &[
            "+nightly",
            "build",
            "--manifest-path",
            "ci-tracer-ebpf/Cargo.toml",
            "--target",
            "bpfel-unknown-none",
            "-Z",
            "build-std=core",
            "--target-dir",
            "target",
        ],
    );
    if same_text(profile, "release") {
        push_words(&mut args, &["--release"]);
    }
    assert(texts(args@) =~= build_args(profile@));
    args
}

/// Where the object of a build with the given profile lies.
pub fn object_path(profile: &str) -> (s: String)
    ensures
        s@ == "target/bpfel-unknown-none/"@ + profile@ + "/ci-tracer-ebpf"@,
{
    let mut s = String::from_str("target/bpfel-unknown-none/");
    s.append(profile);
    s.append("/ci-tracer-ebpf");
    s
}

/// The build asks for the nightly toolchain, the kernel-side manifest and target, and is
/// optimized exactly for the `release` profile.
pub proof fn only_a_release_build_is_optimized(profile: Seq<char>)
    ensures
        build_args(profile).take(10) == seq![
            "+nightly"@,
            "build"@,
            "--manifest-path"@,
            "ci-tracer-ebpf/Cargo.toml"@,
            "--target"@,
            "bpfel-unknown-none"@,
            "-Z"@,
            "build-std=core"@,
            "--target-dir"@,
            "target"@,
        ],
        profile == "release"@ ==> build_args(profile).len() == 11 && build_args(profile)[10] == "--release"@,
        profile != "release"@ ==> build_args(profile).len() == 10,
{
    assert(build_args(profile).take(10) =~= seq![
        "+nightly"@,
        "build"@,
        "--manifest-path"@,
        "ci-tracer-ebpf/Cargo.toml"@,
        "--target"@,
        "bpfel-unknown-none"@,
        "-Z"@,
        "build-std=core"@,
        "--target-dir"@,
        "target"@,
    ]);
}

} // verus!
