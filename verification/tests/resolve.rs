use ci_tracer::command::CommandOutput;
use ci_tracer::detect::{bpf_lsm_available, ebpf_available, has_privilege, tracefs_present};
use ci_tracer::resolve::{architecture, platform, probe, tool_versions, ProcFs};
use ci_tracer::xtask::{build_ebpf, object_path};

fn out(text: &[u8]) -> Option<CommandOutput> {
    Some(CommandOutput { success: true, stdout: text.to_vec() })
}

#[test]
fn proc_paths_name_the_process() {
    assert_eq!(ProcFs::cmdline_path(1), "/proc/1/cmdline");
    assert_eq!(ProcFs::cwd_path(4_294_967_295), "/proc/4294967295/cwd");
}

#[test]
fn command_lines_join_their_arguments() {
    assert_eq!(ProcFs::cmdline(Some(b"npm\0run\0build\0".to_vec())).as_deref(), Some("npm run build"));
    assert_eq!(ProcFs::cmdline(Some(b"npm\0\0build".to_vec())).as_deref(), Some("npm build"));
    assert_eq!(ProcFs::cmdline(Some(b"a b\0c".to_vec())).as_deref(), Some("a b c"));
    assert_eq!(ProcFs::cmdline(Some(b"".to_vec())), None);
    assert_eq!(ProcFs::cmdline(Some(b"\0\0".to_vec())), None);
    assert_eq!(ProcFs::cmdline(None), None);
    assert_eq!(ProcFs::cmdline(Some(vec![b'a', 0xff, 0, b'b'])).as_deref(), Some("a\u{fffd} b"));
}

#[test]
fn working_directories_are_read_loosely() {
    assert_eq!(ProcFs::cwd(Some(b"/work".to_vec())).as_deref(), Some("/work"));
    assert_eq!(ProcFs::cwd(Some(vec![b'/', 0xfe])).as_deref(), Some("/\u{fffd}"));
    assert_eq!(ProcFs::cwd(None), None);
}

#[test]
fn architectures_are_normalized() {
    assert_eq!(platform(), "linux");
    assert_eq!(architecture("x86_64"), "amd64");
    assert_eq!(architecture("aarch64"), "arm64");
    assert_eq!(architecture("riscv64"), "riscv64");
}

#[test]
fn probes_answer_with_their_first_line() {
    assert_eq!(probe(out(b"v20.1.0\nmore\n")).as_deref(), Some("v20.1.0"));
    assert_eq!(probe(out(b"  go version go1.22 \r\n")).as_deref(), Some("go version go1.22"));
    assert_eq!(probe(out(b"\nv1")), None);
    assert_eq!(probe(out(b"")), None);
    assert_eq!(probe(None), None);
    assert_eq!(probe(Some(CommandOutput { success: false, stdout: b"v1".to_vec() })), None);
}

#[test]
fn tool_versions_list_what_is_known() {
    assert!(tool_versions(None, None).is_none());
    let m = tool_versions(out(b"v20\n"), None).unwrap();
    assert_eq!((m.len(), m.get("node").unwrap().as_str()), (1, "v20"));
    let m = tool_versions(out(b"v20\n"), out(b"go version go1.22\n")).unwrap();
    assert_eq!(m.len(), 2);
    assert_eq!(m.get("go").unwrap(), "go version go1.22");
    assert_eq!(m.entry(0).0, "go");
    assert!(tool_versions(None, out(b"\n")).is_none());
}

#[test]
fn capture_needs_privilege_and_tracepoints() {
    assert!(ebpf_available(0, true, false));
    assert!(ebpf_available(0, false, true));
    assert!(!ebpf_available(0, false, false));
    assert!(!ebpf_available(1000, true, true));
    assert!(has_privilege(0) && !has_privilege(1));
    assert!(tracefs_present(true, false) && !tracefs_present(false, false));
}

#[test]
fn the_module_list_is_searched_by_whole_names() {
    assert!(bpf_lsm_available(Some("capability,bpf")));
    assert!(bpf_lsm_available(Some(" bpf \n")));
    assert!(!bpf_lsm_available(Some("bpfilter,ebpf")));
    assert!(!bpf_lsm_available(Some("")));
    assert!(!bpf_lsm_available(None));
}

#[test]
fn release_builds_say_so() {
    let dev = build_ebpf("dev");
    assert_eq!(
        dev.join(" "),
        "+nightly build --manifest-path ci-tracer-ebpf/Cargo.toml --target bpfel-unknown-none -Z build-std=core --target-dir target"
    );
    let release = build_ebpf("release");
    assert_eq!(release[..10], dev[..]);
    assert_eq!(release[10..], ["--release".to_string()]);
    assert_eq!(object_path("release"), "target/bpfel-unknown-none/release/ci-tracer-ebpf");
}
