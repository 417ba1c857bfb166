use ci_tracer::hash::{hash_tier, sha256_of, HashAction, Hasher};

#[test]
fn sha256_format_and_known_vectors() {
    assert_eq!(
        sha256_of(b""),
        "sha256:e3b0c44298fc1c149afbf4c8996fb92427ae41e4649b934ca495991b7852b855"
    );
    assert_eq!(
        sha256_of(b"abc"),
        "sha256:ba7816bf8f01cfea414140de5dae2223b00361a396177a9cb410ff61f20015ad"
    );
}

#[test]
fn sha256_is_lowercase_hex_71_chars() {
    let h = sha256_of(b"some content");
    assert!(h.starts_with("sha256:"));
    assert_eq!(h.len(), 71);
    assert!(h["sha256:".len()..].chars().all(|c| c.is_ascii_hexdigit() && !c.is_ascii_uppercase()));
}

/// What a host answers: its `git`, and its files.
struct TestHost {
    git: fn(&[String]) -> Option<Vec<u8>>,
    file: fn(&str) -> Option<Vec<u8>>,
}

/// Run a job to its end, and list what the host was asked.
fn run(hasher: &Hasher, path: &str, input: bool, host: &TestHost) -> (Result<String, String>, Vec<String>) {
    let mut job = if input { hasher.hash_input(path) } else { hasher.hash_output(path) };
    let mut asked = Vec::new();
    loop {
        match job.next() {
            HashAction::Git(args) => {
                asked.push(args.join(" "));
                job.reply((host.git)(&args));
            }
            HashAction::Read(p) => {
                asked.push(format!("read {p}"));
                job.reply((host.file)(&p));
            }
            HashAction::Done(Ok(d)) => return (Ok(d), asked),
            HashAction::Done(Err(e)) => return (Err(e.path), asked),
        }
        assert!(asked.len() <= 4);
    }
}

fn repo(git: bool) -> Hasher {
    Hasher::new("/work/repo".to_string(), if git { Some(b"true\n".to_vec()) } else { None })
}

#[test]
fn raw_hash_reads_file() {
    let host = TestHost { git: |_| panic!("git must not be asked"), file: |_| Some(b"abc".to_vec()) };
    let (digest, asked) = run(&repo(true), "/work/repo/f.txt", false, &host);
    assert_eq!(digest.unwrap(), sha256_of(b"abc"));
    assert_eq!(asked, vec!["read /work/repo/f.txt"]);
}

#[test]
fn the_probe_asks_for_a_work_tree() {
    assert_eq!(Hasher::probe("/r"), vec!["-C", "/r", "rev-parse", "--is-inside-work-tree"]);
    assert!(repo(true).git_available);
    assert!(!repo(false).git_available);
}

#[test]
fn a_tracked_input_is_hashed_as_git_stores_it() {
    let host = TestHost {
        git: |args| match args[2].as_str() {
            "ls-files" => Some(b"src/a.ts\n".to_vec()),
            "hash-object" => Some(b"  0123abcd\n".to_vec()),
            "cat-file" => {
                assert_eq!(args[4], "0123abcd");
                Some(b"line\n".to_vec())
            }
            other => panic!("{other}"),
        },
        file: |_| Some(b"line\r\n".to_vec()),
    };
    let (digest, asked) = run(&repo(true), "/work/repo/src/a.ts", true, &host);
    assert_eq!(digest.unwrap(), sha256_of(b"line\n"));
    assert_eq!(
        asked,
        vec![
            "-C /work/repo ls-files --error-unmatch -- src/a.ts",
            "-C /work/repo hash-object -w --path src/a.ts -- /work/repo/src/a.ts",
            "-C /work/repo cat-file blob 0123abcd",
        ]
    );
}

#[test]
fn whatever_git_cannot_do_falls_back_to_raw_bytes() {
    fn raw(_: &str) -> Option<Vec<u8>> {
        Some(b"raw".to_vec())
    }
    let untracked = TestHost { git: |_| None, file: raw };
    let nameless = TestHost { git: |a| if a[2] == "ls-files" { Some(vec![]) } else { Some(b" \n".to_vec()) }, file: raw };
    let garbled = TestHost { git: |a| if a[2] == "ls-files" { Some(vec![]) } else { Some(vec![0xff]) }, file: raw };
    let unstored = TestHost { git: |a| if a[2] == "ls-files" { Some(vec![]) } else { None }, file: raw };
    let lost = TestHost { git: |a| if a[2] == "cat-file" { None } else { Some(b"x".to_vec()) }, file: raw };
    for (host, steps) in [(untracked, 2), (nameless, 3), (garbled, 3), (unstored, 3), (lost, 4)] {
        let (digest, asked) = run(&repo(true), "/work/repo/f", true, &host);
        assert_eq!(digest.unwrap(), sha256_of(b"raw"));
        assert_eq!(asked.len(), steps);
    }
}

#[test]
fn without_git_an_input_is_read_at_once() {
    let host = TestHost { git: |_| panic!("git must not be asked"), file: |_| Some(b"raw".to_vec()) };
    let (digest, asked) = run(&repo(false), "/work/repo/f", true, &host);
    assert_eq!(digest.unwrap(), sha256_of(b"raw"));
    assert_eq!(asked, vec!["read /work/repo/f"]);
    let (digest, asked) = run(&repo(true), "/elsewhere/f", true, &host);
    assert_eq!(digest.unwrap(), sha256_of(b"raw"));
    assert_eq!(asked, vec!["read /elsewhere/f"]);
}

#[test]
fn an_unreadable_file_is_reported_by_its_path() {
    let host = TestHost { git: |_| None, file: |_| None };
    assert_eq!(run(&repo(true), "/work/repo/f", true, &host).0, Err("/work/repo/f".to_string()));
    assert_eq!(run(&repo(true), "/work/repo/g", false, &host).0, Err("/work/repo/g".to_string()));
}

#[test]
fn a_finished_job_stays_finished() {
    let mut job = repo(false).hash_output("/f");
    job.reply(Some(b"abc".to_vec()));
    job.reply(None);
    job.reply(Some(b"other".to_vec()));
    assert!(matches!(job.next(), HashAction::Done(Ok(d)) if d == sha256_of(b"abc")));
}

#[test]
fn paths_are_taken_relative_to_the_repository() {
    let h = repo(true);
    assert_eq!(h.rel_path("/work/repo/src/a.ts").as_deref(), Some("src/a.ts"));
    assert_eq!(h.rel_path("/work/repo//src/./a.ts").as_deref(), Some("src/./a.ts"));
    assert_eq!(h.rel_path("/work/repo").as_deref(), Some(""));
    assert_eq!(h.rel_path("/work/repo2/a.ts"), None);
    assert_eq!(h.rel_path("src/a.ts"), None);
    assert_eq!(h.rel_path("/work/repo/a\\b").as_deref(), Some("a/b"));
}

#[test]
fn the_tier_needs_both_the_build_and_the_kernel() {
    assert_eq!(hash_tier(true, Some("lockdown,capability, bpf ,yama")), "kernel-atomic");
    assert_eq!(hash_tier(false, Some("bpf")), "userspace-hashed");
    assert_eq!(hash_tier(true, Some("bpfx,capability")), "userspace-hashed");
    assert_eq!(hash_tier(true, None), "userspace-hashed");
}

#[test]
fn the_same_bytes_carry_the_same_digest() {
    assert_eq!(sha256_of(b"x\n"), sha256_of(b"x\n"));
    assert_ne!(sha256_of(b"x\n"), sha256_of(b"x\r\n"));
    assert_eq!(sha256_of(b"some content"), "sha256:290f493c44f5d63d06b374d0a5abd292fae38b92cab2fae5efefe1b0e9347f56");
}
