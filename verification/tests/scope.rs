use ci_tracer::scope::{in_scope, is_under};

const WD: &str = "/work/repo";

#[test]
fn includes_repo_relative_source() {
    assert!(in_scope("/work/repo/src/auth.ts", WD));
    assert!(in_scope("/work/repo/dist/out.js", WD));
}

#[test]
fn excludes_node_modules_and_git() {
    assert!(!in_scope("/work/repo/node_modules/x/index.js", WD));
    assert!(!in_scope("/work/repo/.git/HEAD", WD));
}

#[test]
fn excludes_system_paths() {
    assert!(!in_scope("/usr/lib/x.so", WD));
    assert!(!in_scope("/etc/passwd", WD));
    assert!(!in_scope("/tmp/scratch", WD));
}

#[test]
fn excludes_out_of_tree() {
    assert!(!in_scope("/work/other/file.ts", WD));
    assert!(!in_scope("/home/runner/.cache/x", WD));
}

#[test]
fn excludes_relative_and_directory_root() {
    assert!(!in_scope("relative/path", WD));
    assert!(!in_scope("/work/repo", WD));
}

#[test]
fn respects_directory_boundary() {
    assert!(!in_scope("/work/repo2/a.ts", WD));
}

#[test]
fn trailing_slashes_on_the_directory_do_not_matter() {
    assert!(in_scope("/work/repo/a.ts", "/work/repo/"));
    assert!(in_scope("/work/repo/a.ts", "/work/repo///"));
    assert!(!in_scope("/work/repo2/a.ts", "/work/repo/"));
}

#[test]
fn an_unknown_directory_bounds_nothing() {
    assert!(!in_scope("/work/repo/a.ts", ""));
    assert!(!in_scope("", WD));
}

#[test]
fn the_root_directory_holds_everything() {
    assert!(in_scope("/a", "/"));
    assert!(is_under("/a/b", "/"));
    assert!(!is_under("/", "/a"));
}

#[test]
fn names_that_merely_resemble_the_excluded_directories_are_kept() {
    assert!(in_scope("/work/repo/my_node_modules/x.js", WD));
    assert!(in_scope("/work/repo/.gitignore", WD));
    assert!(in_scope("/work/repo/src/node_modules", WD));
    assert!(!in_scope("/work/repo/sub/node_modules/x.js", WD));
}
