use guitar::watch::is_excluded;

#[test]
fn excludes_git_object_storage_but_keeps_refs() {
    let root = "/work/repo";
    assert!(is_excluded("/work/repo/.git/objects/ab/cdef", root));
    assert!(is_excluded("/work/repo/.git/logs/HEAD", root));
    assert!(!is_excluded("/work/repo/.git/refs/heads/main", root));
    assert!(!is_excluded("/work/repo/.git/packed-refs", root));
    assert!(!is_excluded("/work/repo/.git/HEAD", root));
    assert!(!is_excluded("/work/repo/.git", root));
}

#[test]
fn excludes_build_directories_but_keeps_sources() {
    let root = "/work/repo";
    assert!(is_excluded("/work/repo/target/debug/guitar", root));
    assert!(is_excluded("/work/repo/node_modules/left-pad/index.js", root));
    assert!(!is_excluded("/work/repo/src/main.rs", root));
    assert!(!is_excluded(root, root));
    assert!(!is_excluded("/somewhere/else", root));
}
