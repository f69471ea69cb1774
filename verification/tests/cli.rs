use guitar::cli::{has_flag, repo_path_from_args, SKIP_WORKDIR_STATUS, VERSION_SHORT};

fn args(list: &[&str]) -> Vec<String> {
    list.iter().map(|arg| arg.to_string()).collect()
}

#[test]
fn the_first_argument_that_is_not_a_flag_is_the_repository() {
    assert_eq!(repo_path_from_args(&args(&["guitar", "--reset", "/work/repo", "/other"])), Some("/work/repo".to_string()));
    assert_eq!(repo_path_from_args(&args(&["guitar", "-v"])), None);
    assert_eq!(repo_path_from_args(&args(&["/work/repo"])), None);
    assert_eq!(repo_path_from_args(&args(&[])), None);
}

#[test]
fn flags_are_matched_exactly() {
    let list = args(&["guitar", "--skip-workdir-status", "-vv"]);
    assert!(has_flag(&list, SKIP_WORKDIR_STATUS));
    assert!(!has_flag(&list, VERSION_SHORT));
}
