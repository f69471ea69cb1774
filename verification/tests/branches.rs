use guitar::branches::{ensure_branch_is_not_current, ensure_branch_name_available, normalize_renamed_branch, BranchError};

#[test]
fn a_renamed_branch_needs_a_new_name() {
    assert_eq!(normalize_renamed_branch("main", "  trunk "), Ok("trunk"));
    assert_eq!(normalize_renamed_branch("main", " main "), Err(BranchError::UnchangedName));
    assert_eq!(normalize_renamed_branch("main", "   "), Err(BranchError::EmptyName));
    assert_eq!(BranchError::EmptyName.message(), "branch name cannot be empty");
}

#[test]
fn taken_names_and_the_current_branch_are_refused() {
    assert_eq!(ensure_branch_name_available(true), Err(BranchError::NameTaken));
    assert_eq!(ensure_branch_name_available(false), Ok(()));
    assert_eq!(ensure_branch_is_not_current(true).unwrap_err().message(), "cannot delete the currently checked out branch");
    assert_eq!(ensure_branch_is_not_current(false), Ok(()));
}
