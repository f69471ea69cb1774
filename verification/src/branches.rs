//! The checks a branch name passes before a branch is created, renamed or deleted.
use vstd::prelude::*;
use vstd::string::StrSliceExecFns;
use crate::text::{same_text, trim, trimmed};

verus! {

/// Why a branch operation was refused.
#[derive(Clone, Copy, Debug, PartialEq, Eq, Structural)]
pub enum BranchError {
    EmptyName,
    UnchangedName,
    NameTaken,
    CurrentBranch,
}

impl BranchError {
    pub fn message(&self) -> (m: &'static str)
        ensures
            m@ == match *self {
                BranchError::EmptyName => "branch name cannot be empty"@,
                BranchError::UnchangedName => "new branch name must differ from current branch name"@,
                BranchError::NameTaken => "branch name already exists"@,
                BranchError::CurrentBranch => "cannot delete the currently checked out branch"@,
            },
    {
        match self {
            BranchError::EmptyName => "branch name cannot be empty",
            BranchError::UnchangedName => "new branch name must differ from current branch name",
            BranchError::NameTaken => "branch name already exists",
            BranchError::CurrentBranch => "cannot delete the currently checked out branch",
        }
    }
}

/// The new name of a rename, trimmed; refused when blank or the same as the old name.
pub open spec fn renamed_branch(old_name: Seq<char>, new_name: Seq<char>) -> Result<Seq<char>, BranchError> {
    if trimmed(new_name).len() == 0 {
        Err(BranchError::EmptyName)
    } else if old_name == trimmed(new_name) {
        Err(BranchError::UnchangedName)
    } else {
        Ok(trimmed(new_name))
    }
}

pub fn normalize_renamed_branch<'name>(old_name: &str, new_name: &'name str) -> (r: Result<&'name str, BranchError>)
    ensures
        match r {
            Ok(name) => renamed_branch(old_name@, new_name@) == Ok::<Seq<char>, BranchError>(name@),
            Err(e) => renamed_branch(old_name@, new_name@) == Err::<Seq<char>, BranchError>(e),
        },
{
    let name = trim(new_name);
    if name.unicode_len() == 0 {
        return Err(BranchError::EmptyName);
    }
    if same_text(old_name, name) {
        return Err(BranchError::UnchangedName);
    }
    Ok(name)
}

/// A new branch's name must not be taken.
pub fn ensure_branch_name_available(taken: bool) -> (r: Result<(), BranchError>)
    ensures
        r == (if taken { Err::<(), BranchError>(BranchError::NameTaken) } else { Ok::<(), BranchError>(()) }),
{
    if taken {
        return Err(BranchError::NameTaken);
    }
    Ok(())
}

/// The checked-out branch cannot be deleted.
pub fn ensure_branch_is_not_current(is_current: bool) -> (r: Result<(), BranchError>)
    ensures
        r == (if is_current { Err::<(), BranchError>(BranchError::CurrentBranch) } else { Ok::<(), BranchError>(()) }),
{
    if is_current {
        return Err(BranchError::CurrentBranch);
    }
    Ok(())
}

} // verus!
