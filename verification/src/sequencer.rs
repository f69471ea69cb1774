//! The decisions around git's multi-step operations: fetching in the background, rebasing,
//! cherry-picking and reverting. The repository work itself is done by the caller, which hands
//! back what came of each step.
use vstd::prelude::*;
use vstd::string::StrSliceExecFns;
use crate::oids::Oid;
use crate::text::{same_text, starts_with, trim, trim_start, trimmed, trimmed_start};

verus! {

/// What a background fetch came to: whether it moved any ref, and whether it worked at all.
#[derive(Clone, Copy, Debug, PartialEq, Eq, Structural)]
pub struct QuietFetchOutcome {
    pub changed: bool,
    pub ok: bool,
}

pub open spec fn refs_view(refs: Seq<(String, Oid)>) -> Seq<(Seq<char>, Oid)> {
    refs.map_values(|r: (String, Oid)| (r.0@, r.1))
}

/// Whether two snapshots of refs list the same refs at the same commits, in the same order.
pub fn same_refs(first: &Vec<(String, Oid)>, second: &Vec<(String, Oid)>) -> (b: bool)
    ensures
        b == (refs_view(first@) == refs_view(second@)),
{
    if first.len() != second.len() {
        proof {
            assert(refs_view(first@).len() != refs_view(second@).len());
        }
        return false;
    }
    let mut i: usize = 0;
    while i < first.len()
        invariant
            first@.len() == second@.len(),
            i <= first@.len(),
            forall|j: int| 0 <= j < i ==> refs_view(first@)[j] == refs_view(second@)[j],
        decreases first@.len() - i,
    {
        if !same_text(first[i].0.as_str(), second[i].0.as_str()) || first[i].1 != second[i].1 {
            proof {
                assert(refs_view(first@)[i as int] != refs_view(second@)[i as int]);
            }
            return false;
        }
        proof {
            assert(refs_view(first@)[i as int] == (first@[i as int].0@, first@[i as int].1));
            assert(refs_view(second@)[i as int] == (second@[i as int].0@, second@[i as int].1));
        }
        i = i + 1;
    }
    proof {
        assert(refs_view(first@) =~= refs_view(second@));
    }
    true
}

impl QuietFetchOutcome {
    /// The outcome of a background fetch, from the refs before it and, when it worked, the refs
    /// after it. A failure never counts as a change.
    pub fn settle(before: &Vec<(String, Oid)>, after: Option<&Vec<(String, Oid)>>) -> (o: QuietFetchOutcome)
        ensures
            o == match after {
                Some(a) => QuietFetchOutcome { changed: refs_view(before@) != refs_view(a@), ok: true },
                None => QuietFetchOutcome { changed: false, ok: false },
            },
    {
        match after {
            Some(a) => QuietFetchOutcome { changed: !same_refs(before, a), ok: true },
            None => QuietFetchOutcome { changed: false, ok: false },
        }
    }
}

/// What state a repository is in, as git records it.
#[derive(Clone, Copy, Debug, PartialEq, Eq, Structural)]
pub enum RepositoryState {
    Clean,
    Merge,
    Revert,
    RevertSequence,
    CherryPick,
    CherryPickSequence,
    Bisect,
    Rebase,
    RebaseInteractive,
    RebaseMerge,
    ApplyMailbox,
    ApplyMailboxOrRebase,
}

pub fn is_rebase_state(state: RepositoryState) -> (b: bool)
    ensures
        b == (state == RepositoryState::Rebase || state == RepositoryState::RebaseInteractive || state
            == RepositoryState::RebaseMerge || state == RepositoryState::ApplyMailboxOrRebase),
{
    match state {
        RepositoryState::Rebase | RepositoryState::RebaseInteractive | RepositoryState::RebaseMerge
        | RepositoryState::ApplyMailboxOrRebase => true,
        _ => false,
    }
}

pub fn is_cherrypick_state(state: RepositoryState) -> (b: bool)
    ensures
        b == (state == RepositoryState::CherryPick || state == RepositoryState::CherryPickSequence),
{
    match state {
        RepositoryState::CherryPick | RepositoryState::CherryPickSequence => true,
        _ => false,
    }
}

pub fn is_revert_state(state: RepositoryState) -> (b: bool)
    ensures
        b == (state == RepositoryState::Revert || state == RepositoryState::RevertSequence),
{
    match state {
        RepositoryState::Revert | RepositoryState::RevertSequence => true,
        _ => false,
    }
}

/// What a rebase came to.
#[derive(Clone, Copy, Debug, PartialEq, Eq, Structural)]
pub enum RebaseOutcome {
    Completed { applied: usize },
    Conflict,
    Aborted,
}

/// What the next step of a rebase turned out to be.
#[derive(Clone, Copy, Debug, PartialEq, Eq, Structural)]
pub enum RebaseStep {
    /// An operation was applied; `has_conflicts` says whether the index then holds conflicts.
    Applied { has_conflicts: bool },
    /// Applying the next operation failed.
    Failed,
    /// No operation is left.
    Done,
}

/// What to do after a step of a rebase.
#[derive(Clone, Copy, Debug, PartialEq, Eq, Structural)]
pub enum RebaseAction {
    /// Commit the applied operation and go on, `applied` operations in.
    CommitAndContinue { applied: usize },
    /// Stop and leave the conflict to the user.
    Stop(RebaseOutcome),
    /// Hand back the failure.
    Fail,
    /// Finish the rebase, which then comes to `outcome`.
    Finish(RebaseOutcome),
}

/// Drives a rebase one step: an applied operation is committed unless it conflicts; when nothing
/// is left the rebase is finished with the count of operations committed.
pub fn rebase_decision(applied: usize, step: RebaseStep) -> (action: RebaseAction)
    requires
        applied < usize::MAX,
    ensures
        action == match step {
            RebaseStep::Applied { has_conflicts } => if has_conflicts {
                RebaseAction::Stop(RebaseOutcome::Conflict)
            } else {
                RebaseAction::CommitAndContinue { applied: (applied + 1) as usize }
            },
            RebaseStep::Failed => RebaseAction::Fail,
            RebaseStep::Done => RebaseAction::Finish(RebaseOutcome::Completed { applied }),
        },
{
    match step {
        RebaseStep::Applied { has_conflicts } => {
            if has_conflicts {
                RebaseAction::Stop(RebaseOutcome::Conflict)
            } else {
                RebaseAction::CommitAndContinue { applied: applied + 1 }
            }
        },
        RebaseStep::Failed => RebaseAction::Fail,
        RebaseStep::Done => RebaseAction::Finish(RebaseOutcome::Completed { applied }),
    }
}

/// What a cherry-pick came to.
#[derive(Clone, Copy, Debug, PartialEq, Eq, Structural)]
pub enum CherrypickOutcome {
    Committed { oid: Oid },
    Conflict,
    Aborted,
}

/// What a revert came to.
#[derive(Clone, Copy, Debug, PartialEq, Eq, Structural)]
pub enum RevertOutcome {
    Committed { oid: Oid },
    Conflict,
    Aborted,
}

/// The message a finished cherry-pick is committed with when none was kept.
pub const CHERRYPICK_FALLBACK_MESSAGE: &'static str = "cherrypicked: Cherry-pick commit";

/// The message a finished revert is committed with when none was kept.
pub const REVERT_FALLBACK_MESSAGE: &'static str = "reverted: Revert commit";

pub open spec fn blank(s: Seq<char>) -> bool {
    trimmed(s).len() == 0
}

/// The message to commit with: the one the app kept, else git's merge message, else `fallback`;
/// a blank message counts as none.
pub open spec fn chosen_message(kept: Option<Seq<char>>, merge: Option<Seq<char>>, fallback: Seq<char>) -> Seq<char> {
    if kept matches Some(k) && !blank(k) {
        kept.unwrap()
    } else if merge matches Some(m) && !blank(m) {
        merge.unwrap()
    } else {
        fallback
    }
}

fn is_blank(s: &str) -> (b: bool)
    ensures
        b == blank(s@),
{
    trim(s).unicode_len() == 0
}

pub fn pick_message(kept: Option<&str>, merge: Option<&str>, fallback: &str) -> (m: String)
    ensures
        m@ == chosen_message(
            match kept {
                Some(k) => Some(k@),
                None => None,
            },
            match merge {
                Some(g) => Some(g@),
                None => None,
            },
            fallback@,
        ),
{
    if let Some(k) = kept {
        if !is_blank(k) {
            return String::from_str(k);
        }
    }
    if let Some(g) = merge {
        if !is_blank(g) {
            return String::from_str(g);
        }
    }
    String::from_str(fallback)
}

/// A line without the carriage return that ended it, if it had one.
pub open spec fn without_carriage_return(line: Seq<char>) -> Seq<char> {
    if line.len() > 0 && line.last() == '\r' {
        line.drop_last()
    } else {
        line
    }
}

/// The lines of the rest of a text, `line` being the part of the current line read so far: each
/// `\n` ends a line, which then loses a `\r` just before it; the last line needs no `\n`, and
/// nothing after a final `\n` makes a line.
pub open spec fn split_lines(rest: Seq<char>, line: Seq<char>) -> Seq<Seq<char>>
    decreases rest.len(),
{
    if rest.len() == 0 {
        if line.len() == 0 {
            Seq::empty()
        } else {
            seq![line]
        }
    } else if rest[0] == '\n' {
        seq![without_carriage_return(line)] + split_lines(rest.drop_first(), Seq::empty())
    } else {
        split_lines(rest.drop_first(), line.push(rest[0]))
    }
}

/// The lines of a text: split at `\n` or `\r\n`, without the line endings.
pub open spec fn text_lines(s: Seq<char>) -> Seq<Seq<char>> {
    split_lines(s, Seq::empty())
}

/// `str::lines`: the lines of `s`, split at `\n` or `\r\n`, without the line endings; a final
/// line ending adds no empty line.
#[verifier::external_body]
fn lines(s: &str) -> (r: Vec<&str>)
    ensures
        r@.map_values(|l: &str| l@) == text_lines(s@),
{
    s.lines().collect()
}

/// Whether a line opens, divides or closes a conflict, once its indentation is set aside.
pub open spec fn marks_conflict(line: Seq<char>) -> bool {
    let l = trimmed_start(line);
    ||| (l.len() >= 7 && l.subrange(0, 7) == "<<<<<<<"@)
    ||| (l.len() >= 7 && l.subrange(0, 7) == "======="@)
    ||| (l.len() >= 7 && l.subrange(0, 7) == ">>>>>>>"@)
}

fn line_marks_conflict(line: &str) -> (b: bool)
    ensures
        b == marks_conflict(line@),
{
    let l = trim_start(line);
    proof {
        reveal_strlit("<<<<<<<");
        reveal_strlit("=======");
        reveal_strlit(">>>>>>>");
    }
    starts_with(l, "<<<<<<<") || starts_with(l, "=======") || starts_with(l, ">>>>>>>")
}

/// Whether a file's text still holds a conflict marker on any line.
pub fn has_conflict_markers(content: &str) -> (b: bool)
    ensures
        b == exists|i: int| 0 <= i < text_lines(content@).len() && marks_conflict(#[trigger] text_lines(content@)[i]),
{
    let all = lines(content);
    let ghost views = all@.map_values(|l: &str| l@);
    let mut i: usize = 0;
    while i < all.len()
        invariant
            views == all@.map_values(|l: &str| l@),
            views == text_lines(content@),
            i <= all@.len(),
            forall|j: int| 0 <= j < i ==> !marks_conflict(#[trigger] views[j]),
        decreases all@.len() - i,
    {
        if line_marks_conflict(all[i]) {
            proof {
                assert(views[i as int] == all@[i as int]@);
                assert(marks_conflict(views[i as int]));
            }
            return true;
        }
        proof {
            assert(views[i as int] == all@[i as int]@);
        }
        i = i + 1;
    }
    false
}

} // verus!
