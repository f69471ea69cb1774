//! What the status panes show of the working tree: each path sorted into staged and unstaged
//! modifications, additions and deletions, the conflicted paths once each, and the counts the
//! status bar reads.
use vstd::prelude::*;
use crate::text::same_text;

verus! {

/// How a file changed in a commit.
#[derive(Clone, Copy, Debug, PartialEq, Eq, Structural)]
pub enum FileStatus {
    Added,
    Modified,
    Deleted,
    Renamed,
    Other,
}

/// A changed file and how it changed.
#[derive(Clone, Debug, PartialEq, Eq)]
pub struct FileChange {
    pub filename: String,
    pub status: FileStatus,
}

/// The status bits of one path that the status panes read.
#[derive(Clone, Copy, Debug, PartialEq, Eq, Structural)]
pub struct StatusFlags {
    pub conflicted: bool,
    pub index_modified: bool,
    pub index_new: bool,
    pub index_deleted: bool,
    pub wt_modified: bool,
    pub wt_new: bool,
    pub wt_deleted: bool,
}

/// One side of the uncommitted changes.
#[derive(Debug)]
pub struct FileChanges {
    pub modified: Vec<String>,
    pub added: Vec<String>,
    pub deleted: Vec<String>,
}

/// The uncommitted changes of a working tree.
#[derive(Debug)]
pub struct UncommittedChanges {
    pub staged: FileChanges,
    pub unstaged: FileChanges,
    pub conflicts: Vec<String>,
    pub modified_count: usize,
    pub added_count: usize,
    pub deleted_count: usize,
    pub conflict_count: usize,
    pub has_conflicts: bool,
    pub is_staged: bool,
    pub is_unstaged: bool,
    pub is_clean: bool,
}

/// Which of the six lists a path goes into.
#[derive(Clone, Copy, Debug, PartialEq, Eq, Structural)]
pub enum Pane {
    StagedModified,
    StagedAdded,
    StagedDeleted,
    UnstagedModified,
    UnstagedAdded,
    UnstagedDeleted,
}

/// Whether a path with these bits is listed in `pane`. A conflicted path is listed only among
/// the conflicts.
pub open spec fn listed_in(flags: StatusFlags, pane: Pane) -> bool {
    !flags.conflicted && match pane {
        Pane::StagedModified => flags.index_modified,
        Pane::StagedAdded => flags.index_new,
        Pane::StagedDeleted => flags.index_deleted,
        Pane::UnstagedModified => flags.wt_modified,
        Pane::UnstagedAdded => flags.wt_new,
        Pane::UnstagedDeleted => flags.wt_deleted,
    }
}

/// The paths listed in `pane`, in the order they were reported.
pub open spec fn pane_paths(entries: Seq<(Seq<char>, StatusFlags)>, pane: Pane) -> Seq<Seq<char>>
    decreases entries.len(),
{
    if entries.len() == 0 {
        Seq::empty()
    } else {
        let rest = pane_paths(entries.drop_last(), pane);
        if listed_in(entries.last().1, pane) {
            rest.push(entries.last().0)
        } else {
            rest
        }
    }
}

/// The conflicted paths, in the order they were reported.
pub open spec fn conflicted_paths(entries: Seq<(Seq<char>, StatusFlags)>) -> Seq<Seq<char>>
    decreases entries.len(),
{
    if entries.len() == 0 {
        Seq::empty()
    } else {
        let rest = conflicted_paths(entries.drop_last());
        if entries.last().1.conflicted {
            rest.push(entries.last().0)
        } else {
            rest
        }
    }
}

/// Each path once, where it first appears.
pub open spec fn first_occurrences(paths: Seq<Seq<char>>) -> Seq<Seq<char>>
    decreases paths.len(),
{
    if paths.len() == 0 {
        Seq::empty()
    } else {
        let rest = first_occurrences(paths.drop_last());
        if rest.contains(paths.last()) {
            rest
        } else {
            rest.push(paths.last())
        }
    }
}

pub open spec fn paths_view(paths: Seq<String>) -> Seq<Seq<char>> {
    paths.map_values(|p: String| p@)
}

pub open spec fn entries_view(entries: Seq<(String, StatusFlags)>) -> Seq<(Seq<char>, StatusFlags)> {
    entries.map_values(|e: (String, StatusFlags)| (e.0@, e.1))
}

/// Each path is listed once among its first occurrences, and every path is listed: the
/// conflicts pane names each conflicted path exactly once.
pub proof fn lemma_first_occurrences(paths: Seq<Seq<char>>)
    ensures
        first_occurrences(paths).no_duplicates(),
        first_occurrences(paths).to_set() == paths.to_set(),
    decreases paths.len(),
{
    if paths.len() > 0 {
        let init = paths.drop_last();
        lemma_first_occurrences(init);
        let rest = first_occurrences(init);
        assert(paths =~= init.push(paths.last()));
        init.lemma_push_to_set_commute(paths.last());
        if !rest.contains(paths.last()) {
            rest.lemma_push_to_set_commute(paths.last());
            assert forall|i: int, j: int| 0 <= i < j < rest.push(paths.last()).len() implies rest.push(paths.last())[i]
                != rest.push(paths.last())[j] by {
                if j == rest.len() {
                    assert(rest[i] == rest.push(paths.last())[i]);
                }
            }
        } else {
            assert(rest.to_set().insert(paths.last()) =~= rest.to_set());
        }
    }
}

/// Adds `path` unless it is already listed.
pub fn push_unique(paths: &mut Vec<String>, path: String)
    ensures
        paths_view(final(paths)@) == if paths_view(old(paths)@).contains(path@) {
            paths_view(old(paths)@)
        } else {
            paths_view(old(paths)@).push(path@)
        },
{
    let mut i: usize = 0;
    while i < paths.len()
        invariant
            i <= paths@.len(),
            forall|j: int| 0 <= j < i ==> (#[trigger] paths@[j])@ != path@,
        decreases paths@.len() - i,
    {
        if same_text(paths[i].as_str(), path.as_str()) {
            proof {
                assert(paths_view(paths@)[i as int] == path@);
            }
            return;
        }
        i = i + 1;
    }
    proof {
        assert forall|j: int| 0 <= j < paths_view(paths@).len() implies paths_view(paths@)[j] != path@ by {
            assert(paths_view(paths@)[j] == paths@[j]@);
        }
    }
    let ghost before = paths@;
    paths.push(path);
    proof {
        assert(paths_view(paths@) =~= paths_view(before).push(path@));
    }
}

/// How many different paths the two lists hold together.
pub fn deduplicate(first: &Vec<String>, second: &Vec<String>) -> (n: usize)
    ensures
        n == (paths_view(first@) + paths_view(second@)).to_set().len(),
{
    let ghost all = paths_view(first@) + paths_view(second@);
    let mut seen: Vec<String> = Vec::new();
    let mut i: usize = 0;
    while i < first.len()
        invariant
            i <= first@.len(),
            all == paths_view(first@) + paths_view(second@),
            paths_view(seen@) == first_occurrences(all.take(i as int)),
        decreases first@.len() - i,
    {
        proof {
            assert(all.take(i + 1).drop_last() =~= all.take(i as int));
            assert(all.take(i + 1).last() == first@[i as int]@);
        }
        push_unique(&mut seen, first[i].clone());
        i = i + 1;
    }
    let mut k: usize = 0;
    while k < second.len()
        invariant
            k <= second@.len(),
            all == paths_view(first@) + paths_view(second@),
            paths_view(seen@) == first_occurrences(all.take(first@.len() + k)),
        decreases second@.len() - k,
    {
        proof {
            assert(all.take(first@.len() + k + 1).drop_last() =~= all.take(first@.len() + k));
            assert(all.take(first@.len() + k + 1).last() == second@[k as int]@);
        }
        push_unique(&mut seen, second[k].clone());
        k = k + 1;
    }
    proof {
        assert(all.take((first@.len() + second@.len()) as int) =~= all);
        lemma_first_occurrences(all);
        first_occurrences(all).unique_seq_to_set();
    }
    seen.len()
}

impl FileChanges {
    pub fn new() -> (c: FileChanges)
        ensures
            c.modified@.len() == 0,
            c.added@.len() == 0,
            c.deleted@.len() == 0,
    {
        FileChanges { modified: Vec::new(), added: Vec::new(), deleted: Vec::new() }
    }

    pub fn is_empty(&self) -> (b: bool)
        ensures
            b == (self.modified@.len() == 0 && self.added@.len() == 0 && self.deleted@.len() == 0),
    {
        self.modified.len() == 0 && self.added.len() == 0 && self.deleted.len() == 0
    }
}

/// The six lists, the conflicts and the counts for paths reported with `entries`, followed by the
/// paths the index lists as conflicted.
pub open spec fn changes_match(c: UncommittedChanges, entries: Seq<(Seq<char>, StatusFlags)>, index_conflicts: Seq<Seq<char>>) -> bool {
    &&& paths_view(c.staged.modified@) == pane_paths(entries, Pane::StagedModified)
    &&& paths_view(c.staged.added@) == pane_paths(entries, Pane::StagedAdded)
    &&& paths_view(c.staged.deleted@) == pane_paths(entries, Pane::StagedDeleted)
    &&& paths_view(c.unstaged.modified@) == pane_paths(entries, Pane::UnstagedModified)
    &&& paths_view(c.unstaged.added@) == pane_paths(entries, Pane::UnstagedAdded)
    &&& paths_view(c.unstaged.deleted@) == pane_paths(entries, Pane::UnstagedDeleted)
    &&& paths_view(c.conflicts@) == first_occurrences(conflicted_paths(entries) + index_conflicts)
    &&& c.modified_count == (pane_paths(entries, Pane::StagedModified) + pane_paths(entries, Pane::UnstagedModified)).to_set().len()
    &&& c.added_count == (pane_paths(entries, Pane::StagedAdded) + pane_paths(entries, Pane::UnstagedAdded)).to_set().len()
    &&& c.deleted_count == (pane_paths(entries, Pane::StagedDeleted) + pane_paths(entries, Pane::UnstagedDeleted)).to_set().len()
    &&& c.conflict_count == c.conflicts@.len()
    &&& c.has_conflicts == (c.conflicts@.len() > 0)
    &&& c.is_staged == (c.has_conflicts || c.staged.modified@.len() > 0 || c.staged.added@.len() > 0 || c.staged.deleted@.len() > 0)
    &&& c.is_unstaged == (c.has_conflicts || c.unstaged.modified@.len() > 0 || c.unstaged.added@.len() > 0 || c.unstaged.deleted@.len() > 0)
    &&& c.is_clean == (!c.is_staged && !c.is_unstaged && !c.has_conflicts)
}

impl UncommittedChanges {
    /// Sorts the reported paths into the panes: `entries` are the paths with their status bits,
    /// in the order they were reported, and `index_conflicts` the paths the index holds as
    /// conflicted. A conflicted path is listed once, among the conflicts only.
    pub fn from_statuses(entries: Vec<(String, StatusFlags)>, index_conflicts: Vec<String>) -> (c: UncommittedChanges)
        ensures
            changes_match(c, entries_view(entries@), paths_view(index_conflicts@)),
    {
        let ghost es = entries_view(entries@);
        let ghost ics = paths_view(index_conflicts@);
        let mut staged = FileChanges::new();
        let mut unstaged = FileChanges::new();
        let mut conflicts: Vec<String> = Vec::new();
        let mut i: usize = 0;
        while i < entries.len()
            invariant
                i <= entries@.len(),
                es == entries_view(entries@),
                paths_view(staged.modified@) == pane_paths(es.take(i as int), Pane::StagedModified),
                paths_view(staged.added@) == pane_paths(es.take(i as int), Pane::StagedAdded),
                paths_view(staged.deleted@) == pane_paths(es.take(i as int), Pane::StagedDeleted),
                paths_view(unstaged.modified@) == pane_paths(es.take(i as int), Pane::UnstagedModified),
                paths_view(unstaged.added@) == pane_paths(es.take(i as int), Pane::UnstagedAdded),
                paths_view(unstaged.deleted@) == pane_paths(es.take(i as int), Pane::UnstagedDeleted),
                paths_view(conflicts@) == first_occurrences(conflicted_paths(es.take(i as int))),
            decreases entries@.len() - i,
        {
            let path = &entries[i].0;
            let flags = entries[i].1;
            proof {
                assert(es.take(i + 1).drop_last() =~= es.take(i as int));
                assert(es.take(i + 1).last() == (path@, flags));
                let all = conflicted_paths(es.take(i + 1));
                if flags.conflicted {
                    assert(all.drop_last() == conflicted_paths(es.take(i as int)));
                }
            }
            if flags.conflicted {
                let ghost before = conflicted_paths(es.take(i as int));
                proof {
                    assert(conflicted_paths(es.take(i + 1)) == before.push(path@));
                    assert(conflicted_paths(es.take(i + 1)).drop_last() =~= before);
                }
                push_unique(&mut conflicts, path.clone());
            } else {
                proof {
                    assert(conflicted_paths(es.take(i + 1)) == conflicted_paths(es.take(i as int)));
                }
                push_if(&mut staged.modified, flags.index_modified, path);
                push_if(&mut staged.added, flags.index_new, path);
                push_if(&mut staged.deleted, flags.index_deleted, path);
                push_if(&mut unstaged.modified, flags.wt_modified, path);
                push_if(&mut unstaged.added, flags.wt_new, path);
                push_if(&mut unstaged.deleted, flags.wt_deleted, path);
            }
            i = i + 1;
        }
        proof {
            assert(es.take(entries@.len() as int) =~= es);
        }
        let ghost reported = conflicted_paths(es);
        proof {
            assert((reported + ics).take(reported.len() as int) =~= reported);
        }
        let mut k: usize = 0;
        while k < index_conflicts.len()
            invariant
                k <= index_conflicts@.len(),
                ics == paths_view(index_conflicts@),
                paths_view(conflicts@) == first_occurrences((reported + ics).take(reported.len() + k)),
            decreases index_conflicts@.len() - k,
        {
            proof {
                let all = reported + ics;
                assert(all.take(reported.len() + k + 1).drop_last() =~= all.take(reported.len() + k));
                assert(all.take(reported.len() + k + 1).last() == index_conflicts@[k as int]@);
            }
            push_unique(&mut conflicts, index_conflicts[k].clone());
            k = k + 1;
        }
        proof {
            assert((reported + ics).take((reported.len() + ics.len()) as int) =~= reported + ics);
        }
        let modified_count = deduplicate(&staged.modified, &unstaged.modified);
        let added_count = deduplicate(&staged.added, &unstaged.added);
        let deleted_count = deduplicate(&staged.deleted, &unstaged.deleted);
        let conflict_count = conflicts.len();
        let has_conflicts = conflict_count > 0;
        let is_staged = has_conflicts || !staged.is_empty();
        let is_unstaged = has_conflicts || !unstaged.is_empty();
        let is_clean = !is_staged && !is_unstaged && !has_conflicts;
        UncommittedChanges {
            staged,
            unstaged,
            conflicts,
            modified_count,
            added_count,
            deleted_count,
            conflict_count,
            has_conflicts,
            is_staged,
            is_unstaged,
            is_clean,
        }
    }
}

fn push_if(paths: &mut Vec<String>, listed: bool, path: &String)
    ensures
        paths_view(final(paths)@) == if listed {
            paths_view(old(paths)@).push(path@)
        } else {
            paths_view(old(paths)@)
        },
{
    if listed {
        let ghost before = paths@;
        paths.push(path.clone());
        proof {
            assert(paths_view(paths@) =~= paths_view(before).push(path@));
        }
    }
}

/// A pane lists only paths that were reported without a conflict: a conflicted path shows among
/// the conflicts and nowhere else.
pub proof fn lemma_panes_hold_no_conflicts(entries: Seq<(Seq<char>, StatusFlags)>, pane: Pane)
    ensures
        forall|k: int| 0 <= k < pane_paths(entries, pane).len() ==> exists|e: int| 0 <= e < entries.len()
            && (#[trigger] entries[e]).0 == #[trigger] pane_paths(entries, pane)[k] && !entries[e].1.conflicted,
    decreases entries.len(),
{
    if entries.len() > 0 {
        let init = entries.drop_last();
        lemma_panes_hold_no_conflicts(init, pane);
        let rest = pane_paths(init, pane);
        let all = pane_paths(entries, pane);
        assert forall|k: int| 0 <= k < all.len() implies exists|e: int| 0 <= e < entries.len()
            && (#[trigger] entries[e]).0 == #[trigger] all[k] && !entries[e].1.conflicted by {
            if k < rest.len() {
                assert(all[k] == rest[k]);
                let e = choose|e: int| 0 <= e < init.len() && (#[trigger] init[e]).0 == rest[k] && !init[e].1.conflicted;
                assert(entries[e] == init[e]);
            } else {
                assert(entries[entries.len() - 1] == entries.last());
            }
        }
    }
}

} // verus!
