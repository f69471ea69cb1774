//! How a file changed in a commit, read off the changes between the commit's tree and its first
//! parent's, as either git backend reports them.
use vstd::prelude::*;
use vstd::string::{StrSliceExecFns, StringSliceAdditionalSpecFns};
use crate::status::{FileChange, FileStatus};
use crate::text::{trim, trimmed};

verus! {

/// How the first git backend reports a change to a file.
#[derive(Clone, Copy, Debug, PartialEq, Eq, Structural)]
pub enum DeltaKind {
    Unmodified,
    Added,
    Deleted,
    Modified,
    Renamed,
    Copied,
    Ignored,
    Untracked,
    Typechange,
    Unreadable,
    Conflicted,
}

pub open spec fn status_of_delta(delta: DeltaKind) -> FileStatus {
    match delta {
        DeltaKind::Added => FileStatus::Added,
        DeltaKind::Modified => FileStatus::Modified,
        DeltaKind::Deleted => FileStatus::Deleted,
        DeltaKind::Renamed => FileStatus::Renamed,
        _ => FileStatus::Other,
    }
}

pub fn file_status(delta: DeltaKind) -> (s: FileStatus)
    ensures
        s == status_of_delta(delta),
{
    match delta {
        DeltaKind::Added => FileStatus::Added,
        DeltaKind::Modified => FileStatus::Modified,
        DeltaKind::Deleted => FileStatus::Deleted,
        DeltaKind::Renamed => FileStatus::Renamed,
        _ => FileStatus::Other,
    }
}

/// Each kind of change keeps its own name as a status: an added file is added, a modified one
/// modified, a deleted one deleted and a renamed one renamed; every other kind is reported as
/// other. In particular a deleted file is never listed as modified.
pub proof fn lemma_statuses_name_their_changes(delta: DeltaKind)
    ensures
        delta == DeltaKind::Added <==> status_of_delta(delta) == FileStatus::Added,
        delta == DeltaKind::Modified <==> status_of_delta(delta) == FileStatus::Modified,
        delta == DeltaKind::Deleted <==> status_of_delta(delta) == FileStatus::Deleted,
        delta == DeltaKind::Renamed <==> status_of_delta(delta) == FileStatus::Renamed,
        delta != DeltaKind::Added && delta != DeltaKind::Modified && delta != DeltaKind::Deleted
            && delta != DeltaKind::Renamed <==> status_of_delta(delta) == FileStatus::Other,
{
}

/// What kind of entry a tree holds at a path.
#[derive(Clone, Copy, Debug, PartialEq, Eq, Structural)]
pub struct EntryKind {
    pub is_tree: bool,
    pub is_link: bool,
    pub is_commit: bool,
}

/// Whether an entry changed kind: between file, directory, link and submodule.
pub open spec fn changed_kind(previous: EntryKind, now: EntryKind) -> bool {
    previous.is_tree != now.is_tree || previous.is_link != now.is_link || previous.is_commit != now.is_commit
}

pub fn typechange(previous: &EntryKind, now: &EntryKind) -> (b: bool)
    ensures
        b == changed_kind(*previous, *now),
{
    previous.is_tree != now.is_tree || previous.is_link != now.is_link || previous.is_commit != now.is_commit
}

/// How the second git backend reports a change between two trees; locations are the bytes of
/// the paths.
#[derive(Clone, Debug, PartialEq, Eq)]
pub enum TreeChange {
    Addition { location: Vec<u8> },
    Deletion { location: Vec<u8> },
    Modification { location: Vec<u8>, previous_entry_mode: EntryKind, entry_mode: EntryKind },
    Rewrite { source_location: Vec<u8>, location: Vec<u8>, copy: bool },
}

pub fn path_matches(location: &[u8], path: &str) -> (b: bool)
    ensures
        b == (location@ == path.spec_bytes()),
{
    let bytes = path.as_bytes();
    if location.len() != bytes.len() {
        return false;
    }
    let mut i: usize = 0;
    while i < location.len()
        invariant
            bytes@ == path.spec_bytes(),
            location@.len() == bytes@.len(),
            i <= location@.len(),
            forall|j: int| 0 <= j < i ==> location@[j] == bytes@[j],
        decreases location@.len() - i,
    {
        if location[i] != bytes[i] {
            return false;
        }
        i = i + 1;
    }
    proof {
        assert(location@ =~= bytes@);
    }
    true
}

/// What a change says of `path`: an addition or a deletion of it, a modification (a deletion when
/// the entry changed kind), or a rewrite to or from it; a copy to it counts as an addition.
pub open spec fn change_status(change: TreeChange, path: &str) -> Option<FileStatus> {
    match change {
        TreeChange::Addition { location } => if location@ == path.spec_bytes() {
            Some(FileStatus::Added)
        } else {
            None
        },
        TreeChange::Deletion { location } => if location@ == path.spec_bytes() {
            Some(FileStatus::Deleted)
        } else {
            None
        },
        TreeChange::Modification { location, previous_entry_mode, entry_mode } => if location@ == path.spec_bytes() {
            if changed_kind(previous_entry_mode, entry_mode) {
                Some(FileStatus::Deleted)
            } else {
                Some(FileStatus::Modified)
            }
        } else {
            None
        },
        TreeChange::Rewrite { source_location, location, copy } => if location@ == path.spec_bytes() {
            Some(if copy { FileStatus::Added } else { FileStatus::Renamed })
        } else if !copy && source_location@ == path.spec_bytes() {
            Some(FileStatus::Renamed)
        } else {
            None
        },
    }
}

pub fn file_status_from_change(change: &TreeChange, path: &str) -> (s: Option<FileStatus>)
    ensures
        s == change_status(*change, path),
{
    match change {
        TreeChange::Addition { location } => if path_matches(location.as_slice(), path) {
            Some(FileStatus::Added)
        } else {
            None
        },
        TreeChange::Deletion { location } => if path_matches(location.as_slice(), path) {
            Some(FileStatus::Deleted)
        } else {
            None
        },
        TreeChange::Modification { location, previous_entry_mode, entry_mode } => if path_matches(location.as_slice(), path) {
            if typechange(previous_entry_mode, entry_mode) {
                Some(FileStatus::Deleted)
            } else {
                Some(FileStatus::Modified)
            }
        } else {
            None
        },
        TreeChange::Rewrite { source_location, location, copy } => if path_matches(location.as_slice(), path) {
            Some(if *copy { FileStatus::Added } else { FileStatus::Renamed })
        } else if !*copy && path_matches(source_location.as_slice(), path) {
            Some(FileStatus::Renamed)
        } else {
            None
        },
    }
}

/// What the first change that says anything of `path` says of it.
pub open spec fn first_change_status(changes: Seq<TreeChange>, path: &str) -> Option<FileStatus>
    decreases changes.len(),
{
    if changes.len() == 0 {
        None
    } else if change_status(changes[0], path) is Some {
        change_status(changes[0], path)
    } else {
        first_change_status(changes.drop_first(), path)
    }
}

/// How `path` changed, according to the changes between the two trees.
pub fn status_among_changes(changes: &Vec<TreeChange>, path: &str) -> (s: Option<FileStatus>)
    ensures
        s == first_change_status(changes@, path),
{
    let mut i: usize = 0;
    proof {
        assert(changes@.skip(0) =~= changes@);
    }
    while i < changes.len()
        invariant
            i <= changes@.len(),
            first_change_status(changes@, path) == first_change_status(changes@.skip(i as int), path),
        decreases changes@.len() - i,
    {
        let found = file_status_from_change(&changes[i], path);
        proof {
            assert(changes@.skip(i as int)[0] == changes@[i as int]);
            assert(changes@.skip(i as int).drop_first() =~= changes@.skip(i + 1));
        }
        if found.is_some() {
            return found;
        }
        i = i + 1;
    }
    None
}

/// Whether two paths name the same place, compared component by component.
pub uninterp spec fn same_path(a: Seq<char>, b: Seq<char>) -> bool;

/// `std::path::Path`'s `==`: whether two paths have the same components. The contract names its
/// answer.
#[verifier::external_body]
fn paths_equal(a: &str, b: &str) -> (r: bool)
    ensures
        r == same_path(a@, b@),
{
    std::path::Path::new(a) == std::path::Path::new(b)
}

/// A change as the first backend reports it: the old and new paths, and how it changed.
pub struct Delta {
    pub old_path: Option<String>,
    pub new_path: Option<String>,
    pub kind: DeltaKind,
}

pub open spec fn delta_touches(delta: Delta, path: Seq<char>) -> bool {
    (delta.old_path matches Some(p) && same_path(p@, path)) || (delta.new_path matches Some(p) && same_path(p@, path))
}

pub fn delta_matches_path(delta: &Delta, path: &str) -> (b: bool)
    ensures
        b == delta_touches(*delta, path@),
{
    let old_matches = match &delta.old_path {
        Some(p) => paths_equal(p.as_str(), path),
        None => false,
    };
    old_matches || match &delta.new_path {
        Some(p) => paths_equal(p.as_str(), path),
        None => false,
    }
}

/// How the first delta that touches `path` changed it.
pub open spec fn first_delta_status(deltas: Seq<Delta>, path: Seq<char>) -> Option<FileStatus>
    decreases deltas.len(),
{
    if deltas.len() == 0 {
        None
    } else if delta_touches(deltas[0], path) {
        Some(status_of_delta(deltas[0].kind))
    } else {
        first_delta_status(deltas.drop_first(), path)
    }
}

pub fn status_among_deltas(deltas: &Vec<Delta>, path: &str) -> (s: Option<FileStatus>)
    ensures
        s == first_delta_status(deltas@, path@),
{
    let mut i: usize = 0;
    proof {
        assert(deltas@.skip(0) =~= deltas@);
    }
    while i < deltas.len()
        invariant
            i <= deltas@.len(),
            first_delta_status(deltas@, path@) == first_delta_status(deltas@.skip(i as int), path@),
        decreases deltas@.len() - i,
    {
        proof {
            assert(deltas@.skip(i as int)[0] == deltas@[i as int]);
            assert(deltas@.skip(i as int).drop_first() =~= deltas@.skip(i + 1));
        }
        if delta_matches_path(&deltas[i], path) {
            return Some(file_status(deltas[i].kind));
        }
        i = i + 1;
    }
    None
}

/// `s` with every backslash turned into a forward slash.
pub open spec fn with_forward_slashes(s: Seq<char>) -> Seq<char> {
    s.map_values(|c: char| if c == '\\' { '/' } else { c })
}

/// `s` with every backslash turned into a forward slash.
fn forward_slashes(s: &str) -> (r: String)
    ensures
        r@ == with_forward_slashes(s@),
{
    let n = s.unicode_len();
    let mut out = String::from_str("");
    proof {
        reveal_strlit("");
        reveal_strlit("/");
    }
    let mut i: usize = 0;
    while i < n
        invariant
            n == s@.len(),
            i <= n,
            "/"@ == seq!['/'],
            out@ == with_forward_slashes(s@.subrange(0, i as int)),
        decreases n - i,
    {
        if s.get_char(i) == '\\' {
            out.append("/");
        } else {
            out.append(s.substring_char(i, i + 1));
        }
        proof {
            assert(with_forward_slashes(s@.subrange(0, i + 1)) =~= with_forward_slashes(s@.subrange(0, i as int)).push(
                if s@[i as int] == '\\' { '/' } else { s@[i as int] },
            ));
        }
        i = i + 1;
        proof {
            assert(out@ =~= with_forward_slashes(s@.subrange(0, i as int)));
        }
    }
    proof {
        assert(s@.subrange(0, n as int) =~= s@);
    }
    out
}

/// `path` without any leading `./`.
pub open spec fn without_dot_slashes(path: Seq<char>) -> Seq<char>
    decreases path.len(),
{
    if path.len() >= 2 && path[0] == '.' && path[1] == '/' {
        without_dot_slashes(path.subrange(2, path.len() as int))
    } else {
        path
    }
}

pub fn strip_leading_dot_slashes(path: &str) -> (r: &str)
    ensures
        r@ == without_dot_slashes(path@),
{
    let mut rest = path;
    while rest.unicode_len() >= 2 && rest.get_char(0) == '.' && rest.get_char(1) == '/'
        invariant
            without_dot_slashes(rest@) == without_dot_slashes(path@),
        decreases rest@.len(),
    {
        let n = rest.unicode_len();
        rest = rest.substring_char(2, n);
    }
    rest
}

/// A path as the user typed it, as git spells it: trimmed, with forward slashes, and without
/// leading `./`.
pub open spec fn normalized_path(path: Seq<char>) -> Seq<char> {
    without_dot_slashes(with_forward_slashes(trimmed(path)))
}

pub fn normalize_path(path: &str) -> (r: String)
    ensures
        r@ == normalized_path(path@),
{
    let normalized = forward_slashes(trim(path));
    String::from_str(strip_leading_dot_slashes(normalized.as_str()))
}

/// The path a delta lists a file under: where it lands, or where it left from when it was
/// deleted.
pub open spec fn listed_path(delta: Delta) -> Option<Seq<char>> {
    match delta.new_path {
        Some(p) => Some(p@),
        None => match delta.old_path {
            Some(p) => Some(p@),
            None => None,
        },
    }
}

pub fn delta_path(delta: &Delta) -> (r: Option<String>)
    ensures
        match r {
            Some(p) => listed_path(*delta) == Some(p@),
            None => listed_path(*delta) is None,
        },
{
    match &delta.new_path {
        Some(p) => Some(p.clone()),
        None => match &delta.old_path {
            Some(p) => Some(p.clone()),
            None => None,
        },
    }
}

/// A listed path without a dot is taken for a directory, whose files are listed in its place.
pub fn looks_like_folder(path: &str) -> (b: bool)
    ensures
        b == !path@.contains('.'),
{
    let n = path.unicode_len();
    let mut i: usize = 0;
    while i < n
        invariant
            n == path@.len(),
            i <= n,
            forall|j: int| 0 <= j < i ==> path@[j] != '.',
        decreases n - i,
    {
        if path.get_char(i) == '.' {
            return false;
        }
        i = i + 1;
    }
    true
}

/// What one change between a commit's tree and its first parent's becomes in the commit's file
/// list: a directory to list file by file, or a row of its own.
#[derive(Clone, Debug, PartialEq, Eq)]
pub enum CommitRow {
    Expand,
    File(FileChange),
}

/// A change is expanded when its path has no dot and its new side is a tree; any other path is a
/// file row, directory-like names without an extension included, with its status mapped.
pub fn commit_file_row(path: &str, new_side_is_tree: bool, kind: DeltaKind) -> (r: CommitRow)
    ensures
        match r {
            CommitRow::Expand => !path@.contains('.') && new_side_is_tree,
            CommitRow::File(c) => !(!path@.contains('.') && new_side_is_tree) && c.filename@ == path@
                && c.status == status_of_delta(kind),
        },
{
    if looks_like_folder(path) && new_side_is_tree {
        CommitRow::Expand
    } else {
        CommitRow::File(FileChange { filename: String::from_str(path), status: file_status(kind) })
    }
}

/// The rows of a tree listed whole, as for a root commit or an expanded directory: every file is
/// added.
pub fn root_commit_rows(paths: Vec<String>) -> (r: Vec<FileChange>)
    ensures
        r@.len() == paths@.len(),
        forall|i: int| 0 <= i < r@.len() ==> r@[i].filename@ == paths@[i]@ && r@[i].status == FileStatus::Added,
{
    let mut rows: Vec<FileChange> = Vec::new();
    let mut i: usize = 0;
    while i < paths.len()
        invariant
            i <= paths@.len(),
            rows@.len() == i,
            forall|j: int| 0 <= j < i ==> rows@[j].filename@ == paths@[j]@ && rows@[j].status == FileStatus::Added,
        decreases paths@.len() - i,
    {
        rows.push(FileChange { filename: paths[i].clone(), status: FileStatus::Added });
        i = i + 1;
    }
    rows
}

} // verus!
