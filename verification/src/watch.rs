//! Which paths of a repository the file watcher leaves alone: build directories, and the parts of
//! `.git` that are pure storage or append-only logs. Ref updates stay watched.
use vstd::prelude::*;
use crate::text::same_text;

verus! {

/// Top-level directories that churn without changing what the app shows.
pub open spec fn excluded_directory(name: Seq<char>) -> bool {
    name == "target"@ || name == "node_modules"@
}

/// Entries of `.git` that are storage or logs.
pub open spec fn excluded_git_entry(name: Seq<char>) -> bool {
    name == "objects"@ || name == "logs"@ || name == "lfs"@ || name == "modules"@
}

/// The path of `path` relative to `root`, when `path` lies under `root`.
pub uninterp spec fn relative_to(path: Seq<char>, root: Seq<char>) -> Option<Seq<char>>;

/// The components of a relative path, in order.
pub uninterp spec fn components_of(relative: Seq<char>) -> Seq<Seq<char>>;

/// `std::path::Path::strip_prefix`: `path` relative to `root`, or nothing when `root` is not a
/// prefix of it, component by component. The contract names the result.
#[verifier::external_body]
fn strip_root(path: &str, root: &str) -> (r: Option<String>)
    ensures
        match r {
            Some(rel) => relative_to(path@, root@) == Some(rel@),
            None => relative_to(path@, root@) is None,
        },
{
    match std::path::Path::new(path).strip_prefix(root) {
        Ok(relative) => Some(relative.to_string_lossy().into_owned()),
        Err(_) => None,
    }
}

/// `std::path::Path::components`: the components of a path, each as text. The contract names
/// them.
#[verifier::external_body]
fn components(relative: &str) -> (r: Vec<String>)
    ensures
        r@.map_values(|c: String| c@) == components_of(relative@),
{
    std::path::Path::new(relative).components().map(|c| c.as_os_str().to_string_lossy().into_owned()).collect()
}

/// Whether a path with these components, relative to the repository's root, is left alone.
pub open spec fn excluded_components(parts: Seq<Seq<char>>) -> bool {
    if parts.len() == 0 {
        false
    } else if parts[0] == ".git"@ {
        parts.len() > 1 && excluded_git_entry(parts[1])
    } else {
        excluded_directory(parts[0])
    }
}

/// Whether the watcher leaves `path` alone. A path outside `root` never is.
pub open spec fn excluded(path: Seq<char>, root: Seq<char>) -> bool {
    match relative_to(path, root) {
        Some(rel) => excluded_components(components_of(rel)),
        None => false,
    }
}

fn is_excluded_directory(name: &str) -> (b: bool)
    ensures
        b == excluded_directory(name@),
{
    same_text(name, "target") || same_text(name, "node_modules")
}

fn is_excluded_git_entry(name: &str) -> (b: bool)
    ensures
        b == excluded_git_entry(name@),
{
    same_text(name, "objects") || same_text(name, "logs") || same_text(name, "lfs") || same_text(name, "modules")
}

pub fn is_excluded(path: &str, root: &str) -> (b: bool)
    ensures
        b == excluded(path@, root@),
{
    let relative = match strip_root(path, root) {
        Some(relative) => relative,
        None => return false,
    };
    let parts = components(relative.as_str());
    let ghost views = parts@.map_values(|c: String| c@);
    if parts.len() == 0 {
        return false;
    }
    proof {
        assert(views[0] == parts@[0]@);
    }
    if same_text(parts[0].as_str(), ".git") {
        if parts.len() > 1 {
            proof {
                assert(views[1] == parts@[1]@);
            }
            is_excluded_git_entry(parts[1].as_str())
        } else {
            false
        }
    } else {
        is_excluded_directory(parts[0].as_str())
    }
}

} // verus!
