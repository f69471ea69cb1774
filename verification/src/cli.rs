//! What the command line asks for.
use vstd::prelude::*;
use vstd::string::StrSliceExecFns;
use crate::text::same_text;

verus! {

/// Asks for the version and nothing else.
pub const VERSION_LONG: &'static str = "--version";

pub const VERSION_SHORT: &'static str = "-v";

/// Forgets the saved configuration before starting.
pub const RESET_CONFIG: &'static str = "--reset";

/// Loads the graph, reports, and exits.
pub const EXIT_WHEN_GRAPH_COMPLETE: &'static str = "--exit-when-graph-complete";

/// Leaves the working tree's status unread.
pub const SKIP_WORKDIR_STATUS: &'static str = "--skip-workdir-status";

/// Whether an argument is a flag rather than a path.
pub open spec fn is_flag(arg: Seq<char>) -> bool {
    arg.len() > 0 && arg[0] == '-'
}

/// The position of the first argument after the program's name that is not a flag.
pub open spec fn first_path_from(args: Seq<String>, i: int) -> Option<int>
    decreases args.len() - i,
{
    if i >= args.len() {
        None
    } else if !is_flag(args[i]@) {
        Some(i)
    } else {
        first_path_from(args, i + 1)
    }
}

/// The repository to open: the first argument after the program's name that is not a flag.
pub fn repo_path_from_args(args: &Vec<String>) -> (r: Option<String>)
    ensures
        match first_path_from(args@, 1) {
            Some(i) => r matches Some(p) && p@ == args@[i]@,
            None => r is None,
        },
{
    let mut i: usize = 1;
    while i < args.len()
        invariant
            1 <= i,
            first_path_from(args@, 1) == first_path_from(args@, i as int),
        decreases args@.len() - i,
    {
        let arg = args[i].as_str();
        if arg.unicode_len() == 0 || arg.get_char(0) != '-' {
            return Some(args[i].clone());
        }
        i = i + 1;
    }
    None
}

/// Whether any argument is exactly `flag`.
pub fn has_flag(args: &Vec<String>, flag: &str) -> (b: bool)
    ensures
        b == exists|i: int| 0 <= i < args@.len() && (#[trigger] args@[i])@ == flag@,
{
    let mut i: usize = 0;
    while i < args.len()
        invariant
            i <= args@.len(),
            forall|j: int| 0 <= j < i ==> (#[trigger] args@[j])@ != flag@,
        decreases args@.len() - i,
    {
        if same_text(args[i].as_str(), flag) {
            return true;
        }
        i = i + 1;
    }
    false
}

} // verus!
