//! guitar's library: the commit graph's lanes and their history, commit aliases, the worktree
//! and context-menu decisions of the terminal app, the splash wordmark's animation, and the rules
//! around remotes, branches, statuses and git's multi-step operations.
pub mod app_state;
pub mod batcher;
pub mod branches;
pub mod buffer;
pub mod chunk;
pub mod cli;
pub mod file_history;
pub mod layers;
pub mod localisation;
pub mod logo;
pub mod oids;
pub mod panes;
mod persistent;
pub mod remotes;
pub mod sequencer;
pub mod splash;
pub mod status;
pub mod text;
pub mod time;
pub mod watch;
pub mod worktrees;
