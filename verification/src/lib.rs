//! Argument parsing, path arithmetic and text formatting for a `git` shim
//! that turns `git worktree` calls into `jj workspace` commands.

pub mod cli;
pub mod creation;
pub mod issue_log;
pub mod jj;
pub mod meta;
pub mod path;
pub mod removal;
pub mod shim;
pub mod text;
pub mod worktree;
