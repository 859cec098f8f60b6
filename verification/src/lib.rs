//! Worktree management for git: target lists, commit tables, diffs and the
//! argument grammar of each command, as verified logic over plain values.

pub mod text;
pub mod add;
pub mod worktree;
pub mod targets;
pub mod style;
pub mod commits;
pub mod diff;
pub mod doctor;
pub mod list;
pub mod meld;
pub mod merge;
pub mod log;
pub mod compare;
pub mod pick;
