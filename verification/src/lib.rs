//! Differences between snapshots of a file tree, and the decisions of a
//! browser of Git history.

pub mod diff;
pub mod file_system;
pub mod vcs;
