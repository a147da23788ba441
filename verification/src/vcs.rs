//! Browsing the history of a repository under version control.

pub mod git;
