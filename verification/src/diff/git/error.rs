//! What can go wrong when a patch of the backend is turned into a
//! difference.

use crate::diff::git::DeltaStatus;
use crate::file_system::Path;
use vstd::prelude::*;

verus! {

/// `git2::Error`: a failure of `git2`, passed on as it is.
#[verifier::external_type_specification]
#[verifier::external_body]
pub struct ExGitError(git2::Error);

#[derive(Debug)]
#[non_exhaustive]
pub enum Addition {
    Git(git2::Error),
    /// The new line number was missing for an added line.
    MissingNewLineNo,
}

#[derive(Debug)]
#[non_exhaustive]
pub enum Deletion {
    Git(git2::Error),
    /// The old line number was missing for a deleted line.
    MissingOldLineNo,
}

#[derive(Debug)]
#[non_exhaustive]
pub enum Modification {
    /// A line of a patch carries no line number for either side of the
    /// diff.
    Invalid,
}

#[derive(Debug)]
#[non_exhaustive]
pub enum Hunk {
    Git(git2::Error),
    Line(Modification),
}

/// A failure to turn the changes of one file into the difference.
#[derive(Debug)]
#[non_exhaustive]
pub enum Diff {
    Addition(Addition),
    Deletion(Deletion),
    /// A kind of delta that is not handled.
    DeltaUnhandled(DeltaStatus),
    Git(git2::Error),
    Hunk(Hunk),
    Line(Modification),
    /// No patch could be had for the file at this path, which is not
    /// binary.
    PatchUnavailable(Path),
    /// The path of a file is not available.
    PathUnavailable,
}

} // verus!
