//! Reads the patches of `git2`.

use crate::diff::git::error;
use crate::diff::git::{
    apply_delta, content_diff, delta_outcome, hunks_view, is_outcome, Delta, DeltaStatus,
    PatchHunk, PatchHunkView, PatchLine,
};
use crate::diff::{Diff, EofNewLine, FileDiff, Hunks};
use vstd::prelude::*;

verus! {

/// `git2::Patch`: the patch of one file. Nothing is known of what is in it
/// but what the functions below say.
#[verifier::external_type_specification]
#[verifier::external_body]
pub struct ExPatch<'buffers>(git2::Patch<'buffers>);

/// The hunks that a patch of `git2` holds, each with its header and its
/// lines, in the order in which the patch hands them out.
pub uninterp spec fn patch_hunks(patch: &git2::Patch<'_>) -> Seq<PatchHunkView>;

/// Calls `git2::Patch::num_hunks`: the number of hunks that the patch
/// holds.
#[verifier::external_body]
fn patch_num_hunks(patch: &git2::Patch<'_>) -> (n: usize)
    ensures
        n == patch_hunks(patch).len(),
{
    patch.num_hunks()
}

/// Calls `git2::Patch::hunk` and copies the header out of the
/// `git2::DiffHunk` that comes back. The call succeeds exactly where the
/// patch holds a hunk at this index: libgit2 looks the index up among the
/// hunks of the patch and fails on nothing else. The result is then that
/// hunk's header and the number of its lines.
#[verifier::external_body]
fn patch_hunk(patch: &git2::Patch<'_>, hunk_idx: usize) -> (r: Result<(Vec<u8>, usize), git2::Error>)
    ensures
        r matches Ok(h) ==> {
            &&& hunk_idx < patch_hunks(patch).len()
            &&& h.0@ == patch_hunks(patch)[hunk_idx as int].header
            &&& h.1 == patch_hunks(patch)[hunk_idx as int].lines.len()
        },
        hunk_idx < patch_hunks(patch).len() ==> r is Ok,
{
    let (hunk, lines) = patch.hunk(hunk_idx)?;
    Ok((hunk.header().to_vec(), lines))
}

/// Calls `git2::Patch::line_in_hunk` and copies out of the `git2::DiffLine`
/// that comes back what `old_lineno`, `new_lineno`, `origin` and `content`
/// give. The call succeeds exactly where the patch holds a hunk at this
/// index and that hunk a line at this place: libgit2 looks up the hunk,
/// holds the line's index against the number of the hunk's lines, which it
/// counted as it stored them, and fails on nothing else. The result is
/// then that line.
#[verifier::external_body]
fn patch_line_in_hunk(patch: &git2::Patch<'_>, hunk_idx: usize, line_of_hunk: usize) -> (r: Result<
    PatchLine,
    git2::Error,
>)
    ensures
        r matches Ok(line) ==> {
            &&& hunk_idx < patch_hunks(patch).len()
            &&& line_of_hunk < patch_hunks(patch)[hunk_idx as int].lines.len()
            &&& line@ == patch_hunks(patch)[hunk_idx as int].lines[line_of_hunk as int]
        },
        hunk_idx < patch_hunks(patch).len() && line_of_hunk < patch_hunks(
            patch,
        )[hunk_idx as int].lines.len() ==> r is Ok,
{
    let line = patch.line_in_hunk(hunk_idx, line_of_hunk)?;
    Ok(
        PatchLine {
            old_lineno: line.old_lineno(),
            new_lineno: line.new_lineno(),
            origin: line.origin(),
            content: line.content().to_vec(),
        },
    )
}

/// Reads the hunks of a patch of `git2`, with their lines, into plain
/// values. Every patch is read: `git2` is asked only for hunks and lines
/// that the patch holds, and for those it does not fail.
pub fn read_patch(patch: &git2::Patch<'_>) -> (r: Result<Vec<PatchHunk>, git2::Error>)
    ensures
        r matches Ok(hunks) && hunks_view(hunks@) == patch_hunks(patch),
{
    let mut hunks: Vec<PatchHunk> = Vec::new();
    let num_hunks = patch_num_hunks(patch);
    let mut h: usize = 0;
    while h < num_hunks
        invariant
            num_hunks == patch_hunks(patch).len(),
            h <= num_hunks,
            hunks_view(hunks@) == patch_hunks(patch).take(h as int),
        decreases num_hunks - h,
    {
        let (header, hunk_lines) = match patch_hunk(patch, h) {
            Ok(hunk) => hunk,
            // The patch holds this hunk, so `git2` hands it out.
            Err(e) => {
                return Err(e);
            },
        };
        let ghost expected = patch_hunks(patch)[h as int];
        let mut lines: Vec<PatchLine> = Vec::new();
        let mut l: usize = 0;
        while l < hunk_lines
            invariant
                h < patch_hunks(patch).len(),
                expected == patch_hunks(patch)[h as int],
                hunk_lines == expected.lines.len(),
                l <= hunk_lines,
                lines@.map_values(|x: PatchLine| x@) == expected.lines.take(l as int),
            decreases hunk_lines - l,
        {
            let line = match patch_line_in_hunk(patch, h, l) {
                Ok(line) => line,
                // The hunk holds this line, so `git2` hands it out.
                Err(e) => {
                    return Err(e);
                },
            };
            let ghost shown = lines@.map_values(|x: PatchLine| x@);
            lines.push(line);
            assert(lines@.map_values(|x: PatchLine| x@) =~= shown.push(expected.lines[l as int]));
            assert(expected.lines.take(l + 1) =~= shown.push(expected.lines[l as int]));
            l = l + 1;
        }
        assert(expected.lines.take(hunk_lines as int) =~= expected.lines);
        let ghost shown = hunks_view(hunks@);
        let hunk = PatchHunk { header, lines };
        assert(hunk@ == expected);
        hunks.push(hunk);
        assert(hunks_view(hunks@) =~= shown.push(expected));
        assert(patch_hunks(patch).take(h + 1) =~= shown.push(expected));
        h = h + 1;
    }
    assert(patch_hunks(patch).take(num_hunks as int) =~= patch_hunks(patch));
    Ok(hunks)
}

impl FileDiff {
    /// The textual content diff that a patch of `git2` stands for, and what
    /// the patch says of the newlines at the end of the two files: what
    /// [`FileDiff::from_hunks`] gives for the hunks of the patch.
    ///
    /// It fails exactly where a line of the patch cannot be classified, and
    /// with no other error.
    pub fn try_from_patch(patch: &git2::Patch<'_>) -> (r: Result<
        (FileDiff, EofNewLine),
        error::Hunk,
    >)
        ensures
            r is Ok <==> content_diff(patch_hunks(patch)) is Some,
            r matches Ok(d) ==> d.0 is Plain && content_diff(patch_hunks(patch)) == Some(
                (d.0@->hunks, d.1),
            ),
            r matches Err(e) ==> e is Line,
    {
        let hunks = match read_patch(patch) {
            Ok(hunks) => hunks,
            // Every patch is read.
            Err(e) => {
                return Err(error::Hunk::Git(e));
            },
        };
        match FileDiff::from_hunks(hunks) {
            Ok(d) => Ok(d),
            Err(e) => Err(error::Hunk::Line(e)),
        }
    }
}

impl Hunks {
    /// The hunks that a patch of `git2` stands for: those of
    /// [`FileDiff::try_from_patch`]. It fails exactly where a line of the
    /// patch cannot be classified, and with no other error.
    pub fn try_from_patch(patch: &git2::Patch<'_>) -> (r: Result<Hunks, error::Hunk>)
        ensures
            r is Ok <==> content_diff(patch_hunks(patch)) is Some,
            r matches Ok(hunks) ==> (content_diff(patch_hunks(patch)) matches Some(d) && d.0
                == hunks@),
            r matches Err(e) ==> e is Line,
    {
        match FileDiff::try_from_patch(patch) {
            Ok((FileDiff::Plain { hunks }, _)) => Ok(hunks),
            Ok((FileDiff::Binary, _)) => Ok(Hunks::default()),
            Err(e) => Err(e),
        }
    }
}

/// The hunks of the patch that `git2` found for a file, where it found one.
pub open spec fn found_hunks(found: Option<git2::Patch<'_>>) -> Option<Seq<PatchHunkView>> {
    match found {
        Some(patch) => Some(patch_hunks(&patch)),
        None => None,
    }
}

/// Takes up one delta with what `git2` gave when it was asked for the patch
/// of the delta's file.
///
/// Where `git2` gave a patch or none, the delta is taken up as
/// [`apply_delta`] takes it up with the hunks of the patch. Where `git2`
/// failed, its failure is passed on for a delta that needs a patch and
/// names the path of its file; a delta that is not handled and a path that
/// is not available come first, and for a delta that needs no patch what
/// `git2` gave is not looked at.
///
/// On every failure the difference is left as it was.
pub fn apply_git_delta(
    diff: &mut Diff,
    delta: &Delta,
    patch: Result<Option<git2::Patch<'_>>, git2::Error>,
) -> (r: Result<(), error::Diff>)
    ensures
        r is Err ==> *final(diff) == *old(diff),
        match patch {
            Ok(found) => is_outcome(
                r,
                final(diff)@,
                delta_outcome(old(diff)@, *delta, found_hunks(found)),
            ),
            Err(failure) => {
                if (delta.status is Added || delta.status is Deleted || delta.status
                    is Modified) && delta.subject().path is Some {
                    r matches Err(error::Diff::Git(e)) && e == failure
                } else {
                    is_outcome(r, final(diff)@, delta_outcome(old(diff)@, *delta, None))
                }
            },
        },
{
    if !delta.status.needs_patch() {
        return apply_delta(diff, delta, None);
    }
    let has_path = match delta.status {
        DeltaStatus::Deleted => delta.old_file.path.is_some(),
        _ => delta.new_file.path.is_some(),
    };
    if !has_path {
        return apply_delta(diff, delta, None);
    }
    let found = match patch {
        Ok(found) => found,
        Err(e) => {
            return Err(error::Diff::Git(e));
        },
    };
    let hunks = match &found {
        Some(patch) => match read_patch(patch) {
            Ok(hunks) => Some(hunks),
            // Every patch is read.
            Err(e) => {
                return Err(error::Diff::Hunk(error::Hunk::Git(e)));
            },
        },
        None => None,
    };
    apply_delta(diff, delta, hunks)
}

} // verus!
