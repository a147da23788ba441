//! Turns what a Git backend reports (the patch of one file, hunk by hunk
//! and line by line, and the kind of change of each file) into the
//! canonical difference.

use crate::diff::{
    ContentChange, Diff, DiffView, EofNewLine, FileDiff, FileDiffView, Hunk, HunkView, Hunks,
    Line, LineChange, LineDiff, ModifiedView, PathChange,
};
use crate::file_system::Path;
use vstd::prelude::*;

pub mod error;
pub mod patch;

verus! {

/// The kind of change that a backend reports for one file.
#[derive(Clone, Copy, Debug, PartialEq, Eq, Structural)]
pub enum DeltaStatus {
    Unmodified,
    Added,
    Deleted,
    Modified,
    Renamed,
    Copied,
    Ignored,
    Untracked,
    Typechange,
    Unreadable,
    Conflicted,
}

/// One line of a patch, as the backend hands it out.
#[derive(Clone, Debug, PartialEq, Eq)]
pub struct PatchLine {
    /// The line's number in the old file, if it has one there.
    pub old_lineno: Option<u32>,
    /// The line's number in the new file, if it has one there.
    pub new_lineno: Option<u32>,
    /// The sigil that says where the line comes from: `' '` for context,
    /// `'+'` for an addition, `'-'` for a deletion, and `'='`, `'>'`, `'<'`
    /// for the three marks of a missing newline at the end of a file.
    pub origin: char,
    pub content: Vec<u8>,
}

/// The mathematical model of a [`PatchLine`].
pub struct PatchLineView {
    pub old_lineno: Option<u32>,
    pub new_lineno: Option<u32>,
    pub origin: char,
    pub content: Seq<u8>,
}

impl View for PatchLine {
    type V = PatchLineView;

    open spec fn view(&self) -> PatchLineView {
        PatchLineView {
            old_lineno: self.old_lineno,
            new_lineno: self.new_lineno,
            origin: self.origin,
            content: self.content@,
        }
    }
}

/// One hunk of a patch, as the backend hands it out.
#[derive(Clone, Debug, PartialEq, Eq)]
pub struct PatchHunk {
    pub header: Vec<u8>,
    pub lines: Vec<PatchLine>,
}

/// The mathematical model of a [`PatchHunk`].
pub struct PatchHunkView {
    pub header: Seq<u8>,
    pub lines: Seq<PatchLineView>,
}

impl View for PatchHunk {
    type V = PatchHunkView;

    open spec fn view(&self) -> PatchHunkView {
        PatchHunkView { header: self.header@, lines: self.lines@.map_values(|l: PatchLine| l@) }
    }
}

/// The hunks that a list of [`PatchHunk`]s stands for.
pub open spec fn hunks_view(hunks: Seq<PatchHunk>) -> Seq<PatchHunkView> {
    hunks.map_values(|h: PatchHunk| h@)
}

/// What a mark of a missing newline says: whether the old file lacks its
/// last newline, and whether the new file does. `None` for the origin of an
/// ordinary line.
pub open spec fn eof_mark(origin: char) -> Option<(bool, bool)> {
    if origin == '=' {
        Some((true, true))
    } else if origin == '>' {
        Some((true, false))
    } else if origin == '<' {
        Some((false, true))
    } else {
        None
    }
}

/// The line change that a line of a patch stands for, by the sides on which
/// it has a number; `None` where it has a number on neither.
pub open spec fn classify(line: PatchLineView) -> Option<LineChange> {
    match (line.old_lineno, line.new_lineno) {
        (None, Some(n)) => Some(LineChange::Addition { line: line.content, line_num: n }),
        (Some(n), None) => Some(LineChange::Deletion { line: line.content, line_num: n }),
        (Some(l), Some(r)) => Some(
            LineChange::Context { line: line.content, line_num_old: l, line_num_new: r },
        ),
        (None, None) => None,
    }
}

/// The line is a mark of a missing newline, or it can be classified.
pub open spec fn line_ok(line: PatchLineView) -> bool {
    eof_mark(line.origin) is Some || classify(line) is Some
}

/// The line changes of the lines of one hunk, in their order: the marks of
/// a missing newline are left out.
pub open spec fn line_changes(lines: Seq<PatchLineView>) -> Seq<LineChange>
    decreases lines.len(),
{
    if lines.len() == 0 {
        Seq::empty()
    } else {
        let before = line_changes(lines.drop_last());
        let line = lines.last();
        if eof_mark(line.origin) is None && classify(line) is Some {
            before.push(classify(line)->0)
        } else {
            before
        }
    }
}

/// Some line among `lines` is a mark that says that the old file lacks its
/// last newline.
pub open spec fn lines_mark_old(lines: Seq<PatchLineView>) -> bool {
    exists|i: int| 0 <= i < lines.len() && (#[trigger] eof_mark(lines[i].origin) matches Some(m) && m.0)
}

/// Some line among `lines` is a mark that says that the new file lacks its
/// last newline.
pub open spec fn lines_mark_new(lines: Seq<PatchLineView>) -> bool {
    exists|i: int| 0 <= i < lines.len() && (#[trigger] eof_mark(lines[i].origin) matches Some(m) && m.1)
}

/// Every line of every hunk is a mark or can be classified.
pub open spec fn patch_ok(hunks: Seq<PatchHunkView>) -> bool {
    forall|h: int, l: int|
        0 <= h < hunks.len() && 0 <= l < hunks[h].lines.len() ==> line_ok(
            #[trigger] hunks[h].lines[l],
        )
}

/// The hunk of the canonical model that a hunk of a patch stands for.
pub open spec fn hunk_of(hunk: PatchHunkView) -> HunkView {
    HunkView { header: hunk.header, lines: line_changes(hunk.lines) }
}

/// What the patch says of the newlines at the end of the two files.
pub open spec fn patch_eof(hunks: Seq<PatchHunkView>) -> EofNewLine {
    EofNewLine::of(
        exists|h: int| 0 <= h < hunks.len() && lines_mark_old(#[trigger] hunks[h].lines),
        exists|h: int| 0 <= h < hunks.len() && lines_mark_new(#[trigger] hunks[h].lines),
    )
}

/// The content diff that the hunks of a textual patch stand for, with what
/// they say of the newlines at the end of the two files; `None` where a
/// line cannot be classified.
pub open spec fn content_diff(hunks: Seq<PatchHunkView>) -> Option<(Seq<HunkView>, EofNewLine)> {
    if patch_ok(hunks) {
        Some((hunks.map_values(|h: PatchHunkView| hunk_of(h)), patch_eof(hunks)))
    } else {
        None
    }
}

impl LineDiff {
    /// Classifies a line of a patch by the sides on which it has a number:
    /// on the new side only it is an addition, on the old side only a
    /// deletion, on both context. A line with a number on neither side is
    /// invalid.
    pub fn try_from_line(line: PatchLine) -> (r: Result<LineDiff, error::Modification>)
        ensures
            r is Ok <==> classify(line@) is Some,
            r is Ok <==> !(line.old_lineno is None && line.new_lineno is None),
            r matches Ok(l) ==> Some(l@) == classify(line@),
    {
        match (line.old_lineno, line.new_lineno) {
            (None, Some(n)) => Ok(LineDiff::addition(Line(line.content), n)),
            (Some(n), None) => Ok(LineDiff::deletion(Line(line.content), n)),
            (Some(l), Some(r)) => Ok(LineDiff::context(Line(line.content), l, r)),
            (None, None) => Err(error::Modification::Invalid),
        }
    }
}

/// With one more line, the lines hold a mark for a side if they held one
/// before or the line is one.
proof fn lemma_marks_step(lines: Seq<PatchLineView>, k: int)
    requires
        0 <= k < lines.len(),
    ensures
        lines_mark_old(lines.take(k + 1)) == (lines_mark_old(lines.take(k)) || (eof_mark(
            lines[k].origin,
        ) matches Some(m) && m.0)),
        lines_mark_new(lines.take(k + 1)) == (lines_mark_new(lines.take(k)) || (eof_mark(
            lines[k].origin,
        ) matches Some(m) && m.1)),
{
    let before = lines.take(k);
    let after = lines.take(k + 1);
    assert(after[k] == lines[k]);
    assert forall|i: int| 0 <= i < k implies after[i] == before[i] by {}
    if lines_mark_old(before) {
        let i = choose|i: int|
            0 <= i < before.len() && (#[trigger] eof_mark(before[i].origin) matches Some(m)
                && m.0);
        assert(eof_mark(after[i].origin) matches Some(m) && m.0);
    }
    if lines_mark_new(before) {
        let i = choose|i: int|
            0 <= i < before.len() && (#[trigger] eof_mark(before[i].origin) matches Some(m)
                && m.1);
        assert(eof_mark(after[i].origin) matches Some(m) && m.1);
    }
    if lines_mark_old(after) {
        let i = choose|i: int|
            0 <= i < after.len() && (#[trigger] eof_mark(after[i].origin) matches Some(m)
                && m.0);
        if i < k {
            assert(eof_mark(before[i].origin) matches Some(m) && m.0);
        }
    }
    if lines_mark_new(after) {
        let i = choose|i: int|
            0 <= i < after.len() && (#[trigger] eof_mark(after[i].origin) matches Some(m)
                && m.1);
        if i < k {
            assert(eof_mark(before[i].origin) matches Some(m) && m.1);
        }
    }
    if eof_mark(lines[k].origin) matches Some(m) && m.0 {
        assert(eof_mark(after[k].origin) matches Some(m) && m.0);
    }
    if eof_mark(lines[k].origin) matches Some(m) && m.1 {
        assert(eof_mark(after[k].origin) matches Some(m) && m.1);
    }
}

/// The lines of one hunk as line changes, with the two flags that its marks
/// of a missing newline raise.
fn scan_lines(lines: Vec<PatchLine>) -> (r: Result<(Vec<LineDiff>, bool, bool), error::Modification>)
    ensures
        r is Ok <==> (forall|l: int| 0 <= l < lines.len() ==> line_ok(#[trigger] lines[l]@)),
        r matches Ok(s) ==> {
            &&& s.0@.map_values(|l: LineDiff| l@) == line_changes(
                lines@.map_values(|l: PatchLine| l@),
            )
            &&& s.1 == lines_mark_old(lines@.map_values(|l: PatchLine| l@))
            &&& s.2 == lines_mark_new(lines@.map_values(|l: PatchLine| l@))
        },
{
    let ghost views = lines@.map_values(|l: PatchLine| l@);
    let mut changes: Vec<LineDiff> = Vec::new();
    let mut old_missing = false;
    let mut new_missing = false;
    assert(views.take(0) =~= Seq::empty());
    for line in it: lines
        invariant
            views == it.seq().map_values(|l: PatchLine| l@),
            forall|l: int| 0 <= l < it.index() ==> line_ok(#[trigger] it.seq()[l]@),
            changes@.map_values(|l: LineDiff| l@) == line_changes(views.take(it.index() as int)),
            old_missing == lines_mark_old(views.take(it.index() as int)),
            new_missing == lines_mark_new(views.take(it.index() as int)),
    {
        let ghost k = it.index() as int;
        proof {
            assert(views[k] == line@);
            lemma_marks_step(views, k);
            assert(views.take(k + 1).drop_last() =~= views.take(k));
        }
        if line.origin == '=' {
            old_missing = true;
            new_missing = true;
        } else if line.origin == '>' {
            old_missing = true;
        } else if line.origin == '<' {
            new_missing = true;
        } else {
            let ghost shown = changes@.map_values(|l: LineDiff| l@);
            match LineDiff::try_from_line(line) {
                Ok(change) => {
                    changes.push(change);
                    assert(changes@.map_values(|l: LineDiff| l@) =~= shown.push(change@));
                },
                Err(e) => {
                    assert(!line_ok(lines[k]@));
                    return Err(e);
                },
            }
        }
    }
    assert(views.take(lines.len() as int) =~= views);
    Ok((changes, old_missing, new_missing))
}

impl FileDiff {
    /// The textual content diff that the hunks of a patch stand for, and
    /// what the patch says of the newlines at the end of the two files.
    ///
    /// Every line becomes an addition, a deletion or context, by the sides
    /// on which it has a number. The three marks of a missing newline
    /// become no line: the mark of the context side says that both files
    /// lack the newline, that of the addition side that the old file does,
    /// that of the deletion side that the new file does. A line that is no
    /// mark and has a number on neither side makes the whole patch invalid.
    pub fn from_hunks(hunks: Vec<PatchHunk>) -> (r: Result<
        (FileDiff, EofNewLine),
        error::Modification,
    >)
        ensures
            r is Ok <==> content_diff(hunks_view(hunks@)) is Some,
            r matches Ok(d) ==> content_diff(hunks_view(hunks@)) == Some(
                (d.0@->hunks, d.1),
            ) && d.0 is Plain,
    {
        let ghost views = hunks_view(hunks@);
        let mut result: Vec<Hunk> = Vec::new();
        let mut old_missing = false;
        let mut new_missing = false;
        assert(views.take(0) =~= Seq::empty());
        for hunk in it: hunks
            invariant
                views == hunks_view(it.seq()),
                patch_ok(views.take(it.index() as int)),
                result@.map_values(|h: Hunk| h@) == views.take(it.index() as int).map_values(
                    |h: PatchHunkView| hunk_of(h),
                ),
                old_missing == (exists|h: int|
                    0 <= h < it.index() && lines_mark_old(#[trigger] views[h].lines)),
                new_missing == (exists|h: int|
                    0 <= h < it.index() && lines_mark_new(#[trigger] views[h].lines)),
        {
            let ghost k = it.index() as int;
            let ghost shown = result@.map_values(|h: Hunk| h@);
            assert(views[k] == hunk@);
            let header = Line(hunk.header);
            match scan_lines(hunk.lines) {
                Ok((lines, old_mark, new_mark)) => {
                    let converted = Hunk { header, lines };
                    assert(converted@ == hunk_of(views[k]));
                    result.push(converted);
                    proof {
                        assert(result@.map_values(|h: Hunk| h@) =~= shown.push(hunk_of(views[k])));
                        assert(views.take(k + 1).map_values(|h: PatchHunkView| hunk_of(h))
                            =~= shown.push(hunk_of(views[k])));
                        assert forall|h: int, l: int|
                            0 <= h < k + 1 && 0 <= l < views.take(k + 1)[h].lines.len()
                            implies line_ok(#[trigger] views.take(k + 1)[h].lines[l]) by {
                            if h < k {
                                assert(views.take(k)[h].lines[l] == views.take(k + 1)[h].lines[l]);
                            } else {
                                assert(views[k].lines[l] == hunk.lines[l]@);
                            }
                        }
                        if old_mark {
                            assert(lines_mark_old(views[k].lines));
                        }
                        if new_mark {
                            assert(lines_mark_new(views[k].lines));
                        }
                    }
                    old_missing = old_missing || old_mark;
                    new_missing = new_missing || new_mark;
                },
                Err(e) => {
                    proof {
                        let l = choose|l: int|
                            0 <= l < hunk.lines.len() && !line_ok(#[trigger] hunk.lines[l]@);
                        assert(views[k].lines[l] == hunk.lines[l]@);
                        assert(!line_ok(views[k].lines[l]));
                    }
                    return Err(e);
                },
            }
        }
        proof {
            assert(views.take(hunks.len() as int) =~= views);
        }
        let eof = EofNewLine::from_flags(old_missing, new_missing);
        Ok((FileDiff::Plain { hunks: Hunks(result) }, eof))
    }
}

/// One side of a delta: the file before the change, or after it.
#[derive(Clone, Debug, PartialEq, Eq)]
pub struct DeltaFile {
    /// The path of the file, where the backend knows it.
    pub path: Option<Path>,
    /// Whether the backend treats the file as binary data.
    pub is_binary: bool,
}

/// The change of one file, as a backend reports it.
#[derive(Clone, Debug, PartialEq, Eq)]
pub struct Delta {
    pub status: DeltaStatus,
    pub old_file: DeltaFile,
    pub new_file: DeltaFile,
}

impl DeltaStatus {
    /// Whether a delta of this kind is taken up with the patch of its file:
    /// an added, a deleted and a modified file are.
    pub fn needs_patch(self) -> (b: bool)
        ensures
            b == (self is Added || self is Deleted || self is Modified),
    {
        match self {
            DeltaStatus::Added | DeltaStatus::Deleted | DeltaStatus::Modified => true,
            _ => false,
        }
    }
}

impl Delta {
    /// The side of the delta that names the file whose content changed: the
    /// old side of a deleted file, the new side otherwise.
    pub open spec fn subject(self) -> DeltaFile {
        if self.status is Deleted {
            self.old_file
        } else {
            self.new_file
        }
    }
}

/// What the patch of one file is worth as the content of a change.
pub enum Content {
    /// A content diff, and for a textual one what is known of the newlines
    /// at the end of the two files.
    Diff(FileDiffView, Option<EofNewLine>),
    /// The patch holds a line that cannot be classified.
    Invalid,
    /// There is no patch, and the file is not binary.
    Unavailable,
}

/// The hunks that the plain values of a patch stand for, where there is a
/// patch.
pub open spec fn plain_hunks(patch: Option<Vec<PatchHunk>>) -> Option<Seq<PatchHunkView>> {
    match patch {
        Some(hunks) => Some(hunks_view(hunks@)),
        None => None,
    }
}

/// The content of the change of a file, from the hunks of its patch where
/// it has one: with a patch the textual content diff that its hunks stand
/// for, without one the binary content diff if the file is binary.
pub open spec fn patch_content(patch: Option<Seq<PatchHunkView>>, is_binary: bool) -> Content {
    match patch {
        Some(hunks) => match content_diff(hunks) {
            Some((hunks, eof)) => Content::Diff(FileDiffView::Plain { hunks }, Some(eof)),
            None => Content::Invalid,
        },
        None => if is_binary {
            Content::Diff(FileDiffView::Binary, None)
        } else {
            Content::Unavailable
        },
    }
}

/// What becomes of a difference when a delta is taken up.
pub enum Outcome {
    /// The delta is recorded: the difference is this one from now on.
    Done(DiffView),
    /// The kind of the delta is not handled.
    DeltaUnhandled(DeltaStatus),
    /// A path that is needed is not available.
    PathUnavailable,
    /// A line of the patch cannot be classified.
    InvalidLine,
    /// There is no patch for the file at this path, which is not binary.
    PatchUnavailable(Seq<Seq<u8>>),
}

/// The difference `before` with one more file in the list of `status`: an
/// added file among the created, a deleted one among the deleted, any other
/// among the modified, where alone the statement on the end of the file is
/// kept.
pub open spec fn recorded(
    before: DiffView,
    status: DeltaStatus,
    path: Seq<Seq<u8>>,
    content: FileDiffView,
    eof: Option<EofNewLine>,
) -> DiffView {
    match status {
        DeltaStatus::Added => DiffView {
            created: before.created.push(ContentChange { path, diff: content }),
            ..before
        },
        DeltaStatus::Deleted => DiffView {
            deleted: before.deleted.push(ContentChange { path, diff: content }),
            ..before
        },
        _ => DiffView {
            modified: before.modified.push(ModifiedView { path, diff: content, eof }),
            ..before
        },
    }
}

/// What becomes of the difference `before` when a file is recorded in the
/// list of `status`, with the content that `patch` gives. The path comes
/// first: without it nothing else is looked at.
pub open spec fn content_outcome(
    before: DiffView,
    status: DeltaStatus,
    file: DeltaFile,
    patch: Option<Seq<PatchHunkView>>,
) -> Outcome {
    match file.path {
        None => Outcome::PathUnavailable,
        Some(path) => match patch_content(patch, file.is_binary) {
            Content::Diff(content, eof) => Outcome::Done(
                recorded(before, status, path@, content, eof),
            ),
            Content::Invalid => Outcome::InvalidLine,
            Content::Unavailable => Outcome::PatchUnavailable(path@),
        },
    }
}

/// What becomes of the difference `before` when a file is recorded as
/// moved or as copied, from the path of the old side to the path of the new
/// side.
pub open spec fn path_outcome(before: DiffView, delta: Delta) -> Outcome {
    match (delta.old_file.path, delta.new_file.path) {
        (Some(old_path), Some(new_path)) => {
            let change = PathChange { old_path: old_path@, new_path: new_path@ };
            if delta.status is Copied {
                Outcome::Done(DiffView { copied: before.copied.push(change), ..before })
            } else {
                Outcome::Done(DiffView { moved: before.moved.push(change), ..before })
            }
        },
        _ => Outcome::PathUnavailable,
    }
}

/// What becomes of the difference `before` when a delta is taken up, given
/// the hunks of the patch of its file where there is a patch.
///
/// An added file is created, a deleted one deleted, a modified one
/// modified, each with the content that the patch gives; a renamed file is
/// moved and a copied one copied, whatever the patch. No other kind of
/// delta is handled.
pub open spec fn delta_outcome(
    before: DiffView,
    delta: Delta,
    patch: Option<Seq<PatchHunkView>>,
) -> Outcome {
    match delta.status {
        DeltaStatus::Added | DeltaStatus::Deleted | DeltaStatus::Modified => content_outcome(
            before,
            delta.status,
            delta.subject(),
            patch,
        ),
        DeltaStatus::Renamed | DeltaStatus::Copied => path_outcome(before, delta),
        status => Outcome::DeltaUnhandled(status),
    }
}

/// The result `r` and the difference `after` are what `outcome` asks for.
pub open spec fn is_outcome(r: Result<(), error::Diff>, after: DiffView, outcome: Outcome) -> bool {
    match outcome {
        Outcome::Done(expected) => r is Ok && after == expected,
        Outcome::DeltaUnhandled(status) => r matches Err(error::Diff::DeltaUnhandled(s)) && s
            == status,
        Outcome::PathUnavailable => r matches Err(error::Diff::PathUnavailable),
        Outcome::InvalidLine => r matches Err(error::Diff::Hunk(error::Hunk::Line(_))),
        Outcome::PatchUnavailable(path) => r matches Err(error::Diff::PatchUnavailable(p)) && p@
            == path,
    }
}

/// The content of the change of the file at `path`, from the hunks of its
/// patch where it has one.
///
/// With a patch the content is textual: it fails where a line of the patch
/// cannot be classified. Without a patch the content is binary if the file
/// is; a file that is not binary and has no patch is a failure.
pub fn file_content(path: &Path, patch: Option<Vec<PatchHunk>>, is_binary: bool) -> (r: Result<
    (FileDiff, Option<EofNewLine>),
    error::Diff,
>)
    ensures
        match patch_content(plain_hunks(patch), is_binary) {
            Content::Diff(content, eof) => r matches Ok(c) && c.0@ == content && c.1 == eof,
            Content::Invalid => r matches Err(error::Diff::Hunk(error::Hunk::Line(_))),
            Content::Unavailable => r matches Err(error::Diff::PatchUnavailable(p)) && p@
                == path@,
        },
{
    match patch {
        Some(hunks) => match FileDiff::from_hunks(hunks) {
            Ok((diff, eof)) => Ok((diff, Some(eof))),
            Err(e) => Err(error::Diff::Hunk(error::Hunk::Line(e))),
        },
        None => {
            if is_binary {
                Ok((FileDiff::Binary, None))
            } else {
                Err(error::Diff::PatchUnavailable(path.clone()))
            }
        },
    }
}

/// The path of the file and the content of its change.
fn subject_content(file: &DeltaFile, patch: Option<Vec<PatchHunk>>) -> (r: Result<
    (Path, FileDiff, Option<EofNewLine>),
    error::Diff,
>)
    ensures
        match file.path {
            None => r matches Err(error::Diff::PathUnavailable),
            Some(path) => match patch_content(plain_hunks(patch), file.is_binary) {
                Content::Diff(content, eof) => r matches Ok(c) && c.0@ == path@ && c.1@ == content
                    && c.2 == eof,
                Content::Invalid => r matches Err(error::Diff::Hunk(error::Hunk::Line(_))),
                Content::Unavailable => r matches Err(error::Diff::PatchUnavailable(p)) && p@
                    == path@,
            },
        },
{
    let path = match &file.path {
        Some(path) => path.clone(),
        None => {
            return Err(error::Diff::PathUnavailable);
        },
    };
    match file_content(&path, patch, file.is_binary) {
        Ok((diff, eof)) => Ok((path, diff, eof)),
        Err(e) => Err(e),
    }
}

/// Takes up the delta of a file that was added: the file of the new side is
/// recorded as created, with the content that its patch gives.
///
/// On every failure the difference is left as it was.
pub fn created(diff: &mut Diff, delta: &Delta, patch: Option<Vec<PatchHunk>>) -> (r: Result<
    (),
    error::Diff,
>)
    ensures
        is_outcome(
            r,
            final(diff)@,
            content_outcome(old(diff)@, DeltaStatus::Added, delta.new_file, plain_hunks(patch)),
        ),
        r is Err ==> *final(diff) == *old(diff),
{
    match subject_content(&delta.new_file, patch) {
        Ok((path, content, _)) => {
            diff.add_created_file(path, content);
            Ok(())
        },
        Err(e) => Err(e),
    }
}

/// Takes up the delta of a file that was deleted: the file of the old side
/// is recorded as deleted, with the content that its patch gives.
///
/// On every failure the difference is left as it was.
pub fn deleted(diff: &mut Diff, delta: &Delta, patch: Option<Vec<PatchHunk>>) -> (r: Result<
    (),
    error::Diff,
>)
    ensures
        is_outcome(
            r,
            final(diff)@,
            content_outcome(old(diff)@, DeltaStatus::Deleted, delta.old_file, plain_hunks(patch)),
        ),
        r is Err ==> *final(diff) == *old(diff),
{
    match subject_content(&delta.old_file, patch) {
        Ok((path, content, _)) => {
            diff.add_deleted_file(path, content);
            Ok(())
        },
        Err(e) => Err(e),
    }
}

/// Takes up the delta of a file that was modified: the file of the new side
/// is recorded as modified, with the content that its patch gives and, for
/// textual content, what the patch says of the newlines at the end of the
/// two files.
///
/// On every failure the difference is left as it was.
pub fn modified(diff: &mut Diff, delta: &Delta, patch: Option<Vec<PatchHunk>>) -> (r: Result<
    (),
    error::Diff,
>)
    ensures
        is_outcome(
            r,
            final(diff)@,
            content_outcome(old(diff)@, DeltaStatus::Modified, delta.new_file, plain_hunks(patch)),
        ),
        r is Err ==> *final(diff) == *old(diff),
{
    match subject_content(&delta.new_file, patch) {
        Ok((path, content, eof)) => {
            match content {
                FileDiff::Plain { hunks } => diff.add_modified_file(path, hunks, eof),
                FileDiff::Binary => diff.add_modified_binary_file(path),
            }
            Ok(())
        },
        Err(e) => Err(e),
    }
}

/// Takes up the delta of a file that was renamed: it is recorded as moved
/// from the path of the old side to the path of the new side. Where one of
/// the two paths is not available, it fails and leaves the difference as it
/// was.
pub fn renamed(diff: &mut Diff, delta: &Delta) -> (r: Result<(), error::Diff>)
    ensures
        match (delta.old_file.path, delta.new_file.path) {
            (Some(old_path), Some(new_path)) => r is Ok && final(diff)@ == (DiffView {
                moved: old(diff)@.moved.push(
                    PathChange { old_path: old_path@, new_path: new_path@ },
                ),
                ..old(diff)@
            }),
            _ => r matches Err(error::Diff::PathUnavailable) && *final(diff) == *old(diff),
        },
{
    let old_path = match &delta.old_file.path {
        Some(path) => path.clone(),
        None => {
            return Err(error::Diff::PathUnavailable);
        },
    };
    let new_path = match &delta.new_file.path {
        Some(path) => path.clone(),
        None => {
            return Err(error::Diff::PathUnavailable);
        },
    };
    diff.add_moved_file(old_path, new_path);
    Ok(())
}

/// Takes up the delta of a file that was copied: it is recorded as copied
/// from the path of the old side to the path of the new side. Where one of
/// the two paths is not available, it fails and leaves the difference as it
/// was.
pub fn copied(diff: &mut Diff, delta: &Delta) -> (r: Result<(), error::Diff>)
    ensures
        match (delta.old_file.path, delta.new_file.path) {
            (Some(old_path), Some(new_path)) => r is Ok && final(diff)@ == (DiffView {
                copied: old(diff)@.copied.push(
                    PathChange { old_path: old_path@, new_path: new_path@ },
                ),
                ..old(diff)@
            }),
            _ => r matches Err(error::Diff::PathUnavailable) && *final(diff) == *old(diff),
        },
{
    let old_path = match &delta.old_file.path {
        Some(path) => path.clone(),
        None => {
            return Err(error::Diff::PathUnavailable);
        },
    };
    let new_path = match &delta.new_file.path {
        Some(path) => path.clone(),
        None => {
            return Err(error::Diff::PathUnavailable);
        },
    };
    diff.add_copied_file(old_path, new_path);
    Ok(())
}

/// Takes up one delta, by its kind: an added file is created, a deleted one
/// deleted, a modified one modified, a renamed one moved, a copied one
/// copied. A delta of any other kind is a failure, whatever else it holds.
/// The patch is looked at for the first three kinds only.
///
/// On every failure the difference is left as it was.
pub fn apply_delta(diff: &mut Diff, delta: &Delta, patch: Option<Vec<PatchHunk>>) -> (r: Result<
    (),
    error::Diff,
>)
    ensures
        is_outcome(r, final(diff)@, delta_outcome(old(diff)@, *delta, plain_hunks(patch))),
        r is Err ==> *final(diff) == *old(diff),
{
    match delta.status {
        DeltaStatus::Added => created(diff, delta, patch),
        DeltaStatus::Deleted => deleted(diff, delta, patch),
        DeltaStatus::Modified => modified(diff, delta, patch),
        DeltaStatus::Renamed => renamed(diff, delta),
        DeltaStatus::Copied => copied(diff, delta),
        status => Err(error::Diff::DeltaUnhandled(status)),
    }
}

} // verus!
