//! The canonical model of a difference between two snapshots: which files
//! were created, deleted, moved, copied or modified, what changed inside
//! them line by line, and the statistics derived from that.

use crate::file_system::Path;
use vstd::prelude::*;
use vstd::std_specs::convert::FromSpecImpl;
use vstd::string::StrSliceExecFns;

pub mod explain;
pub mod git;
pub mod laws;
pub mod stats;
pub mod tree;

verus! {

/// The content of a single line.
#[derive(Debug, PartialEq, Eq)]
pub struct Line(pub Vec<u8>);

impl View for Line {
    type V = Seq<u8>;

    open spec fn view(&self) -> Seq<u8> {
        self.0@
    }
}

impl Clone for Line {
    fn clone(&self) -> (r: Self)
        ensures
            r@ == self@,
    {
        Line(self.0.clone())
    }
}

impl From<Vec<u8>> for Line {
    fn from(v: Vec<u8>) -> (r: Self) {
        Line(v)
    }
}

impl FromSpecImpl<Vec<u8>> for Line {
    open spec fn obeys_from_spec() -> bool {
        true
    }

    open spec fn from_spec(v: Vec<u8>) -> Self {
        Line(v)
    }
}

impl From<String> for Line {
    /// The line holds the UTF-8 encoding of the string.
    fn from(s: String) -> (r: Self)
        ensures
            r@ == vstd::utf8::encode_utf8(s@),
    {
        Line(s.as_str().as_bytes_vec())
    }
}

impl FromSpecImpl<String> for Line {
    open spec fn obeys_from_spec() -> bool {
        false
    }

    open spec fn from_spec(s: String) -> Self {
        arbitrary()
    }
}

/// Single line delta. Two of these are needed to represent a modified line:
/// one addition and one deletion. Context is also represented with this type.
/// Line numbers count from 1.
#[derive(Debug, PartialEq, Eq)]
pub enum LineDiff {
    /// Line added, with its number on the new side.
    Addition { line: Line, line_num: u32 },
    /// Line deleted, with its number on the old side.
    Deletion { line: Line, line_num: u32 },
    /// Line context, with its number on either side.
    Context { line: Line, line_num_old: u32, line_num_new: u32 },
}

/// The mathematical model of a [`LineDiff`].
pub enum LineChange {
    Addition { line: Seq<u8>, line_num: u32 },
    Deletion { line: Seq<u8>, line_num: u32 },
    Context { line: Seq<u8>, line_num_old: u32, line_num_new: u32 },
}

impl View for LineDiff {
    type V = LineChange;

    open spec fn view(&self) -> LineChange {
        match self {
            LineDiff::Addition { line, line_num } => LineChange::Addition {
                line: line@,
                line_num: *line_num,
            },
            LineDiff::Deletion { line, line_num } => LineChange::Deletion {
                line: line@,
                line_num: *line_num,
            },
            LineDiff::Context { line, line_num_old, line_num_new } => LineChange::Context {
                line: line@,
                line_num_old: *line_num_old,
                line_num_new: *line_num_new,
            },
        }
    }
}

impl Clone for LineDiff {
    fn clone(&self) -> (r: Self)
        ensures
            r@ == self@,
    {
        match self {
            LineDiff::Addition { line, line_num } => LineDiff::Addition {
                line: line.clone(),
                line_num: *line_num,
            },
            LineDiff::Deletion { line, line_num } => LineDiff::Deletion {
                line: line.clone(),
                line_num: *line_num,
            },
            LineDiff::Context { line, line_num_old, line_num_new } => LineDiff::Context {
                line: line.clone(),
                line_num_old: *line_num_old,
                line_num_new: *line_num_new,
            },
        }
    }
}

impl LineDiff {
    /// The line `line`, added as line `line_num` of the new side.
    pub fn addition(line: Line, line_num: u32) -> (r: Self)
        ensures
            r@ == (LineChange::Addition { line: line@, line_num }),
    {
        Self::Addition { line, line_num }
    }

    /// The line `line`, deleted from line `line_num` of the old side.
    pub fn deletion(line: Line, line_num: u32) -> (r: Self)
        ensures
            r@ == (LineChange::Deletion { line: line@, line_num }),
    {
        Self::Deletion { line, line_num }
    }

    /// The line `line`, which stands unchanged as line `line_num_old` of
    /// the old side and as line `line_num_new` of the new side.
    pub fn context(line: Line, line_num_old: u32, line_num_new: u32) -> (r: Self)
        ensures
            r@ == (LineChange::Context { line: line@, line_num_old, line_num_new }),
    {
        Self::Context { line, line_num_old, line_num_new }
    }
}

/// A set of line changes.
#[derive(Debug, PartialEq, Eq)]
pub struct Hunk {
    /// The header line, as the source gave it.
    pub header: Line,
    pub lines: Vec<LineDiff>,
}

/// The mathematical model of a [`Hunk`].
pub struct HunkView {
    pub header: Seq<u8>,
    pub lines: Seq<LineChange>,
}

impl View for Hunk {
    type V = HunkView;

    open spec fn view(&self) -> HunkView {
        HunkView { header: self.header@, lines: self.lines@.map_values(|l: LineDiff| l@) }
    }
}

impl Clone for Hunk {
    fn clone(&self) -> (r: Self)
        ensures
            r@ == self@,
    {
        let mut lines: Vec<LineDiff> = Vec::new();
        let n = self.lines.len();
        let mut i: usize = 0;
        while i < n
            invariant
                n == self.lines.len(),
                i <= n,
                lines.len() == i,
                forall|k: int| 0 <= k < i ==> lines[k]@ == self.lines[k]@,
            decreases n - i,
        {
            lines.push(self.lines[i].clone());
            i = i + 1;
        }
        let r = Hunk { header: self.header.clone(), lines };
        assert(r@.lines =~= self@.lines);
        r
    }
}

/// A set of [`Hunk`]s, in the order in which the source gave them.
#[derive(Debug, PartialEq, Eq)]
pub struct Hunks(pub Vec<Hunk>);

impl View for Hunks {
    type V = Seq<HunkView>;

    open spec fn view(&self) -> Seq<HunkView> {
        self.0@.map_values(|h: Hunk| h@)
    }
}

impl Clone for Hunks {
    fn clone(&self) -> (r: Self)
        ensures
            r@ == self@,
    {
        let mut hunks: Vec<Hunk> = Vec::new();
        let n = self.0.len();
        let mut i: usize = 0;
        while i < n
            invariant
                n == self.0.len(),
                i <= n,
                hunks.len() == i,
                forall|k: int| 0 <= k < i ==> hunks[k]@ == self.0[k]@,
            decreases n - i,
        {
            hunks.push(self.0[i].clone());
            i = i + 1;
        }
        let r = Hunks(hunks);
        assert(r@ =~= self@);
        r
    }
}

impl Default for Hunks {
    fn default() -> (r: Self)
        ensures
            r@ == Seq::<HunkView>::empty(),
    {
        let r = Hunks(Vec::new());
        assert(r@ =~= Seq::<HunkView>::empty());
        r
    }
}

impl From<Vec<Hunk>> for Hunks {
    fn from(hunks: Vec<Hunk>) -> (r: Self) {
        Hunks(hunks)
    }
}

impl FromSpecImpl<Vec<Hunk>> for Hunks {
    open spec fn obeys_from_spec() -> bool {
        true
    }

    open spec fn from_spec(hunks: Vec<Hunk>) -> Self {
        Hunks(hunks)
    }
}

impl Hunks {
    /// The number of hunks.
    pub fn len(&self) -> (n: usize)
        ensures
            n == self@.len(),
    {
        self.0.len()
    }

    /// The hunk at position `i`, if there is one.
    pub fn get(&self, i: usize) -> (r: Option<&Hunk>)
        ensures
            i < self@.len() ==> (r matches Some(h) && h@ == self@[i as int]),
            i >= self@.len() ==> r is None,
    {
        if i < self.0.len() {
            Some(&self.0[i])
        } else {
            None
        }
    }
}

/// A set of changes belonging to one file.
#[derive(Debug, PartialEq, Eq)]
pub enum FileDiff {
    Binary,
    Plain { hunks: Hunks },
}

/// The mathematical model of a [`FileDiff`].
pub enum FileDiffView {
    Binary,
    Plain { hunks: Seq<HunkView> },
}

impl View for FileDiff {
    type V = FileDiffView;

    open spec fn view(&self) -> FileDiffView {
        match self {
            FileDiff::Binary => FileDiffView::Binary,
            FileDiff::Plain { hunks } => FileDiffView::Plain { hunks: hunks@ },
        }
    }
}

impl Clone for FileDiff {
    fn clone(&self) -> (r: Self)
        ensures
            r@ == self@,
    {
        match self {
            FileDiff::Binary => FileDiff::Binary,
            FileDiff::Plain { hunks } => FileDiff::Plain { hunks: hunks.clone() },
        }
    }
}

impl FileDiff {
    /// A textual content diff without any hunk.
    pub fn empty() -> (r: Self)
        ensures
            r@ == FileDiffView::empty(),
    {
        FileDiff::Plain { hunks: Hunks::default() }
    }
}

impl FileDiffView {
    /// The textual content diff without any hunk.
    pub open spec fn empty() -> FileDiffView {
        FileDiffView::Plain { hunks: Seq::empty() }
    }
}

/// Which of the two versions of a file lack the newline at their end.
#[derive(Clone, Copy, Debug, PartialEq, Eq, Structural)]
pub enum EofNewLine {
    OldMissing,
    NewMissing,
    BothMissing,
    NoneMissing,
}

impl EofNewLine {
    /// The classification that two flags stand for: whether the old version
    /// lacks its last newline, and whether the new version does.
    pub open spec fn of(old_missing: bool, new_missing: bool) -> EofNewLine {
        if old_missing && new_missing {
            EofNewLine::BothMissing
        } else if old_missing {
            EofNewLine::OldMissing
        } else if new_missing {
            EofNewLine::NewMissing
        } else {
            EofNewLine::NoneMissing
        }
    }

    /// Combines the two flags gathered while a file's lines were scanned.
    pub fn from_flags(old_missing: bool, new_missing: bool) -> (r: EofNewLine)
        ensures
            r == EofNewLine::of(old_missing, new_missing),
            (old_missing && new_missing) <==> r == EofNewLine::BothMissing,
            (old_missing && !new_missing) <==> r == EofNewLine::OldMissing,
            (!old_missing && new_missing) <==> r == EofNewLine::NewMissing,
            (!old_missing && !new_missing) <==> r == EofNewLine::NoneMissing,
    {
        match (old_missing, new_missing) {
            (true, true) => EofNewLine::BothMissing,
            (true, false) => EofNewLine::OldMissing,
            (false, true) => EofNewLine::NewMissing,
            (false, false) => EofNewLine::NoneMissing,
        }
    }
}

/// Statistics describing a particular [`Diff`].
#[derive(Clone, Copy, Debug, PartialEq, Eq, Structural)]
pub struct Stats {
    /// The total number of files changed in a diff.
    pub files_changed: usize,
    /// The total number of insertions in a diff.
    pub insertions: usize,
    /// The total number of deletions in a diff.
    pub deletions: usize,
}

/// A file that exists only in the new snapshot.
#[derive(Clone, Debug, PartialEq, Eq)]
pub struct CreateFile {
    pub path: Path,
    pub diff: FileDiff,
}

/// A file that exists only in the old snapshot.
#[derive(Clone, Debug, PartialEq, Eq)]
pub struct DeleteFile {
    pub path: Path,
    pub diff: FileDiff,
}

/// The mathematical model of a [`CreateFile`] and of a [`DeleteFile`].
pub struct ContentChange {
    pub path: Seq<Seq<u8>>,
    pub diff: FileDiffView,
}

impl View for CreateFile {
    type V = ContentChange;

    open spec fn view(&self) -> ContentChange {
        ContentChange { path: self.path@, diff: self.diff@ }
    }
}

impl View for DeleteFile {
    type V = ContentChange;

    open spec fn view(&self) -> ContentChange {
        ContentChange { path: self.path@, diff: self.diff@ }
    }
}

/// A file that went from one path to another.
#[derive(Clone, Debug, PartialEq, Eq)]
pub struct MoveFile {
    pub old_path: Path,
    pub new_path: Path,
}

/// A file that was copied from one path to another.
#[derive(Clone, Debug, PartialEq, Eq)]
pub struct CopyFile {
    pub old_path: Path,
    pub new_path: Path,
}

/// The mathematical model of a [`MoveFile`] and of a [`CopyFile`].
pub struct PathChange {
    pub old_path: Seq<Seq<u8>>,
    pub new_path: Seq<Seq<u8>>,
}

impl View for MoveFile {
    type V = PathChange;

    open spec fn view(&self) -> PathChange {
        PathChange { old_path: self.old_path@, new_path: self.new_path@ }
    }
}

impl View for CopyFile {
    type V = PathChange;

    open spec fn view(&self) -> PathChange {
        PathChange { old_path: self.old_path@, new_path: self.new_path@ }
    }
}

/// A file that exists in both snapshots with different content.
#[derive(Clone, Debug, PartialEq, Eq)]
pub struct ModifiedFile {
    pub path: Path,
    pub diff: FileDiff,
    /// Only meaningful for a textual `diff`; `None` for a binary one.
    pub eof: Option<EofNewLine>,
}

/// The mathematical model of a [`ModifiedFile`].
pub struct ModifiedView {
    pub path: Seq<Seq<u8>>,
    pub diff: FileDiffView,
    pub eof: Option<EofNewLine>,
}

impl View for ModifiedFile {
    type V = ModifiedView;

    open spec fn view(&self) -> ModifiedView {
        ModifiedView { path: self.path@, diff: self.diff@, eof: self.eof }
    }
}

/// The difference between two snapshots.
#[derive(Clone, Debug, PartialEq, Eq)]
pub struct Diff {
    pub created: Vec<CreateFile>,
    pub deleted: Vec<DeleteFile>,
    pub moved: Vec<MoveFile>,
    pub copied: Vec<CopyFile>,
    pub modified: Vec<ModifiedFile>,
}

/// The mathematical model of a [`Diff`].
#[verifier::ext_equal]
pub struct DiffView {
    pub created: Seq<ContentChange>,
    pub deleted: Seq<ContentChange>,
    pub moved: Seq<PathChange>,
    pub copied: Seq<PathChange>,
    pub modified: Seq<ModifiedView>,
}

impl View for Diff {
    type V = DiffView;

    open spec fn view(&self) -> DiffView {
        DiffView {
            created: self.created@.map_values(|f: CreateFile| f@),
            deleted: self.deleted@.map_values(|f: DeleteFile| f@),
            moved: self.moved@.map_values(|f: MoveFile| f@),
            copied: self.copied@.map_values(|f: CopyFile| f@),
            modified: self.modified@.map_values(|f: ModifiedFile| f@),
        }
    }
}

impl DiffView {
    /// The difference that lists nothing.
    pub open spec fn empty() -> DiffView {
        DiffView {
            created: Seq::empty(),
            deleted: Seq::empty(),
            moved: Seq::empty(),
            copied: Seq::empty(),
            modified: Seq::empty(),
        }
    }
}

impl Default for Diff {
    fn default() -> (r: Self)
        ensures
            r@ == DiffView::empty(),
    {
        Self::new()
    }
}

impl Diff {
    /// A difference that lists nothing.
    pub fn new() -> (r: Self)
        ensures
            r@ == DiffView::empty(),
    {
        let r = Diff {
            created: Vec::new(),
            deleted: Vec::new(),
            moved: Vec::new(),
            copied: Vec::new(),
            modified: Vec::new(),
        };
        assert(r@ =~= DiffView::empty());
        r
    }

    /// Records a textual modification of the file at `path`.
    pub fn add_modified_file(&mut self, path: Path, hunks: Hunks, eof: Option<EofNewLine>)
        ensures
            final(self)@ == (DiffView {
                modified: old(self)@.modified.push(
                    ModifiedView { path: path@, diff: FileDiffView::Plain { hunks: hunks@ }, eof },
                ),
                ..old(self)@
            }),
    {
        self.modified.push(ModifiedFile { path, diff: FileDiff::Plain { hunks }, eof });
        assert(self@.modified =~= old(self)@.modified.push(
            ModifiedView { path: path@, diff: FileDiffView::Plain { hunks: hunks@ }, eof },
        ));
    }

    /// Records that the file went from `old_path` to `new_path`.
    pub fn add_moved_file(&mut self, old_path: Path, new_path: Path)
        ensures
            final(self)@ == (DiffView {
                moved: old(self)@.moved.push(
                    PathChange { old_path: old_path@, new_path: new_path@ },
                ),
                ..old(self)@
            }),
    {
        self.moved.push(MoveFile { old_path, new_path });
        assert(self@.moved =~= old(self)@.moved.push(
            PathChange { old_path: old_path@, new_path: new_path@ },
        ));
    }

    /// Records that the file at `old_path` was copied to `new_path`.
    pub fn add_copied_file(&mut self, old_path: Path, new_path: Path)
        ensures
            final(self)@ == (DiffView {
                copied: old(self)@.copied.push(
                    PathChange { old_path: old_path@, new_path: new_path@ },
                ),
                ..old(self)@
            }),
    {
        self.copied.push(CopyFile { old_path, new_path });
        assert(self@.copied =~= old(self)@.copied.push(
            PathChange { old_path: old_path@, new_path: new_path@ },
        ));
    }

    /// Records a modification of the binary file at `path`.
    pub fn add_modified_binary_file(&mut self, path: Path)
        ensures
            final(self)@ == (DiffView {
                modified: old(self)@.modified.push(
                    ModifiedView { path: path@, diff: FileDiffView::Binary, eof: None },
                ),
                ..old(self)@
            }),
    {
        self.modified.push(ModifiedFile { path, diff: FileDiff::Binary, eof: None });
        assert(self@.modified =~= old(self)@.modified.push(
            ModifiedView { path: path@, diff: FileDiffView::Binary, eof: None },
        ));
    }

    /// Records that the file at `path` was created.
    pub fn add_created_file(&mut self, path: Path, diff: FileDiff)
        ensures
            final(self)@ == (DiffView {
                created: old(self)@.created.push(ContentChange { path: path@, diff: diff@ }),
                ..old(self)@
            }),
    {
        self.created.push(CreateFile { path, diff });
        assert(self@.created =~= old(self)@.created.push(
            ContentChange { path: path@, diff: diff@ },
        ));
    }

    /// Records that the file at `path` was deleted.
    pub fn add_deleted_file(&mut self, path: Path, diff: FileDiff)
        ensures
            final(self)@ == (DiffView {
                deleted: old(self)@.deleted.push(ContentChange { path: path@, diff: diff@ }),
                ..old(self)@
            }),
    {
        self.deleted.push(DeleteFile { path, diff });
        assert(self@.deleted =~= old(self)@.deleted.push(
            ContentChange { path: path@, diff: diff@ },
        ));
    }
}

} // verus!
