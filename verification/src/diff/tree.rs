//! The structural difference between two directory snapshots: a merge of
//! the two sorted lists of entries, directory by directory.

use crate::diff::{
    ContentChange, Diff, DiffView, FileDiff, FileDiffView, Hunks, ModifiedView,
};
use crate::file_system::{
    compare_names, files_of, Directory, DirectoryContents, Entry, NameOrder, Path,
};
use vstd::prelude::*;

verus! {

/// The paths that a comparison of two snapshots reports, list by list.
#[verifier::ext_equal]
pub struct TreeChanges {
    pub created: Seq<Seq<Seq<u8>>>,
    pub deleted: Seq<Seq<Seq<u8>>>,
    pub modified: Seq<Seq<Seq<u8>>>,
}

impl TreeChanges {
    /// No changes.
    pub open spec fn empty() -> TreeChanges {
        TreeChanges { created: Seq::empty(), deleted: Seq::empty(), modified: Seq::empty() }
    }

    /// These files are created, and nothing else changes.
    pub open spec fn created(paths: Seq<Seq<Seq<u8>>>) -> TreeChanges {
        TreeChanges { created: paths, deleted: Seq::empty(), modified: Seq::empty() }
    }

    /// These files are deleted, and nothing else changes.
    pub open spec fn deleted(paths: Seq<Seq<Seq<u8>>>) -> TreeChanges {
        TreeChanges { created: Seq::empty(), deleted: paths, modified: Seq::empty() }
    }

    /// These files are modified, and nothing else changes.
    pub open spec fn modified(paths: Seq<Seq<Seq<u8>>>) -> TreeChanges {
        TreeChanges { created: Seq::empty(), deleted: Seq::empty(), modified: paths }
    }

    /// The changes of `self`, followed list by list by those of `next`.
    pub open spec fn followed_by(self, next: TreeChanges) -> TreeChanges {
        TreeChanges {
            created: self.created + next.created,
            deleted: self.deleted + next.deleted,
            modified: self.modified + next.modified,
        }
    }
}

/// What the comparison reports for two entries of the same name, the one
/// from the old snapshot and the one from the new, in the directory at
/// `prefix`.
///
/// Two files are a modification if size or checksum differ, and nothing
/// otherwise. A file against a directory is never a modification: the entry
/// of the new snapshot is created and that of the old one deleted, file by
/// file. Two directories are compared entry by entry.
pub open spec fn entry_changes(prefix: Seq<Seq<u8>>, old: Entry, new: Entry) -> TreeChanges
    decreases old, new, 0nat,
{
    match (new, old) {
        (
            Entry::File { name, size, checksum },
            Entry::File { size: old_size, checksum: old_checksum, .. },
        ) => {
            if old_size != size || old_checksum != checksum {
                TreeChanges::modified(seq![prefix.push(name)])
            } else {
                TreeChanges::empty()
            }
        },
        (Entry::File { name, .. }, Entry::Directory { .. }) => TreeChanges {
            created: seq![prefix.push(name)],
            deleted: old.files(prefix),
            modified: Seq::empty(),
        },
        (Entry::Directory { .. }, Entry::File { name, .. }) => TreeChanges {
            created: new.files(prefix),
            deleted: seq![prefix.push(name)],
            modified: Seq::empty(),
        },
        (
            Entry::Directory { name, entries },
            Entry::Directory { entries: old_entries, .. },
        ) => tree_changes(prefix.push(name), old_entries, entries),
    }
}

/// What the comparison of the entries `old` and `new` of one directory,
/// whose path is `prefix`, reports.
///
/// Both lists are walked from their start. Where the name at the head of
/// `new` is the greater, the head of `old` is deleted with all files below
/// it; where it is the smaller, the head of `new` is created with all files
/// below it; where the two are equal, the two entries are compared. When one
/// list is at its end, what is left of the other is deleted or created.
pub open spec fn tree_changes(prefix: Seq<Seq<u8>>, old: Seq<Entry>, new: Seq<Entry>) -> TreeChanges
    decreases old, new, 1nat,
{
    if old.len() == 0 && new.len() == 0 {
        TreeChanges::empty()
    } else if old.len() == 0 {
        TreeChanges::created(new[0].files(prefix)).followed_by(
            tree_changes(prefix, old, new.drop_first()),
        )
    } else if new.len() == 0 {
        TreeChanges::deleted(old[0].files(prefix)).followed_by(
            tree_changes(prefix, old.drop_first(), new),
        )
    } else {
        match compare_names(new[0].name(), old[0].name()) {
            NameOrder::Greater => TreeChanges::deleted(old[0].files(prefix)).followed_by(
                tree_changes(prefix, old.drop_first(), new),
            ),
            NameOrder::Less => TreeChanges::created(new[0].files(prefix)).followed_by(
                tree_changes(prefix, old, new.drop_first()),
            ),
            NameOrder::Equal => entry_changes(prefix, old[0], new[0]).followed_by(
                tree_changes(prefix, old.drop_first(), new.drop_first()),
            ),
        }
    }
}

/// The paths that a list of [`Path`]s stands for.
pub open spec fn paths_view(paths: Seq<Path>) -> Seq<Seq<Seq<u8>>> {
    paths.map_values(|p: Path| p@)
}

/// The record of a file that a comparison of snapshots found created or
/// deleted: its path, with a textual content diff that holds no hunk.
pub open spec fn bare_change(path: Seq<Seq<u8>>) -> ContentChange {
    ContentChange { path, diff: FileDiffView::empty() }
}

/// The record of a file that a comparison of snapshots found modified: its
/// path, with a textual content diff that holds no hunk and no statement
/// about the end of the file.
pub open spec fn bare_modification(path: Seq<Seq<u8>>) -> ModifiedView {
    ModifiedView { path, diff: FileDiffView::empty(), eof: None }
}

impl DiffView {
    /// The difference `self` with the files of `changes` appended to its
    /// lists, in their order.
    pub open spec fn with_tree_changes(self, changes: TreeChanges) -> DiffView {
        DiffView {
            created: self.created + changes.created.map_values(|p| bare_change(p)),
            deleted: self.deleted + changes.deleted.map_values(|p| bare_change(p)),
            modified: self.modified + changes.modified.map_values(|p| bare_modification(p)),
            ..self
        }
    }
}

/// Appending the changes `a` and then the changes `b` appends `a` followed
/// by `b`.
pub proof fn lemma_with_tree_changes_twice(d: DiffView, a: TreeChanges, b: TreeChanges)
    ensures
        d.with_tree_changes(a).with_tree_changes(b) == d.with_tree_changes(a.followed_by(b)),
{
    let l = d.with_tree_changes(a).with_tree_changes(b);
    let r = d.with_tree_changes(a.followed_by(b));
    assert(l.created =~= r.created);
    assert(l.deleted =~= r.deleted);
    assert(l.modified =~= r.modified);
    assert(l =~= r);
}

/// Appending no changes leaves the difference as it is.
pub proof fn lemma_with_no_tree_changes(d: DiffView)
    ensures
        d.with_tree_changes(TreeChanges::empty()) == d,
{
    let l = d.with_tree_changes(TreeChanges::empty());
    assert(l.created =~= d.created);
    assert(l.deleted =~= d.deleted);
    assert(l.modified =~= d.modified);
    assert(l =~= d);
}

impl Diff {
    /// The paths of the files that `entry` stands for, inside the directory
    /// at `parent_path`: the file itself, or every file below the directory.
    pub fn collect_files_from_entry(entry: &DirectoryContents, parent_path: &Path) -> (files: Vec<
        Path,
    >)
        ensures
            paths_view(files@) == entry@.files(parent_path@),
    {
        match entry {
            DirectoryContents::Directory(dir) => Diff::collect_files(dir, parent_path),
            DirectoryContents::File { name, .. } => {
                let mut files: Vec<Path> = Vec::new();
                files.push(parent_path.join(name));
                assert(paths_view(files@) =~= entry@.files(parent_path@));
                files
            },
        }
    }

    /// The paths of all files below `dir`, which lies inside the directory
    /// at `parent_path`.
    pub fn collect_files(dir: &Directory, parent_path: &Path) -> (files: Vec<Path>)
        ensures
            paths_view(files@) == files_of(parent_path@.push(dir.name@), dir@),
    {
        let mut files: Vec<Path> = Vec::new();
        assert(paths_view(files@) =~= Seq::empty());
        Diff::collect_files_inner(dir, parent_path, &mut files);
        assert(paths_view(files@) =~= files_of(parent_path@.push(dir.name@), dir@));
        files
    }

    /// Appends to `files` the paths of all files below `dir`, which lies
    /// inside the directory at `parent_path`.
    fn collect_files_inner(dir: &Directory, parent_path: &Path, files: &mut Vec<Path>)
        ensures
            paths_view(final(files)@) == paths_view(old(files)@) + files_of(
                parent_path@.push(dir.name@),
                dir@,
            ),
        decreases dir,
    {
        let path = parent_path.join(dir.current());
        let n = dir.entries.len();
        let mut i: usize = 0;
        assert(dir@.skip(0) =~= dir@);
        while i < n
            invariant
                n == dir.entries.len(),
                n == dir@.len(),
                i <= n,
                path@ == parent_path@.push(dir.name@),
                paths_view(files@) + files_of(path@, dir@.skip(i as int)) == paths_view(
                    old(files)@,
                ) + files_of(path@, dir@),
            decreases n - i,
        {
            let ghost before = paths_view(files@);
            let ghost rest = dir@.skip(i as int);
            proof {
                assert(rest[0] == dir.entries[i as int]@);
                assert(rest.drop_first() =~= dir@.skip(i + 1));
            }
            match &dir.entries[i] {
                DirectoryContents::Directory(subdir) => {
                    Diff::collect_files_inner(subdir, &path, files);
                    assert(rest[0] == Entry::Directory { name: subdir.name@, entries: subdir@ });
                    assert(paths_view(files@) == before + rest[0].files(path@));
                },
                DirectoryContents::File { name, .. } => {
                    files.push(path.join(name));
                    assert(paths_view(files@) =~= before + rest[0].files(path@));
                },
            }
            assert(files_of(path@, rest) == rest[0].files(path@) + files_of(
                path@,
                dir@.skip(i + 1),
            ));
            assert(paths_view(files@) + files_of(path@, dir@.skip(i + 1)) =~= before + files_of(
                path@,
                rest,
            ));
            i = i + 1;
        }
        assert(paths_view(files@) + files_of(path@, dir@.skip(n as int)) =~= paths_view(files@));
    }

    /// Records every file that `dc` stands for, inside the directory at
    /// `parent_path`, as created.
    pub fn add_created_files(&mut self, dc: &DirectoryContents, parent_path: &Path)
        ensures
            final(self)@ == old(self)@.with_tree_changes(
                TreeChanges::created(dc@.files(parent_path@)),
            ),
    {
        let new_files = Diff::collect_files_from_entry(dc, parent_path);
        let ghost paths = paths_view(new_files@);
        let ghost start = self@;
        proof {
            lemma_with_no_tree_changes(start);
            assert(paths.take(0) =~= Seq::empty());
        }
        for path in it: new_files
            invariant
                paths == paths_view(it.seq()),
                self@ == start.with_tree_changes(TreeChanges::created(paths.take(it.index() as int))),
        {
            self.add_created_file(path, FileDiff::empty());
            proof {
                let k = it.index() as int;
                let a = start.with_tree_changes(TreeChanges::created(paths.take(k + 1)));
                assert(paths.take(k + 1) =~= paths.take(k).push(paths[k]));
                assert(self@.created =~= a.created);
                assert(self@ =~= a);
            }
        }
        assert(paths.take(paths.len() as int) =~= paths);
    }
    /// Records every file that `dc` stands for, inside the directory at
    /// `parent_path`, as deleted.
    pub fn add_deleted_files(&mut self, dc: &DirectoryContents, parent_path: &Path)
        ensures
            final(self)@ == old(self)@.with_tree_changes(
                TreeChanges::deleted(dc@.files(parent_path@)),
            ),
    {
        let old_files = Diff::collect_files_from_entry(dc, parent_path);
        let ghost paths = paths_view(old_files@);
        let ghost start = self@;
        proof {
            lemma_with_no_tree_changes(start);
            assert(paths.take(0) =~= Seq::empty());
        }
        for path in it: old_files
            invariant
                paths == paths_view(it.seq()),
                self@ == start.with_tree_changes(
                    TreeChanges::deleted(paths.take(it.index() as int)),
                ),
        {
            self.add_deleted_file(path, FileDiff::empty());
            proof {
                let k = it.index() as int;
                let a = start.with_tree_changes(TreeChanges::deleted(paths.take(k + 1)));
                assert(paths.take(k + 1) =~= paths.take(k).push(paths[k]));
                assert(self@.deleted =~= a.deleted);
                assert(self@ =~= a);
            }
        }
        assert(paths.take(paths.len() as int) =~= paths);
    }

    /// Compares the directory `old_dir` with the directory `new_dir`, both
    /// of which lie at `parent_path`, and appends what it finds to `diff`.
    pub fn collect_diff(
        old_dir: &Directory,
        new_dir: &Directory,
        parent_path: &Path,
        diff: &mut Diff,
    )
        ensures
            final(diff)@ == old(diff)@.with_tree_changes(
                tree_changes(parent_path@, old_dir@, new_dir@),
            ),
        decreases old_dir,
    {
        let old_len = old_dir.entries.len();
        let new_len = new_dir.entries.len();
        let mut i: usize = 0;
        let mut j: usize = 0;
        let ghost prefix = parent_path@;
        assert(old_dir@.skip(0) =~= old_dir@ && new_dir@.skip(0) =~= new_dir@);
        while i < old_len || j < new_len
            invariant
                old_len == old_dir.entries.len(),
                old_len == old_dir@.len(),
                new_len == new_dir.entries.len(),
                new_len == new_dir@.len(),
                i <= old_len,
                j <= new_len,
                prefix == parent_path@,
                diff@.with_tree_changes(
                    tree_changes(prefix, old_dir@.skip(i as int), new_dir@.skip(j as int)),
                ) == old(diff)@.with_tree_changes(tree_changes(prefix, old_dir@, new_dir@)),
            decreases (old_len - i) + (new_len - j),
        {
            let ghost before = diff@;
            let ghost olds = old_dir@.skip(i as int);
            let ghost news = new_dir@.skip(j as int);
            let ghost step: TreeChanges;
            proof {
                if i < old_len {
                    assert(olds[0] == old_dir.entries[i as int]@);
                    assert(olds.drop_first() =~= old_dir@.skip(i + 1));
                }
                if j < new_len {
                    assert(news[0] == new_dir.entries[j as int]@);
                    assert(news.drop_first() =~= new_dir@.skip(j + 1));
                }
            }
            if i < old_len && j < new_len {
                let old_entry = &old_dir.entries[i];
                let new_entry = &new_dir.entries[j];
                match new_entry.label().compare(old_entry.label()) {
                    NameOrder::Greater => {
                        diff.add_deleted_files(old_entry, parent_path);
                        proof {
                            step = TreeChanges::deleted(olds[0].files(prefix));
                        }
                        i = i + 1;
                    },
                    NameOrder::Less => {
                        diff.add_created_files(new_entry, parent_path);
                        proof {
                            step = TreeChanges::created(news[0].files(prefix));
                        }
                        j = j + 1;
                    },
                    NameOrder::Equal => {
                        proof {
                            step = entry_changes(prefix, olds[0], news[0]);
                        }
                        match (new_entry, old_entry) {
                            (
                                DirectoryContents::File { name: new_file_name, file: new_file },
                                DirectoryContents::File { file: old_file, .. },
                            ) => {
                                if old_file.size != new_file.size || old_file.checksum
                                    != new_file.checksum {
                                    let path = parent_path.join(new_file_name);
                                    diff.add_modified_file(path, Hunks::default(), None);
                                    proof {
                                        let a = before.with_tree_changes(step);
                                        assert(diff@.modified =~= a.modified);
                                        assert(diff@.created =~= a.created);
                                        assert(diff@.deleted =~= a.deleted);
                                    }
                                } else {
                                    proof {
                                        lemma_with_no_tree_changes(before);
                                    }
                                }
                            },
                            (
                                DirectoryContents::File { name: new_file_name, .. },
                                DirectoryContents::Directory(_),
                            ) => {
                                let path = parent_path.join(new_file_name);
                                diff.add_created_file(path, FileDiff::empty());
                                diff.add_deleted_files(old_entry, parent_path);
                                proof {
                                    let a = before.with_tree_changes(step);
                                    assert(diff@.modified =~= a.modified);
                                    assert(diff@.created =~= a.created);
                                    assert(diff@.deleted =~= a.deleted);
                                }
                            },
                            (
                                DirectoryContents::Directory(_),
                                DirectoryContents::File { name: old_file_name, .. },
                            ) => {
                                let path = parent_path.join(old_file_name);
                                diff.add_created_files(new_entry, parent_path);
                                diff.add_deleted_file(path, FileDiff::empty());
                                proof {
                                    let a = before.with_tree_changes(step);
                                    assert(diff@.modified =~= a.modified);
                                    assert(diff@.created =~= a.created);
                                    assert(diff@.deleted =~= a.deleted);
                                }
                            },
                            (
                                DirectoryContents::Directory(new_sub),
                                DirectoryContents::Directory(old_sub),
                            ) => {
                                let path = parent_path.join(new_sub.current());
                                Diff::collect_diff(old_sub, new_sub, &path, diff);
                            },
                        }
                        assert(diff@ =~= before.with_tree_changes(step));
                        i = i + 1;
                        j = j + 1;
                    },
                }
            } else if i < old_len {
                diff.add_deleted_files(&old_dir.entries[i], parent_path);
                proof {
                    step = TreeChanges::deleted(olds[0].files(prefix));
                }
                i = i + 1;
            } else {
                diff.add_created_files(&new_dir.entries[j], parent_path);
                proof {
                    step = TreeChanges::created(news[0].files(prefix));
                }
                j = j + 1;
            }
            proof {
                let rest = tree_changes(prefix, old_dir@.skip(i as int), new_dir@.skip(j as int));
                assert(tree_changes(prefix, olds, news) == step.followed_by(rest));
                lemma_with_tree_changes_twice(before, step, rest);
            }
        }
        proof {
            lemma_with_no_tree_changes(diff@);
        }
    }

    /// The difference between the snapshot `left` and the snapshot `right`,
    /// `right` being the newer one.
    ///
    /// Paths are relative to the root of the snapshots. Every file that is
    /// listed carries a textual content diff without hunks: the comparison
    /// looks at names, sizes and checksums only. A file that left one place
    /// and appeared in another is listed as deleted and as created.
    pub fn diff(left: Directory, right: Directory) -> (diff: Diff)
        ensures
            diff@ == DiffView::empty().with_tree_changes(
                tree_changes(Seq::empty(), left@, right@),
            ),
    {
        let mut diff = Diff::new();
        let path = Path::root();
        Diff::collect_diff(&left, &right, &path, &mut diff);
        diff
    }
}

} // verus!
