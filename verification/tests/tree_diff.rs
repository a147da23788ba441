use radicle_surf::diff::{CreateFile, DeleteFile, Diff, FileDiff, Hunks, ModifiedFile};
use radicle_surf::file_system::{
    compare_bytes, Directory, DirectoryContents, File, Label, NameOrder, Path,
};

fn file(name: &str, size: usize, checksum: u64) -> DirectoryContents {
    DirectoryContents::File {
        name: Label::new(name),
        file: File { size, checksum },
    }
}

fn dir(name: &str, entries: Vec<DirectoryContents>) -> Directory {
    Directory {
        name: Label::new(name),
        entries,
    }
}

fn sub(name: &str, entries: Vec<DirectoryContents>) -> DirectoryContents {
    DirectoryContents::Directory(dir(name, entries))
}

fn path(labels: &[&str]) -> Path {
    Path {
        labels: labels.iter().map(|l| Label::new(l)).collect(),
    }
}

fn no_hunks() -> FileDiff {
    FileDiff::Plain {
        hunks: Hunks(vec![]),
    }
}

fn created(labels: &[&str]) -> CreateFile {
    CreateFile {
        path: path(labels),
        diff: no_hunks(),
    }
}

fn deleted(labels: &[&str]) -> DeleteFile {
    DeleteFile {
        path: path(labels),
        diff: no_hunks(),
    }
}

fn modified(labels: &[&str]) -> ModifiedFile {
    ModifiedFile {
        path: path(labels),
        diff: no_hunks(),
        eof: None,
    }
}

fn sample_tree() -> Directory {
    dir(
        "~",
        vec![
            file("README.md", 120, 1),
            sub(
                "src",
                vec![
                    file("lib.rs", 40, 2),
                    sub("vcs", vec![file("git.rs", 900, 3)]),
                ],
            ),
            file("text.txt", 7, 4),
        ],
    )
}

#[test]
fn file_replaces_directory_and_file_changes_size() {
    let old = dir(
        "~",
        vec![sub("A", vec![file("x", 1, 11)]), file("z", 10, 12)],
    );
    let new = dir("~", vec![file("A", 3, 13), file("z", 20, 14)]);

    let diff = Diff::diff(old, new);

    assert_eq!(diff.created, vec![created(&["A"])]);
    assert_eq!(diff.deleted, vec![deleted(&["A", "x"])]);
    assert_eq!(diff.modified, vec![modified(&["z"])]);
    assert_eq!(diff.moved, vec![]);
    assert_eq!(diff.copied, vec![]);
}

#[test]
fn identical_snapshots_give_an_empty_diff() {
    let diff = Diff::diff(sample_tree(), sample_tree());

    assert_eq!(diff, Diff::new());
    assert!(diff.created.is_empty());
    assert!(diff.deleted.is_empty());
    assert!(diff.modified.is_empty());
    assert!(diff.moved.is_empty());
    assert!(diff.copied.is_empty());
}

#[test]
fn empty_snapshots_give_an_empty_diff() {
    let diff = Diff::diff(dir("~", vec![]), dir("~", vec![]));

    assert_eq!(diff, Diff::new());
}

#[test]
fn everything_is_created_against_an_empty_snapshot() {
    let diff = Diff::diff(dir("~", vec![]), sample_tree());

    assert_eq!(
        diff.created,
        vec![
            created(&["README.md"]),
            created(&["src", "lib.rs"]),
            created(&["src", "vcs", "git.rs"]),
            created(&["text.txt"]),
        ]
    );
    assert!(diff.deleted.is_empty());
    assert!(diff.modified.is_empty());
}

#[test]
fn everything_is_deleted_against_an_empty_snapshot() {
    let diff = Diff::diff(sample_tree(), dir("~", vec![]));

    assert_eq!(
        diff.deleted,
        vec![
            deleted(&["README.md"]),
            deleted(&["src", "lib.rs"]),
            deleted(&["src", "vcs", "git.rs"]),
            deleted(&["text.txt"]),
        ]
    );
    assert!(diff.created.is_empty());
    assert!(diff.modified.is_empty());
}

#[test]
fn directory_replaces_file() {
    let old = dir("~", vec![file("A", 3, 13)]);
    let new = dir(
        "~",
        vec![sub("A", vec![file("x", 1, 11), file("y", 2, 12)])],
    );

    let diff = Diff::diff(old, new);

    assert_eq!(
        diff.created,
        vec![created(&["A", "x"]), created(&["A", "y"])]
    );
    assert_eq!(diff.deleted, vec![deleted(&["A"])]);
    assert!(diff.modified.is_empty());
}

#[test]
fn file_replaces_directory_with_nested_directories() {
    let old = dir(
        "~",
        vec![sub(
            "N",
            vec![file("a", 1, 1), sub("deep", vec![file("b", 2, 2)]), file("z", 3, 3)],
        )],
    );
    let new = dir("~", vec![file("N", 9, 9)]);

    let diff = Diff::diff(old, new);

    assert_eq!(diff.created, vec![created(&["N"])]);
    assert_eq!(
        diff.deleted,
        vec![
            deleted(&["N", "a"]),
            deleted(&["N", "deep", "b"]),
            deleted(&["N", "z"]),
        ]
    );
    assert!(diff.modified.is_empty());
}

#[test]
fn unchanged_file_is_matched_by_name_not_by_position() {
    // "m" is the first entry of the old snapshot and the third of the new one.
    let old = dir("~", vec![file("m", 5, 50), file("q", 1, 10)]);
    let new = dir(
        "~",
        vec![file("a", 1, 1), file("b", 2, 2), file("m", 5, 50), file("z", 3, 3)],
    );

    let diff = Diff::diff(old, new);

    assert_eq!(
        diff.created,
        vec![created(&["a"]), created(&["b"]), created(&["z"])]
    );
    assert_eq!(diff.deleted, vec![deleted(&["q"])]);
    assert!(diff.modified.is_empty());
}

#[test]
fn file_with_another_checksum_is_modified() {
    let old = dir("~", vec![file("same-size", 5, 50)]);
    let new = dir("~", vec![file("same-size", 5, 51)]);

    let diff = Diff::diff(old, new);

    assert_eq!(diff.modified, vec![modified(&["same-size"])]);
    assert!(diff.created.is_empty());
    assert!(diff.deleted.is_empty());
}

#[test]
fn file_with_another_size_is_modified() {
    let old = dir("~", vec![file("f", 5, 50)]);
    let new = dir("~", vec![file("f", 6, 50)]);

    let diff = Diff::diff(old, new);

    assert_eq!(diff.modified, vec![modified(&["f"])]);
}

#[test]
fn changes_inside_directories_carry_the_whole_path() {
    let old = dir(
        "~",
        vec![sub(
            "src",
            vec![
                file("gone.rs", 1, 1),
                file("lib.rs", 40, 2),
                sub("vcs", vec![file("git.rs", 900, 3)]),
            ],
        )],
    );
    let new = dir(
        "~",
        vec![sub(
            "src",
            vec![
                file("lib.rs", 41, 2),
                file("new.rs", 1, 1),
                sub("vcs", vec![file("git.rs", 900, 4), file("hg.rs", 2, 2)]),
            ],
        )],
    );

    let diff = Diff::diff(old, new);

    assert_eq!(
        diff.created,
        vec![created(&["src", "new.rs"]), created(&["src", "vcs", "hg.rs"])]
    );
    assert_eq!(diff.deleted, vec![deleted(&["src", "gone.rs"])]);
    assert_eq!(
        diff.modified,
        vec![
            modified(&["src", "lib.rs"]),
            modified(&["src", "vcs", "git.rs"]),
        ]
    );
}

#[test]
fn moved_file_is_deleted_and_created() {
    let old = dir("~", vec![sub("a", vec![file("f", 1, 1)]), sub("b", vec![])]);
    let new = dir("~", vec![sub("a", vec![]), sub("b", vec![file("f", 1, 1)])]);

    let diff = Diff::diff(old, new);

    assert_eq!(diff.created, vec![created(&["b", "f"])]);
    assert_eq!(diff.deleted, vec![deleted(&["a", "f"])]);
    assert!(diff.moved.is_empty());
    assert!(diff.copied.is_empty());
}

#[test]
fn collect_files_walks_depth_first() {
    let tree = sample_tree();
    let files = Diff::collect_files(&tree, &path(&["root"]));

    assert_eq!(
        files,
        vec![
            path(&["root", "~", "README.md"]),
            path(&["root", "~", "src", "lib.rs"]),
            path(&["root", "~", "src", "vcs", "git.rs"]),
            path(&["root", "~", "text.txt"]),
        ]
    );
}

#[test]
fn collect_files_from_a_file_entry() {
    let files = Diff::collect_files_from_entry(&file("f", 1, 1), &path(&["d"]));

    assert_eq!(files, vec![path(&["d", "f"])]);
}

#[test]
fn add_created_and_deleted_files_take_every_file_of_an_entry() {
    let mut diff = Diff::new();
    let entry = sub("d", vec![file("a", 1, 1), file("b", 1, 1)]);

    diff.add_created_files(&entry, &Path::root());
    diff.add_deleted_files(&entry, &path(&["x"]));

    assert_eq!(diff.created, vec![created(&["d", "a"]), created(&["d", "b"])]);
    assert_eq!(
        diff.deleted,
        vec![deleted(&["x", "d", "a"]), deleted(&["x", "d", "b"])]
    );
}

#[test]
fn collect_diff_appends_to_what_is_there() {
    let mut diff = Diff::new();
    diff.add_created_file(path(&["before"]), no_hunks());

    Diff::collect_diff(
        &dir("~", vec![]),
        &dir("~", vec![file("f", 1, 1)]),
        &path(&["p"]),
        &mut diff,
    );

    assert_eq!(diff.created, vec![created(&["before"]), created(&["p", "f"])]);
}

#[test]
fn names_are_ordered_byte_by_byte() {
    assert_eq!(compare_bytes(b"a", b"b"), NameOrder::Less);
    assert_eq!(compare_bytes(b"b", b"a"), NameOrder::Greater);
    assert_eq!(compare_bytes(b"abc", b"abc"), NameOrder::Equal);
    assert_eq!(compare_bytes(b"ab", b"abc"), NameOrder::Less);
    assert_eq!(compare_bytes(b"abc", b"ab"), NameOrder::Greater);
    assert_eq!(compare_bytes(b"", b""), NameOrder::Equal);
    assert_eq!(compare_bytes(b"", b"a"), NameOrder::Less);
    assert_eq!(compare_bytes(b"Z", b"a"), NameOrder::Less);
    assert_eq!(
        Label::new("README.md").compare(&Label::new("src")),
        NameOrder::Less
    );
    assert_eq!(
        Label::new("é").compare(&Label::new("z")),
        NameOrder::Greater
    );
}

#[test]
fn sorted_snapshots_are_recognised() {
    assert!(sample_tree().is_sorted());
    assert!(dir("~", vec![]).is_sorted());
    assert!(!dir("~", vec![file("b", 1, 1), file("a", 1, 1)]).is_sorted());
    assert!(!dir("~", vec![file("a", 1, 1), file("a", 2, 2)]).is_sorted());
    assert!(!dir(
        "~",
        vec![file("a", 1, 1), sub("d", vec![file("y", 1, 1), file("x", 1, 1)])]
    )
    .is_sorted());
}

#[test]
fn labels_and_entries_know_their_names() {
    assert_eq!(Label::new("src").bytes, b"src".to_vec());
    assert_eq!(file("f", 1, 1).label(), &Label::new("f"));
    assert_eq!(sub("d", vec![]).label(), &Label::new("d"));
    assert_eq!(dir("d", vec![]).current(), &Label::new("d"));
    assert_eq!(Label::new("x").clone(), Label::new("x"));
}

#[test]
fn paths_are_built_name_by_name() {
    let mut p = Path::root();
    assert_eq!(p, path(&[]));

    p.push(Label::new("a"));
    assert_eq!(p, path(&["a"]));
    assert_eq!(p.join(&Label::new("b")), path(&["a", "b"]));
    assert_eq!(p, path(&["a"]));
    assert_eq!(p.clone(), p);
}

#[test]
fn paths_are_parsed_and_written() {
    assert_eq!(Path::parse(b"A/x"), path(&["A", "x"]));
    assert_eq!(Path::parse(b"README.md"), path(&["README.md"]));
    assert_eq!(Path::parse(b""), Path::root());
    assert_eq!(Path::parse(b"a//b"), path(&["a", "", "b"]));
    assert_eq!(Path::parse(b"/a"), path(&["", "a"]));
    assert_eq!(Path::parse(b"a/"), path(&["a", ""]));

    assert_eq!(path(&["A", "x"]).to_bytes(), b"A/x".to_vec());
    assert_eq!(path(&["src", "vcs", "git.rs"]).to_bytes(), b"src/vcs/git.rs".to_vec());
    assert_eq!(path(&["one"]).to_bytes(), b"one".to_vec());
    assert_eq!(Path::root().to_bytes(), Vec::<u8>::new());
}

#[test]
fn files_are_inserted_in_order_whatever_the_order_of_insertion() {
    let mut tree = Directory::new(Label::new("~"));

    assert!(tree.insert_file(&path(&["src", "vcs"]), Label::new("git.rs"), File { size: 900, checksum: 3 }));
    assert!(tree.insert_file(&path(&[]), Label::new("text.txt"), File { size: 7, checksum: 4 }));
    assert!(tree.insert_file(&path(&["src"]), Label::new("lib.rs"), File { size: 40, checksum: 2 }));
    assert!(tree.insert_file(&path(&[]), Label::new("README.md"), File { size: 120, checksum: 1 }));

    assert_eq!(tree, sample_tree());
    assert!(tree.is_sorted());
}

#[test]
fn file_is_not_inserted_where_the_place_is_taken() {
    let mut tree = sample_tree();

    // A file stands there already.
    assert!(!tree.insert_file(&path(&[]), Label::new("README.md"), File { size: 1, checksum: 1 }));
    // A directory stands there already.
    assert!(!tree.insert_file(&path(&[]), Label::new("src"), File { size: 1, checksum: 1 }));
    assert!(!tree.insert_file(&path(&["src"]), Label::new("vcs"), File { size: 1, checksum: 1 }));
    // A file stands in the way.
    assert!(!tree.insert_file(&path(&["README.md"]), Label::new("x"), File { size: 1, checksum: 1 }));
    assert!(!tree.insert_file(&path(&["src", "lib.rs", "deep"]), Label::new("x"), File { size: 1, checksum: 1 }));

    assert_eq!(tree, sample_tree());
}

#[test]
fn inserted_file_shows_up_as_created() {
    let mut new = sample_tree();
    assert!(new.insert_file(&path(&["src", "new", "deep"]), Label::new("f"), File { size: 1, checksum: 1 }));

    let diff = Diff::diff(sample_tree(), new);

    assert_eq!(diff.created, vec![created(&["src", "new", "deep", "f"])]);
    assert!(diff.deleted.is_empty());
    assert!(diff.modified.is_empty());
}

#[test]
fn new_directory_is_empty() {
    let d = Directory::new(Label::new("d"));

    assert_eq!(d, dir("d", vec![]));
    assert_eq!(sample_tree().clone(), sample_tree());
    assert_eq!(file("f", 1, 2).clone(), file("f", 1, 2));
}

#[test]
fn unchanged_file_is_not_modified_among_reordered_siblings() {
    // The entries of the new snapshot stand in no order; no name stands twice.
    let old = dir("~", vec![file("m", 5, 50), file("q", 1, 10)]);
    let new = dir(
        "~",
        vec![file("z", 3, 3), file("m", 5, 50), file("a", 1, 1), file("q", 1, 10)],
    );
    assert!(!new.is_sorted());

    let diff = Diff::diff(old, new);

    assert!(diff.modified.is_empty());
}
