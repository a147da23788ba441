use radicle_surf::diff::{
    CopyFile, CreateFile, DeleteFile, Diff, EofNewLine, FileDiff, Hunk, Hunks, Line, LineDiff,
    ModifiedFile, MoveFile, Stats,
};
use radicle_surf::file_system::Path;

fn at(written: &str) -> Path {
    Path::parse(written.as_bytes())
}

fn line(text: &str) -> Line {
    Line(text.as_bytes().to_vec())
}

fn hunk(lines: Vec<LineDiff>) -> Hunk {
    Hunk {
        header: line("@@ -1,2 +1,3 @@"),
        lines,
    }
}

fn plain(hunks: Vec<Hunk>) -> FileDiff {
    FileDiff::Plain {
        hunks: Hunks(hunks),
    }
}

fn mixed_lines() -> Vec<LineDiff> {
    vec![
        LineDiff::context(line("fn main() {"), 1, 1),
        LineDiff::deletion(line("    old();"), 2),
        LineDiff::addition(line("    new();"), 2),
        LineDiff::addition(line("    more();"), 3),
        LineDiff::context(line("}"), 3, 4),
    ]
}

#[test]
fn line_diffs_are_built() {
    assert_eq!(
        LineDiff::addition(line("a"), 7),
        LineDiff::Addition {
            line: line("a"),
            line_num: 7
        }
    );
    assert_eq!(
        LineDiff::deletion(line("d"), 8),
        LineDiff::Deletion {
            line: line("d"),
            line_num: 8
        }
    );
    assert_eq!(
        LineDiff::context(line("c"), 9, 10),
        LineDiff::Context {
            line: line("c"),
            line_num_old: 9,
            line_num_new: 10
        }
    );
}

#[test]
fn lines_come_from_bytes_and_strings() {
    assert_eq!(Line::from(vec![104, 105]), line("hi"));
    assert_eq!(Line::from(String::from("hi")), line("hi"));
    assert_eq!(Line::from(String::from("é")).0, vec![0xc3, 0xa9]);
    assert_eq!(line("x").clone(), line("x"));
}

#[test]
fn hunks_are_counted_and_indexed() {
    let hunks = Hunks::from(vec![hunk(mixed_lines()), hunk(vec![])]);

    assert_eq!(hunks.len(), 2);
    assert_eq!(hunks.get(0), Some(&hunk(mixed_lines())));
    assert_eq!(hunks.get(1), Some(&hunk(vec![])));
    assert_eq!(hunks.get(2), None);
    assert_eq!(Hunks::default(), Hunks(vec![]));
    assert_eq!(hunks.clone(), hunks);
    assert_eq!(FileDiff::empty(), plain(vec![]));
    assert_eq!(plain(vec![hunk(mixed_lines())]).clone(), plain(vec![hunk(mixed_lines())]));
}

#[test]
fn end_of_file_flags_map_to_the_four_outcomes() {
    assert_eq!(EofNewLine::from_flags(true, true), EofNewLine::BothMissing);
    assert_eq!(EofNewLine::from_flags(true, false), EofNewLine::OldMissing);
    assert_eq!(EofNewLine::from_flags(false, true), EofNewLine::NewMissing);
    assert_eq!(EofNewLine::from_flags(false, false), EofNewLine::NoneMissing);
}

#[test]
fn new_diff_is_empty() {
    let diff = Diff::new();

    assert!(diff.created.is_empty());
    assert!(diff.deleted.is_empty());
    assert!(diff.moved.is_empty());
    assert!(diff.copied.is_empty());
    assert!(diff.modified.is_empty());
    assert_eq!(Diff::default(), diff);
}

#[test]
fn builder_operations_append_to_their_list() {
    let mut diff = Diff::new();

    diff.add_created_file(at("c1"), plain(vec![]));
    diff.add_created_file(at("c2"), FileDiff::Binary);
    diff.add_deleted_file(at("d1"), plain(vec![hunk(mixed_lines())]));
    diff.add_modified_file(at("m1"), Hunks(vec![hunk(mixed_lines())]), Some(EofNewLine::OldMissing));
    diff.add_modified_binary_file(at("m2"));
    diff.add_moved_file(at("from"), at("to"));
    diff.add_copied_file(at("source"), at("copy"));

    assert_eq!(
        diff.created,
        vec![
            CreateFile {
                path: at("c1"),
                diff: plain(vec![])
            },
            CreateFile {
                path: at("c2"),
                diff: FileDiff::Binary
            },
        ]
    );
    assert_eq!(
        diff.deleted,
        vec![DeleteFile {
            path: at("d1"),
            diff: plain(vec![hunk(mixed_lines())])
        }]
    );
    assert_eq!(
        diff.modified,
        vec![
            ModifiedFile {
                path: at("m1"),
                diff: plain(vec![hunk(mixed_lines())]),
                eof: Some(EofNewLine::OldMissing)
            },
            ModifiedFile {
                path: at("m2"),
                diff: FileDiff::Binary,
                eof: None
            },
        ]
    );
    assert_eq!(
        diff.moved,
        vec![MoveFile {
            old_path: at("from"),
            new_path: at("to")
        }]
    );
    assert_eq!(
        diff.copied,
        vec![CopyFile {
            old_path: at("source"),
            new_path: at("copy")
        }]
    );
}

#[test]
fn stats_of_an_empty_diff_are_zero() {
    assert_eq!(
        Diff::new().stats(),
        Stats {
            files_changed: 0,
            insertions: 0,
            deletions: 0
        }
    );
}

#[test]
fn stats_count_files_and_lines() {
    let mut diff = Diff::new();
    // 2 additions, 1 deletion, 2 context lines in each use of `mixed_lines`.
    diff.add_modified_file(at("m1"), Hunks(vec![hunk(mixed_lines()), hunk(mixed_lines())]), None);
    diff.add_modified_binary_file(at("m2"));
    diff.add_created_file(
        at("c1"),
        plain(vec![hunk(vec![
            LineDiff::addition(line("a"), 1),
            LineDiff::addition(line("b"), 2),
            LineDiff::addition(line("c"), 3),
        ])]),
    );
    diff.add_created_file(at("c2"), FileDiff::Binary);
    diff.add_deleted_file(
        at("d1"),
        plain(vec![hunk(vec![
            LineDiff::deletion(line("x"), 1),
            LineDiff::deletion(line("y"), 2),
        ])]),
    );
    diff.add_moved_file(at("from"), at("to"));
    diff.add_copied_file(at("source"), at("copy"));

    let stats = diff.stats();

    assert_eq!(stats.files_changed, 5);
    assert_eq!(stats.insertions, 2 + 2 + 3);
    assert_eq!(stats.deletions, 1 + 1 + 2);
    assert_eq!(diff.checked_stats(), Some(stats));
    assert_eq!(
        stats.files_changed,
        diff.created.len() + diff.deleted.len() + diff.modified.len()
    );
}

#[test]
fn context_lines_count_for_nothing() {
    let mut with_context = Diff::new();
    with_context.add_modified_file(
        at("f"),
        Hunks(vec![hunk(vec![
            LineDiff::context(line("c"), 1, 1),
            LineDiff::addition(line("a"), 2),
            LineDiff::context(line("c"), 2, 3),
            LineDiff::context(line("c"), 3, 4),
        ])]),
        None,
    );
    let mut without = Diff::new();
    without.add_modified_file(
        at("f"),
        Hunks(vec![hunk(vec![LineDiff::addition(line("a"), 2)])]),
        None,
    );

    assert_eq!(with_context.stats(), without.stats());
    assert_eq!(with_context.stats().insertions, 1);
    assert_eq!(with_context.stats().deletions, 0);
}

#[test]
fn moved_and_copied_files_do_not_count_as_changed() {
    let mut diff = Diff::new();
    diff.add_moved_file(at("a"), at("b"));
    diff.add_copied_file(at("a"), at("c"));

    assert_eq!(diff.stats().files_changed, 0);
}

#[test]
fn every_line_of_every_file_is_counted() {
    // A deletion in a created file and an addition in a deleted file count too.
    let mut diff = Diff::new();
    diff.add_created_file(at("c"), plain(vec![hunk(vec![LineDiff::deletion(line("x"), 1)])]));
    diff.add_deleted_file(at("d"), plain(vec![hunk(vec![LineDiff::addition(line("y"), 1)])]));

    let stats = diff.stats();

    assert_eq!(stats.files_changed, 2);
    assert_eq!(stats.insertions, 1);
    assert_eq!(stats.deletions, 1);
}

#[test]
fn line_counts_of_hunks_and_files() {
    assert_eq!(hunk(mixed_lines()).line_counts(), (2, 1));
    assert_eq!(hunk(vec![]).line_counts(), (0, 0));
    assert_eq!(
        plain(vec![hunk(mixed_lines()), hunk(mixed_lines())]).line_counts(),
        Some((4, 2))
    );
    assert_eq!(FileDiff::Binary.line_counts(), Some((0, 0)));
}
