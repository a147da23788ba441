use radicle_surf::diff::git::error::{Diff as DiffError, Hunk as HunkError, Modification};
use radicle_surf::diff::git::{
    apply_delta, copied, created, deleted, file_content, modified, renamed, Delta, DeltaFile,
    DeltaStatus, PatchHunk, PatchLine,
};
use radicle_surf::diff::{
    CopyFile, CreateFile, DeleteFile, Diff, EofNewLine, FileDiff, Hunk, Hunks, Line, LineDiff,
    ModifiedFile, MoveFile,
};
use radicle_surf::file_system::Path;

fn native(old_lineno: Option<u32>, new_lineno: Option<u32>, origin: char, content: &str) -> PatchLine {
    PatchLine {
        old_lineno,
        new_lineno,
        origin,
        content: content.as_bytes().to_vec(),
    }
}

fn native_hunk(header: &str, lines: Vec<PatchLine>) -> PatchHunk {
    PatchHunk {
        header: header.as_bytes().to_vec(),
        lines,
    }
}

fn text(content: &str) -> Line {
    Line(content.as_bytes().to_vec())
}

fn marker(origin: char) -> PatchLine {
    native(None, None, origin, "\n\\ No newline at end of file\n")
}

fn eof_of(lines: Vec<PatchLine>) -> EofNewLine {
    FileDiff::from_hunks(vec![native_hunk("@@", lines)]).unwrap().1
}

#[test]
fn native_line_with_new_position_only_is_an_addition() {
    assert_eq!(
        LineDiff::try_from_line(native(None, Some(4), '+', "added\n")).unwrap(),
        LineDiff::addition(text("added\n"), 4)
    );
}

#[test]
fn native_line_with_old_position_only_is_a_deletion() {
    assert_eq!(
        LineDiff::try_from_line(native(Some(9), None, '-', "gone\n")).unwrap(),
        LineDiff::deletion(text("gone\n"), 9)
    );
}

#[test]
fn native_line_with_both_positions_is_context() {
    assert_eq!(
        LineDiff::try_from_line(native(Some(2), Some(3), ' ', "same\n")).unwrap(),
        LineDiff::context(text("same\n"), 2, 3)
    );
}

#[test]
fn native_line_without_positions_is_invalid() {
    assert!(matches!(
        LineDiff::try_from_line(native(None, None, ' ', "lost\n")),
        Err(Modification::Invalid)
    ));
    // The origin plays no part in the classification.
    assert!(matches!(
        LineDiff::try_from_line(native(None, None, '+', "lost\n")),
        Err(Modification::Invalid)
    ));
    assert_eq!(
        LineDiff::try_from_line(native(Some(1), None, '+', "x")).unwrap(),
        LineDiff::deletion(text("x"), 1)
    );
}

#[test]
fn hunks_keep_header_order_and_lines() {
    let hunks = vec![
        native_hunk(
            "@@ -1,3 +1,3 @@\n",
            vec![
                native(Some(1), Some(1), ' ', "a\n"),
                native(Some(2), None, '-', "b\n"),
                native(None, Some(2), '+', "B\n"),
                native(Some(3), Some(3), ' ', "c\n"),
            ],
        ),
        native_hunk("@@ -10 +10,2 @@ fn f()\n", vec![native(None, Some(11), '+', "z\n")]),
        native_hunk("@@ empty @@", vec![]),
    ];

    let (diff, eof) = FileDiff::from_hunks(hunks).unwrap();

    assert_eq!(
        diff,
        FileDiff::Plain {
            hunks: Hunks(vec![
                Hunk {
                    header: text("@@ -1,3 +1,3 @@\n"),
                    lines: vec![
                        LineDiff::context(text("a\n"), 1, 1),
                        LineDiff::deletion(text("b\n"), 2),
                        LineDiff::addition(text("B\n"), 2),
                        LineDiff::context(text("c\n"), 3, 3),
                    ],
                },
                Hunk {
                    header: text("@@ -10 +10,2 @@ fn f()\n"),
                    lines: vec![LineDiff::addition(text("z\n"), 11)],
                },
                Hunk {
                    header: text("@@ empty @@"),
                    lines: vec![],
                },
            ])
        }
    );
    assert_eq!(eof, EofNewLine::NoneMissing);
}

#[test]
fn patch_without_hunks_is_an_empty_textual_diff() {
    assert_eq!(
        FileDiff::from_hunks(vec![]).unwrap(),
        (FileDiff::empty(), EofNewLine::NoneMissing)
    );
}

#[test]
fn markers_are_dropped_from_the_lines() {
    let (diff, eof) = FileDiff::from_hunks(vec![native_hunk(
        "@@",
        vec![
            native(Some(1), None, '-', "a\n"),
            native(None, Some(1), '+', "a"),
            marker('<'),
        ],
    )])
    .unwrap();

    assert_eq!(
        diff,
        FileDiff::Plain {
            hunks: Hunks(vec![Hunk {
                header: text("@@"),
                lines: vec![
                    LineDiff::deletion(text("a\n"), 1),
                    LineDiff::addition(text("a"), 1),
                ],
            }])
        }
    );
    assert_eq!(eof, EofNewLine::NewMissing);
}

#[test]
fn context_marker_means_both_missing() {
    assert_eq!(eof_of(vec![marker('=')]), EofNewLine::BothMissing);
}

#[test]
fn addition_marker_means_old_missing() {
    assert_eq!(eof_of(vec![marker('>')]), EofNewLine::OldMissing);
}

#[test]
fn deletion_marker_means_new_missing() {
    assert_eq!(eof_of(vec![marker('<')]), EofNewLine::NewMissing);
}

#[test]
fn no_marker_means_none_missing() {
    assert_eq!(
        eof_of(vec![native(Some(1), Some(1), ' ', "a\n")]),
        EofNewLine::NoneMissing
    );
    assert_eq!(eof_of(vec![]), EofNewLine::NoneMissing);
}

#[test]
fn addition_and_deletion_markers_together_mean_both_missing() {
    assert_eq!(eof_of(vec![marker('>'), marker('<')]), EofNewLine::BothMissing);
    assert_eq!(eof_of(vec![marker('<'), marker('>')]), EofNewLine::BothMissing);
}

#[test]
fn markers_of_all_hunks_are_gathered() {
    let (_, eof) = FileDiff::from_hunks(vec![
        native_hunk("@@ 1 @@", vec![marker('>')]),
        native_hunk("@@ 2 @@", vec![native(Some(1), Some(1), ' ', "a\n")]),
        native_hunk("@@ 3 @@", vec![marker('<')]),
    ])
    .unwrap();

    assert_eq!(eof, EofNewLine::BothMissing);
}

#[test]
fn marker_needs_no_position() {
    // A marker is recognised by its origin alone, with or without positions.
    assert_eq!(
        eof_of(vec![native(Some(3), Some(3), '=', "\n\\ No newline\n")]),
        EofNewLine::BothMissing
    );
}

#[test]
fn invalid_line_fails_the_whole_patch() {
    let result = FileDiff::from_hunks(vec![
        native_hunk("@@ 1 @@", vec![native(Some(1), Some(1), ' ', "a\n")]),
        native_hunk(
            "@@ 2 @@",
            vec![
                native(None, Some(2), '+', "b\n"),
                native(None, None, ' ', "broken\n"),
                native(None, Some(3), '+', "c\n"),
            ],
        ),
    ]);

    assert!(matches!(result, Err(Modification::Invalid)));
}

#[test]
fn content_of_a_textual_patch() {
    let content = file_content(
        &Path::parse(b"src/lib.rs"),
        Some(vec![native_hunk("@@", vec![native(None, Some(1), '+', "x"), marker('<')])]),
        false,
    )
    .unwrap();

    assert_eq!(
        content,
        (
            FileDiff::Plain {
                hunks: Hunks(vec![Hunk {
                    header: text("@@"),
                    lines: vec![LineDiff::addition(text("x"), 1)],
                }])
            },
            Some(EofNewLine::NewMissing)
        )
    );
}

#[test]
fn content_of_a_textual_patch_of_a_binary_file_is_textual() {
    // Where there is a patch, it is used, whatever the file is said to be.
    let content = file_content(&Path::parse(b"f"), Some(vec![]), true).unwrap();

    assert_eq!(content, (FileDiff::empty(), Some(EofNewLine::NoneMissing)));
}

#[test]
fn content_of_a_binary_file_without_patch() {
    let content = file_content(&Path::parse(b"logo.png"), None, true).unwrap();

    assert_eq!(content, (FileDiff::Binary, None));
}

#[test]
fn content_of_a_text_file_without_patch_is_unavailable() {
    let result = file_content(&Path::parse(b"src/lib.rs"), None, false);

    match result {
        Err(DiffError::PatchUnavailable(path)) => assert_eq!(path, Path::parse(b"src/lib.rs")),
        other => panic!("unexpected: {:?}", other),
    }
}

#[test]
fn content_of_an_invalid_patch() {
    let result = file_content(
        &Path::parse(b"f"),
        Some(vec![native_hunk("@@", vec![native(None, None, ' ', "?")])]),
        false,
    );

    assert!(matches!(
        result,
        Err(DiffError::Hunk(HunkError::Line(Modification::Invalid)))
    ));
}

fn one_side(path: Option<&str>, is_binary: bool) -> DeltaFile {
    DeltaFile {
        path: path.map(|p| Path::parse(p.as_bytes())),
        is_binary,
    }
}

fn change(status: DeltaStatus, old: Option<&str>, new: Option<&str>) -> Delta {
    Delta {
        status,
        old_file: one_side(old, false),
        new_file: one_side(new, false),
    }
}

fn valid_patch() -> Option<Vec<PatchHunk>> {
    Some(vec![native_hunk(
        "@@ -1 +1,2 @@",
        vec![
            native(Some(1), None, '-', "a\n"),
            native(None, Some(1), '+', "b\n"),
            native(None, Some(2), '+', "c"),
            marker('<'),
        ],
    )])
}

fn valid_content() -> FileDiff {
    FileDiff::Plain {
        hunks: Hunks(vec![Hunk {
            header: text("@@ -1 +1,2 @@"),
            lines: vec![
                LineDiff::deletion(text("a\n"), 1),
                LineDiff::addition(text("b\n"), 1),
                LineDiff::addition(text("c"), 2),
            ],
        }]),
    }
}

fn invalid_patch() -> Option<Vec<PatchHunk>> {
    Some(vec![
        native_hunk("@@ 1 @@", vec![native(None, Some(1), '+', "fine\n")]),
        native_hunk(
            "@@ 2 @@",
            vec![native(None, Some(7), '+', "fine\n"), native(None, None, ' ', "broken\n")],
        ),
    ])
}

fn started() -> Diff {
    let mut diff = Diff::new();
    diff.add_created_file(Path::parse(b"earlier"), FileDiff::Binary);
    diff.add_modified_binary_file(Path::parse(b"earlier too"));
    diff
}

#[test]
fn created_records_the_new_side() {
    let mut diff = started();

    created(&mut diff, &change(DeltaStatus::Added, Some("old"), Some("new")), valid_patch()).unwrap();

    assert_eq!(
        diff.created[1..],
        [CreateFile {
            path: Path::parse(b"new"),
            diff: valid_content()
        }]
    );
    assert_eq!(diff.created[0], started().created[0]);
    assert_eq!(diff.modified, started().modified);
    assert!(diff.deleted.is_empty());
}

#[test]
fn deleted_records_the_old_side() {
    let mut diff = started();

    deleted(&mut diff, &change(DeltaStatus::Deleted, Some("old"), Some("new")), valid_patch()).unwrap();

    assert_eq!(
        diff.deleted,
        vec![DeleteFile {
            path: Path::parse(b"old"),
            diff: valid_content()
        }]
    );
    assert_eq!(diff.created, started().created);
}

#[test]
fn modified_records_the_new_side_with_the_end_of_file() {
    let mut diff = started();

    modified(&mut diff, &change(DeltaStatus::Modified, Some("old"), Some("new")), valid_patch()).unwrap();

    assert_eq!(
        diff.modified[1..],
        [ModifiedFile {
            path: Path::parse(b"new"),
            diff: valid_content(),
            eof: Some(EofNewLine::NewMissing)
        }]
    );
}

#[test]
fn invalid_line_leaves_the_diff_untouched() {
    let mut diff = started();

    let c = created(&mut diff, &change(DeltaStatus::Added, None, Some("f")), invalid_patch());
    let d = deleted(&mut diff, &change(DeltaStatus::Deleted, Some("f"), None), invalid_patch());
    let m = modified(&mut diff, &change(DeltaStatus::Modified, Some("f"), Some("f")), invalid_patch());
    let a = apply_delta(&mut diff, &change(DeltaStatus::Modified, Some("f"), Some("f")), invalid_patch());

    for r in [c, d, m, a] {
        assert!(matches!(
            r,
            Err(DiffError::Hunk(HunkError::Line(Modification::Invalid)))
        ));
    }
    assert_eq!(diff, started());
}

#[test]
fn missing_path_comes_before_an_invalid_line() {
    let mut diff = started();

    let r = created(&mut diff, &change(DeltaStatus::Added, Some("f"), None), invalid_patch());

    assert!(matches!(r, Err(DiffError::PathUnavailable)));
    assert_eq!(diff, started());
}

#[test]
fn text_file_without_patch_leaves_the_diff_untouched() {
    let mut diff = started();

    let r = modified(&mut diff, &change(DeltaStatus::Modified, Some("f"), Some("g")), None);

    match r {
        Err(DiffError::PatchUnavailable(path)) => assert_eq!(path, Path::parse(b"g")),
        other => panic!("unexpected: {:?}", other),
    }
    assert_eq!(diff, started());
}

#[test]
fn binary_file_without_patch_is_recorded_as_binary() {
    let mut diff = Diff::new();
    let binary = Delta {
        status: DeltaStatus::Modified,
        old_file: one_side(Some("old.png"), true),
        new_file: one_side(Some("new.png"), true),
    };

    created(&mut diff, &binary, None).unwrap();
    deleted(&mut diff, &binary, None).unwrap();
    modified(&mut diff, &binary, None).unwrap();

    assert_eq!(
        diff.created,
        vec![CreateFile {
            path: Path::parse(b"new.png"),
            diff: FileDiff::Binary
        }]
    );
    assert_eq!(
        diff.deleted,
        vec![DeleteFile {
            path: Path::parse(b"old.png"),
            diff: FileDiff::Binary
        }]
    );
    assert_eq!(
        diff.modified,
        vec![ModifiedFile {
            path: Path::parse(b"new.png"),
            diff: FileDiff::Binary,
            eof: None
        }]
    );
}

#[test]
fn renamed_delta_is_moved() {
    let mut diff = Diff::new();

    renamed(&mut diff, &change(DeltaStatus::Renamed, Some("a/old"), Some("b/new"))).unwrap();

    assert_eq!(
        diff.moved,
        vec![MoveFile {
            old_path: Path::parse(b"a/old"),
            new_path: Path::parse(b"b/new")
        }]
    );
    assert!(diff.created.is_empty() && diff.deleted.is_empty() && diff.copied.is_empty());
}

#[test]
fn copied_delta_is_copied() {
    let mut diff = Diff::new();

    copied(&mut diff, &change(DeltaStatus::Copied, Some("a"), Some("b"))).unwrap();

    assert_eq!(
        diff.copied,
        vec![CopyFile {
            old_path: Path::parse(b"a"),
            new_path: Path::parse(b"b")
        }]
    );
    assert!(diff.moved.is_empty());
}

#[test]
fn renamed_and_copied_need_both_paths() {
    let mut diff = started();

    assert!(matches!(
        renamed(&mut diff, &change(DeltaStatus::Renamed, None, Some("b"))),
        Err(DiffError::PathUnavailable)
    ));
    assert!(matches!(
        renamed(&mut diff, &change(DeltaStatus::Renamed, Some("a"), None)),
        Err(DiffError::PathUnavailable)
    ));
    assert!(matches!(
        copied(&mut diff, &change(DeltaStatus::Copied, None, Some("b"))),
        Err(DiffError::PathUnavailable)
    ));
    assert!(matches!(
        copied(&mut diff, &change(DeltaStatus::Copied, Some("a"), None)),
        Err(DiffError::PathUnavailable)
    ));
    assert_eq!(diff, started());
}

#[test]
fn deltas_are_taken_up_by_their_kind() {
    let mut diff = Diff::new();

    apply_delta(&mut diff, &change(DeltaStatus::Added, None, Some("c")), valid_patch()).unwrap();
    apply_delta(&mut diff, &change(DeltaStatus::Deleted, Some("d"), None), valid_patch()).unwrap();
    apply_delta(&mut diff, &change(DeltaStatus::Modified, Some("m"), Some("m")), valid_patch()).unwrap();
    apply_delta(&mut diff, &change(DeltaStatus::Renamed, Some("r1"), Some("r2")), None).unwrap();
    apply_delta(&mut diff, &change(DeltaStatus::Copied, Some("c1"), Some("c2")), invalid_patch()).unwrap();

    assert_eq!(
        diff,
        Diff {
            created: vec![CreateFile {
                path: Path::parse(b"c"),
                diff: valid_content()
            }],
            deleted: vec![DeleteFile {
                path: Path::parse(b"d"),
                diff: valid_content()
            }],
            moved: vec![MoveFile {
                old_path: Path::parse(b"r1"),
                new_path: Path::parse(b"r2")
            }],
            copied: vec![CopyFile {
                old_path: Path::parse(b"c1"),
                new_path: Path::parse(b"c2")
            }],
            modified: vec![ModifiedFile {
                path: Path::parse(b"m"),
                diff: valid_content(),
                eof: Some(EofNewLine::NewMissing)
            }],
        }
    );
}

#[test]
fn other_kinds_of_delta_are_not_handled() {
    let unhandled = [
        DeltaStatus::Unmodified,
        DeltaStatus::Ignored,
        DeltaStatus::Untracked,
        DeltaStatus::Typechange,
        DeltaStatus::Unreadable,
        DeltaStatus::Conflicted,
    ];
    for status in unhandled {
        let mut diff = started();

        let r = apply_delta(&mut diff, &change(status, Some("a"), Some("b")), valid_patch());

        match r {
            Err(DiffError::DeltaUnhandled(s)) => assert_eq!(s, status),
            other => panic!("unexpected: {:?}", other),
        }
        assert_eq!(diff, started());
    }
}

#[test]
fn only_three_kinds_of_delta_need_a_patch() {
    assert!(DeltaStatus::Added.needs_patch());
    assert!(DeltaStatus::Deleted.needs_patch());
    assert!(DeltaStatus::Modified.needs_patch());
    assert!(!DeltaStatus::Renamed.needs_patch());
    assert!(!DeltaStatus::Copied.needs_patch());
    assert!(!DeltaStatus::Unmodified.needs_patch());
    assert!(!DeltaStatus::Typechange.needs_patch());
}
