use mark_tui::emphasis::{DiffLine, DiffLineKind};
use mark_tui::source::{
    available_context_lines, build_full_file_line_map, build_hunk_source, diff_line_number,
    file_path_for_side, full_file_source, line_belongs_to_side, safe_repo_components,
    source_line_count, split_context_source_lines, syntax_path, unified_syntax_side,
    validate_highlight_source, DiffScope, DiffSource, FilePaths, FullFileSourceKind, SyntaxLimits,
};
use mark_tui::syntax_types::{DiffSide, SyntaxSkipReason};

fn line(kind: DiffLineKind, old_line: Option<usize>, new_line: Option<usize>, text: &str) -> DiffLine {
    DiffLine { kind, old_line, new_line, text: text.to_owned() }
}

fn limits() -> SyntaxLimits {
    SyntaxLimits { max_line_bytes: 10, max_source_bytes: 20 }
}

#[test]
fn sides_take_context_and_their_own_changes() {
    assert!(line_belongs_to_side(DiffLineKind::Context, DiffSide::Old));
    assert!(line_belongs_to_side(DiffLineKind::Deletion, DiffSide::Old));
    assert!(!line_belongs_to_side(DiffLineKind::Addition, DiffSide::Old));
    assert!(!line_belongs_to_side(DiffLineKind::Meta, DiffSide::New));
    assert_eq!(unified_syntax_side(DiffLineKind::Context), Some(DiffSide::New));
    assert_eq!(unified_syntax_side(DiffLineKind::Meta), None);
    let l = line(DiffLineKind::Context, Some(3), Some(4), "x");
    assert_eq!(diff_line_number(&l, DiffSide::Old), Some(3));
}

#[test]
fn hunk_source_joins_side_lines() {
    let lines = vec![
        line(DiffLineKind::Context, Some(1), Some(1), "a"),
        line(DiffLineKind::Deletion, Some(2), None, "b"),
        line(DiffLineKind::Addition, None, Some(2), "c"),
    ];
    let source = build_hunk_source(&lines, DiffSide::New, limits()).ok().unwrap();
    assert_eq!(source.text, "a\nc");
    assert_eq!(source.line_map, vec![Some(0), None, Some(1)]);
    assert_eq!(source.source_lines, 2);
}

#[test]
fn hunk_source_refuses_large_or_empty_sides() {
    let long = vec![line(DiffLineKind::Addition, None, Some(1), "0123456789a")];
    assert_eq!(build_hunk_source(&long, DiffSide::New, limits()).err(), Some(SyntaxSkipReason::TooLarge));
    let many = vec![
        line(DiffLineKind::Addition, None, Some(1), "0123456789"),
        line(DiffLineKind::Addition, None, Some(2), "0123456789"),
    ];
    assert_eq!(build_hunk_source(&many, DiffSide::New, limits()).err(), Some(SyntaxSkipReason::TooLarge));
    let none = vec![line(DiffLineKind::Deletion, Some(1), None, "x")];
    assert_eq!(build_hunk_source(&none, DiffSide::New, limits()).err(), Some(SyntaxSkipReason::NoSource));
}

#[test]
fn full_file_line_map_uses_line_numbers() {
    let lines = vec![
        line(DiffLineKind::Context, Some(7), Some(9), "a"),
        line(DiffLineKind::Deletion, Some(8), None, "b"),
    ];
    assert_eq!(build_full_file_line_map(&lines, DiffSide::Old).ok(), Some(vec![Some(6), Some(7)]));
    assert_eq!(build_full_file_line_map(&lines, DiffSide::New).ok(), Some(vec![Some(8), None]));
    let meta = vec![line(DiffLineKind::Meta, None, None, "\\")];
    assert_eq!(build_full_file_line_map(&meta, DiffSide::New).err(), Some(SyntaxSkipReason::NoSource));
}

#[test]
fn paths_fall_back_to_the_other_side() {
    let file = FilePaths { old_path: None, new_path: Some("new.rs".to_owned()) };
    assert_eq!(syntax_path(&file, DiffSide::Old), Some("new.rs"));
    assert_eq!(file_path_for_side(&file, DiffSide::Old), None);
}

#[test]
fn full_file_sources_follow_the_diff_source() {
    let file = FilePaths { old_path: Some("a.rs".to_owned()), new_path: Some("a.rs".to_owned()) };
    assert!(matches!(
        full_file_source(&DiffSource::Worktree, DiffScope::All, &file, DiffSide::Old, true),
        Some(FullFileSourceKind::GitRevision { ref rev, ref path }) if rev == "HEAD" && path == "a.rs"
    ));
    assert!(matches!(
        full_file_source(&DiffSource::Worktree, DiffScope::Staged, &file, DiffSide::New, true),
        Some(FullFileSourceKind::GitIndex { .. })
    ));
    assert!(matches!(
        full_file_source(&DiffSource::Branch { base: "main".to_owned(), head: "topic".to_owned() }, DiffScope::All, &file, DiffSide::Old, true),
        Some(FullFileSourceKind::GitMergeBase { ref base, ref head, .. }) if base == "main" && head == "topic"
    ));
    assert!(full_file_source(&DiffSource::Show("HEAD".to_owned()), DiffScope::All, &file, DiffSide::Old, true).is_none());
    assert!(full_file_source(&DiffSource::Worktree, DiffScope::All, &file, DiffSide::Old, false).is_none());
    assert!(full_file_source(&DiffSource::Base("main".to_owned()), DiffScope::Staged, &file, DiffSide::Old, true).is_none());
}

#[test]
fn highlight_source_limits_apply_to_lines() {
    assert!(validate_highlight_source("short\nlines\r\n", limits()).is_ok());
    assert_eq!(validate_highlight_source("0123456789ab\nx", limits()), Err(SyntaxSkipReason::TooLarge));
    assert_eq!(validate_highlight_source("0123456789\r\nx", limits()), Ok(()));
    assert_eq!(validate_highlight_source("0123456789012345678901", limits()), Err(SyntaxSkipReason::TooLarge));
}

#[test]
fn lines_are_counted_and_split_like_str_lines() {
    assert_eq!(source_line_count(""), 1);
    assert_eq!(source_line_count("a\nb\n"), 2);
    assert_eq!(source_line_count("a\nb\nc"), 3);
    assert_eq!(split_context_source_lines("a\r\nb\n\nc"), vec!["a", "b", "", "c"]);
    assert_eq!(split_context_source_lines("a\n"), vec!["a"]);
    assert!(split_context_source_lines("").is_empty());
}

#[test]
fn context_lines_left_in_the_file() {
    assert_eq!(available_context_lines(0, 5, 10), 0);
    assert_eq!(available_context_lines(8, 5, 10), 3);
    assert_eq!(available_context_lines(2, 5, 10), 5);
    assert_eq!(available_context_lines(20, 5, 10), 0);
}

#[test]
fn repo_paths_stay_inside_the_repository() {
    assert_eq!(safe_repo_components("src/./lib.rs"), Some(vec!["src".to_owned(), "lib.rs".to_owned()]));
    assert_eq!(safe_repo_components("a//b/"), Some(vec!["a".to_owned(), "b".to_owned()]));
    assert_eq!(safe_repo_components("/etc/passwd"), None);
    assert_eq!(safe_repo_components("a/../b"), None);
}


fn default_limits() -> SyntaxLimits {
    SyntaxLimits { max_line_bytes: 4096, max_source_bytes: 512 * 1024 }
}

#[test]
fn oversized_hunks_fall_back_to_plain_diff_text() {
    let limits = default_limits();
    let text = "x".repeat(limits.max_line_bytes);
    let line_count = (limits.max_source_bytes / limits.max_line_bytes) + 2;
    let lines = (0..line_count)
        .map(|index| DiffLine { kind: DiffLineKind::Context, old_line: Some(index + 1), new_line: Some(index + 1), text: text.clone() })
        .collect::<Vec<_>>();

    assert_eq!(build_hunk_source(&lines, DiffSide::New, limits).err(), Some(SyntaxSkipReason::TooLarge));
}

#[test]
fn oversized_lines_disable_hunk_highlighting() {
    let limits = default_limits();
    let lines = vec![
        DiffLine { kind: DiffLineKind::Context, old_line: Some(1), new_line: Some(1), text: "x".repeat(limits.max_line_bytes + 1) },
        DiffLine { kind: DiffLineKind::Context, old_line: Some(2), new_line: Some(2), text: "let value = 1;".to_owned() },
    ];

    assert_eq!(build_hunk_source(&lines, DiffSide::New, limits).err(), Some(SyntaxSkipReason::TooLarge));
}

#[test]
fn hunk_source_excludes_diff_meta_lines_and_preserves_empty_lines() {
    let lines = vec![
        DiffLine { kind: DiffLineKind::Context, old_line: Some(1), new_line: Some(1), text: "let a = 1;".to_owned() },
        DiffLine { kind: DiffLineKind::Meta, old_line: None, new_line: None, text: "\\ No newline at end of file".to_owned() },
        DiffLine { kind: DiffLineKind::Addition, old_line: None, new_line: Some(2), text: String::new() },
    ];

    let source = build_hunk_source(&lines, DiffSide::New, default_limits()).unwrap();

    assert_eq!(source.text, "let a = 1;\n");
    assert_eq!(source.line_map, vec![Some(0), None, Some(1)]);
    assert_eq!(source.source_lines, 2);
}

#[test]
fn hunk_source_keeps_single_line_without_trailing_newline_marker() {
    let lines = vec![DiffLine { kind: DiffLineKind::Addition, old_line: None, new_line: Some(1), text: "let value = 1;".to_owned() }];

    let source = build_hunk_source(&lines, DiffSide::New, default_limits()).unwrap();

    assert_eq!(source.text, "let value = 1;");
    assert_eq!(source.line_map, vec![Some(0)]);
    assert_eq!(source.source_lines, 1);
}

#[test]
fn hunk_source_preserves_leading_empty_lines() {
    let lines = vec![
        DiffLine { kind: DiffLineKind::Addition, old_line: None, new_line: Some(1), text: String::new() },
        DiffLine { kind: DiffLineKind::Addition, old_line: None, new_line: Some(2), text: "let value = 1;".to_owned() },
    ];

    let source = build_hunk_source(&lines, DiffSide::New, default_limits()).unwrap();

    assert_eq!(source.text, "\nlet value = 1;");
    assert_eq!(source.line_map, vec![Some(0), Some(1)]);
    assert_eq!(source.source_lines, 2);
}

#[test]
fn full_file_line_map_uses_absolute_line_numbers() {
    let lines = vec![
        DiffLine { kind: DiffLineKind::Deletion, old_line: Some(10), new_line: None, text: "old".to_owned() },
        DiffLine { kind: DiffLineKind::Addition, old_line: None, new_line: Some(11), text: "new".to_owned() },
        DiffLine { kind: DiffLineKind::Context, old_line: Some(12), new_line: Some(12), text: "same".to_owned() },
    ];

    assert_eq!(build_full_file_line_map(&lines, DiffSide::Old).unwrap(), vec![Some(9), None, Some(11)]);
    assert_eq!(build_full_file_line_map(&lines, DiffSide::New).unwrap(), vec![None, Some(10), Some(11)]);
}
