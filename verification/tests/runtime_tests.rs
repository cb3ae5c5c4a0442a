use std::path::PathBuf;

use mark_tui::emphasis::{DiffLine, DiffLineKind};
use mark_tui::source::{DiffScope, DiffSource, PatchSource, FilePaths, FullFileSource, FullFileSourceKind, SyntaxJobSource, SyntaxLimits};
use mark_tui::syntax_queue::{SyntaxPriority, SyntaxWorkerQueueState};
use mark_tui::syntax_runtime::{HighlightedSide, SyntaxJobFailure, SyntaxResult, SyntaxRuntime, SyntaxSuccess};
use mark_tui::syntax_types::{DiffSide, SyntaxKey, SyntaxPosition, SyntaxSkipReason, SyntaxSourceId, SyntaxSourceKind, SYNTAX_THEME_ID};

fn limits() -> SyntaxLimits {
    SyntaxLimits { max_line_bytes: 100, max_source_bytes: 1000 }
}

fn runtime() -> SyntaxRuntime<String> {
    SyntaxRuntime::new(limits(), 8)
}

fn full_file_syntax_job_source() -> SyntaxJobSource {
    SyntaxJobSource::FullFile(FullFileSource {
        repo: PathBuf::from("/repo"),
        kind: FullFileSourceKind::Worktree { path: "file.rs".to_owned() },
    })
}

fn rust_file() -> FilePaths {
    FilePaths { old_path: Some("src/lib.rs".to_owned()), new_path: Some("src/lib.rs".to_owned()) }
}

fn hunk() -> Vec<DiffLine> {
    vec![
        DiffLine { kind: DiffLineKind::Context, old_line: Some(1), new_line: Some(1), text: "fn a() {}".to_owned() },
        DiffLine { kind: DiffLineKind::Deletion, old_line: Some(2), new_line: None, text: "fn b() {}".to_owned() },
        DiffLine { kind: DiffLineKind::Addition, old_line: None, new_line: Some(2), text: "fn c() {}".to_owned() },
    ]
}

fn position(hunk: usize) -> SyntaxPosition {
    SyntaxPosition { generation: 0, file: 0, hunk, side: DiffSide::New }
}

fn queue_patch_hunk(syntax: &mut SyntaxRuntime<String>, queue: &mut SyntaxWorkerQueueState, at: SyntaxPosition, priority: SyntaxPriority) {
    let paths = rust_file();
    let lines = hunk();
    syntax.queue_hunk(
        queue,
        at,
        priority,
        Some(&paths),
        Some(&lines),
        Some("rust".to_owned()),
        &DiffSource::Patch(PatchSource::Stdin),
        DiffScope::All,
        &PathBuf::from("/repo"),
        false,
    );
}

#[test]
fn closed_queue_marks_full_file_source_skipped() {
    let mut queue = SyntaxWorkerQueueState::new(8, 0);
    queue.close();
    let mut syntax = runtime();
    let source_id = SyntaxSourceId { generation: 0, file: 0, side: DiffSide::New, kind: SyntaxSourceKind::FullFile };
    let key = SyntaxKey { source: source_id, language_hash: 1, theme_id: SYNTAX_THEME_ID };

    assert!(!syntax.queue_job(
        &mut queue,
        key,
        "rust".to_owned(),
        full_file_syntax_job_source(),
        SyntaxPriority::Visible,
        None,
    ));

    assert!(syntax.skipped_sources.contains_key(&source_id));
    assert_eq!(syntax.stats.jobs_skipped, 1);
    assert_eq!(syntax.stats.jobs_rejected, 0);
}

#[test]
fn patch_hunks_queue_their_own_text() {
    let mut queue = SyntaxWorkerQueueState::new(8, 0);
    let mut syntax = runtime();
    queue_patch_hunk(&mut syntax, &mut queue, position(0), SyntaxPriority::Prefetch);

    assert_eq!(queue.len(), 1);
    assert_eq!(syntax.stats.queue_requests, 1);
    assert_eq!(syntax.stats.jobs_queued, 1);
    assert_eq!(syntax.stats.source_lines_queued, 2);
    assert_eq!(syntax.stats.source_bytes_queued, "fn a() {}\nfn c() {}".len() as u64);
    let key = *syntax.position_keys.get(&position(0)).unwrap();
    assert_eq!(key.source.kind, SyntaxSourceKind::HunkSide { hunk: 0 });
    assert!(syntax.pending.contains_key(&key));
    assert_eq!(syntax.line_maps.get(&position(0)).unwrap(), &vec![Some(0), None, Some(1)]);

    let job = queue.take_next().unwrap();
    assert_eq!(job.key, key);
    match job.source {
        SyntaxJobSource::Hunk(source) => assert_eq!(source.text, "fn a() {}\nfn c() {}"),
        SyntaxJobSource::FullFile(_) => panic!("a patch has no whole file"),
    }
}

#[test]
fn pending_hunks_are_promoted_not_queued_twice() {
    let mut queue = SyntaxWorkerQueueState::new(8, 0);
    let mut syntax = runtime();
    queue_patch_hunk(&mut syntax, &mut queue, position(0), SyntaxPriority::Prefetch);
    queue_patch_hunk(&mut syntax, &mut queue, position(0), SyntaxPriority::Visible);

    assert_eq!(queue.len(), 1);
    assert_eq!(queue.visible.len(), 1);
    assert_eq!(queue.prefetch.len(), 0);
    assert_eq!(syntax.stats.queue_requests, 2);
    assert_eq!(syntax.stats.jobs_queued, 1);
}

#[test]
fn hunks_without_language_or_file_are_skipped() {
    let mut queue = SyntaxWorkerQueueState::new(8, 0);
    let mut syntax = runtime();
    let paths = rust_file();
    let lines = hunk();
    let repo = PathBuf::from("/repo");
    syntax.queue_hunk(&mut queue, position(0), SyntaxPriority::Visible, Some(&paths), Some(&lines), None,
        &DiffSource::Patch(PatchSource::Stdin), DiffScope::All, &repo, false);
    syntax.queue_hunk(&mut queue, position(1), SyntaxPriority::Visible, None, Some(&lines), Some("rust".to_owned()),
        &DiffSource::Patch(PatchSource::Stdin), DiffScope::All, &repo, false);
    let pathless = FilePaths { old_path: None, new_path: None };
    syntax.queue_hunk(&mut queue, position(2), SyntaxPriority::Visible, Some(&pathless), Some(&lines), Some("rust".to_owned()),
        &DiffSource::Patch(PatchSource::Stdin), DiffScope::All, &repo, false);

    assert_eq!(syntax.skipped.get(&position(0)), Some(&SyntaxSkipReason::NoLanguage));
    assert_eq!(syntax.skipped.get(&position(1)), Some(&SyntaxSkipReason::InvalidPosition));
    assert_eq!(syntax.skipped.get(&position(2)), Some(&SyntaxSkipReason::NoPath));
    assert_eq!(syntax.stats.jobs_skipped, 3);
    assert_eq!(queue.len(), 0);
}

#[test]
fn worktree_hunks_map_onto_the_whole_file() {
    let mut queue = SyntaxWorkerQueueState::new(8, 0);
    let mut syntax = runtime();
    let paths = rust_file();
    let lines = hunk();
    syntax.queue_hunk(&mut queue, position(0), SyntaxPriority::Visible, Some(&paths), Some(&lines), Some("rust".to_owned()),
        &DiffSource::Worktree, DiffScope::All, &PathBuf::from("/repo"), true);

    let key = *syntax.position_keys.get(&position(0)).unwrap();
    assert_eq!(key.source.kind, SyntaxSourceKind::FullFile);
    assert_eq!(syntax.line_maps.get(&position(0)).unwrap(), &vec![Some(0), None, Some(1)]);
    match queue.take_next().unwrap().source {
        SyntaxJobSource::FullFile(source) => {
            assert_eq!(source.repo, PathBuf::from("/repo"));
            match source.kind {
                FullFileSourceKind::Worktree { path } => assert_eq!(path, "src/lib.rs"),
                _ => panic!("the new side of a worktree diff is read from the worktree"),
            }
        },
        SyntaxJobSource::Hunk(_) => panic!("expected the whole file"),
    }
}

#[test]
fn highlighted_results_are_cached_and_counted() {
    let mut queue = SyntaxWorkerQueueState::new(8, 0);
    let mut syntax = runtime();
    queue_patch_hunk(&mut syntax, &mut queue, position(0), SyntaxPriority::Visible);
    let key = *syntax.position_keys.get(&position(0)).unwrap();

    let changed = syntax.handle_result(0, SyntaxResult {
        key,
        side: Ok(SyntaxSuccess {
            side: HighlightedSide { lines: vec!["a".to_owned(), "c".to_owned()] },
            source_bytes: None,
            source_lines: None,
        }),
    });
    assert!(changed);
    assert!(!syntax.pending.contains_key(&key));
    assert_eq!(syntax.stats.jobs_completed, 1);
    assert_eq!(syntax.stats.cache_entries_peak, 1);
    assert!(syntax.is_idle(&queue) == (queue.len() == 0));

    assert_eq!(syntax.line(position(0), 2), Some(&"c".to_owned()));
    assert_eq!(syntax.line(position(0), 1), None);
    assert_eq!(syntax.line(position(5), 0), None);
    assert_eq!(syntax.stats.cache_hits, 1);
    assert_eq!(syntax.stats.cache_misses, 2);

    queue_patch_hunk(&mut syntax, &mut queue, position(0), SyntaxPriority::Visible);
    assert_eq!(syntax.stats.jobs_queued, 1);
}

#[test]
fn stale_results_are_only_counted() {
    let mut queue = SyntaxWorkerQueueState::new(8, 0);
    let mut syntax = runtime();
    queue_patch_hunk(&mut syntax, &mut queue, position(0), SyntaxPriority::Visible);
    let key = *syntax.position_keys.get(&position(0)).unwrap();

    let changed = syntax.handle_result(1, SyntaxResult { key, side: Err(SyntaxJobFailure::HighlightError) });
    assert!(!changed);
    assert_eq!(syntax.stats.stale_results, 1);
    assert!(!syntax.pending.contains_key(&key));
    assert!(!syntax.failed.contains_key(&key));
}

#[test]
fn failed_jobs_skip_their_positions() {
    let mut queue = SyntaxWorkerQueueState::new(8, 0);
    let mut syntax = runtime();
    queue_patch_hunk(&mut syntax, &mut queue, position(0), SyntaxPriority::Visible);
    let key = *syntax.position_keys.get(&position(0)).unwrap();

    assert!(!syntax.handle_result(0, SyntaxResult { key, side: Err(SyntaxJobFailure::HighlightError) }));
    assert!(syntax.failed.contains_key(&key));
    assert_eq!(syntax.skipped.get(&position(0)), Some(&SyntaxSkipReason::HighlightError));
    assert_eq!(syntax.stats.jobs_failed, 1);
}

#[test]
fn unavailable_hunk_sources_skip_their_positions() {
    let mut queue = SyntaxWorkerQueueState::new(8, 0);
    let mut syntax = runtime();
    queue_patch_hunk(&mut syntax, &mut queue, position(0), SyntaxPriority::Visible);
    let key = *syntax.position_keys.get(&position(0)).unwrap();

    assert!(syntax.handle_result(0, SyntaxResult { key, side: Err(SyntaxJobFailure::Unavailable) }));
    assert_eq!(syntax.skipped.get(&position(0)), Some(&SyntaxSkipReason::NoSource));
    assert!(!syntax.position_keys.contains_key(&position(0)));
    assert!(!syntax.line_maps.contains_key(&position(0)));
    assert!(!syntax.source_keys.contains_key(&key.source));
    assert_eq!(syntax.stats.jobs_skipped, 1);
}

#[test]
fn unavailable_whole_files_fall_back_to_hunk_text() {
    let mut queue = SyntaxWorkerQueueState::new(8, 0);
    let mut syntax = runtime();
    let paths = rust_file();
    let lines = hunk();
    let repo = PathBuf::from("/repo");
    syntax.queue_hunk(&mut queue, position(0), SyntaxPriority::Visible, Some(&paths), Some(&lines), Some("rust".to_owned()),
        &DiffSource::Worktree, DiffScope::All, &repo, true);
    let key = *syntax.position_keys.get(&position(0)).unwrap();
    assert!(syntax.handle_result(0, SyntaxResult { key, side: Err(SyntaxJobFailure::Unavailable) }));
    assert!(syntax.unavailable_full_files.contains_key(&key));
    assert!(!syntax.skipped.contains_key(&position(0)));

    syntax.queue_hunk(&mut queue, position(0), SyntaxPriority::Visible, Some(&paths), Some(&lines), Some("rust".to_owned()),
        &DiffSource::Worktree, DiffScope::All, &repo, true);
    let fallback = *syntax.position_keys.get(&position(0)).unwrap();
    assert_eq!(fallback.source.kind, SyntaxSourceKind::HunkSide { hunk: 0 });
}

#[test]
fn full_file_lines_count_from_one() {
    let mut syntax = runtime();
    assert_eq!(syntax.full_file_line(0, 0, DiffSide::New, 0), None);
    assert_eq!(syntax.stats.cache_misses, 0);
    assert_eq!(syntax.full_file_line(0, 0, DiffSide::New, 1), None);
    assert_eq!(syntax.stats.cache_misses, 1);
}

#[test]
fn clearing_starts_a_new_generation() {
    let mut queue = SyntaxWorkerQueueState::new(8, 0);
    let mut syntax = runtime();
    queue_patch_hunk(&mut syntax, &mut queue, position(0), SyntaxPriority::Visible);
    syntax.clear(&mut queue, 1);
    assert_eq!(queue.len(), 0);
    assert_eq!(queue.generation, 1);
    assert!(syntax.is_idle(&queue));
    assert!(!syntax.position_keys.contains_key(&position(0)));
    assert_eq!(syntax.stats.jobs_queued, 1);
}

#[test]
fn language_names_key_their_jobs() {
    let mut queue = SyntaxWorkerQueueState::new(8, 0);
    let mut syntax = runtime();
    let paths = rust_file();
    let lines = hunk();
    let repo = PathBuf::from("/repo");
    for (at, language) in [(0, "rust"), (1, "python"), (2, "rust")] {
        syntax.queue_hunk(&mut queue, position(at), SyntaxPriority::Prefetch, Some(&paths), Some(&lines),
            Some(language.to_owned()), &DiffSource::Patch(PatchSource::Stdin), DiffScope::All, &repo, false);
    }
    let rust = syntax.position_keys.get(&position(0)).unwrap().language_hash;
    let python = syntax.position_keys.get(&position(1)).unwrap().language_hash;
    let rust_again = syntax.position_keys.get(&position(2)).unwrap().language_hash;
    assert_eq!(rust, rust_again);
    assert_ne!(rust, python);
}

fn side_bytes(side: &HighlightedSide<String>) -> usize {
    side.lines.iter().map(|line| line.len()).sum()
}

#[test]
fn drain_takes_waiting_answers_and_records_the_memory_peak() {
    let mut queue = SyntaxWorkerQueueState::new(8, 0);
    let mut syntax = runtime();
    queue_patch_hunk(&mut syntax, &mut queue, position(0), SyntaxPriority::Visible);
    queue_patch_hunk(&mut syntax, &mut queue, position(1), SyntaxPriority::Visible);
    let first = *syntax.position_keys.get(&position(0)).unwrap();
    let second = *syntax.position_keys.get(&position(1)).unwrap();

    let (tx, mut rx) = tokio::sync::mpsc::channel(4);
    tx.try_send(SyntaxResult {
        key: first,
        side: Ok(SyntaxSuccess {
            side: HighlightedSide { lines: vec!["abc".to_owned(), "de".to_owned()] },
            source_bytes: Some(7),
            source_lines: Some(2),
        }),
    })
    .unwrap();
    tx.try_send(SyntaxResult { key: second, side: Err(SyntaxJobFailure::HighlightError) }).unwrap();
    let queued_bytes = syntax.stats.source_bytes_queued;

    assert!(syntax.drain(&mut rx, 0, 8, &side_bytes));
    assert_eq!(syntax.stats.jobs_completed, 1);
    assert_eq!(syntax.stats.jobs_failed, 1);
    assert_eq!(syntax.stats.estimated_memory_peak_bytes, 5);
    assert_eq!(syntax.stats.source_bytes_queued, queued_bytes + 7);
    assert!(syntax.pending.len() == 0);
    assert!(!syntax.drain(&mut rx, 0, 8, &side_bytes));
}

#[test]
fn drain_stops_after_the_given_number_of_answers() {
    let mut queue = SyntaxWorkerQueueState::new(8, 0);
    let mut syntax = runtime();
    queue_patch_hunk(&mut syntax, &mut queue, position(0), SyntaxPriority::Visible);
    queue_patch_hunk(&mut syntax, &mut queue, position(1), SyntaxPriority::Visible);
    let first = *syntax.position_keys.get(&position(0)).unwrap();
    let second = *syntax.position_keys.get(&position(1)).unwrap();

    let (tx, mut rx) = tokio::sync::mpsc::channel(4);
    tx.try_send(SyntaxResult { key: first, side: Err(SyntaxJobFailure::HighlightError) }).unwrap();
    tx.try_send(SyntaxResult {
        key: second,
        side: Ok(SyntaxSuccess { side: HighlightedSide { lines: vec!["x".to_owned()] }, source_bytes: None, source_lines: None }),
    })
    .unwrap();

    assert!(!syntax.drain(&mut rx, 0, 1, &side_bytes));
    assert_eq!(syntax.stats.jobs_failed, 1);
    assert_eq!(syntax.stats.jobs_completed, 0);
    assert!(syntax.drain(&mut rx, 0, 1, &side_bytes));
    assert_eq!(syntax.stats.jobs_completed, 1);
    assert_eq!(syntax.stats.estimated_memory_peak_bytes, 1);
}

#[test]
fn drained_answers_of_another_generation_are_only_counted() {
    let mut queue = SyntaxWorkerQueueState::new(8, 0);
    let mut syntax = runtime();
    queue_patch_hunk(&mut syntax, &mut queue, position(0), SyntaxPriority::Visible);
    let key = *syntax.position_keys.get(&position(0)).unwrap();

    let (tx, mut rx) = tokio::sync::mpsc::channel(4);
    tx.try_send(SyntaxResult {
        key,
        side: Ok(SyntaxSuccess { side: HighlightedSide { lines: vec!["x".to_owned()] }, source_bytes: None, source_lines: None }),
    })
    .unwrap();
    drop(tx);

    assert!(!syntax.drain(&mut rx, 3, 8, &side_bytes));
    assert_eq!(syntax.stats.stale_results, 1);
    assert_eq!(syntax.stats.estimated_memory_peak_bytes, 0);
    assert_eq!(syntax.estimated_memory_bytes(&side_bytes), 0);
}
