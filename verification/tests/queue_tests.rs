use mark_tui::source::{HunkSource, SyntaxJobSource, SyntaxLimits};
use mark_tui::syntax_queue::{SyntaxJob, SyntaxPriority, SyntaxQueueError, SyntaxWorkerQueueState};
use mark_tui::syntax_types::{syntax_key, syntax_key_with_generation, SyntaxKey};

fn job(key: SyntaxKey) -> SyntaxJob {
    SyntaxJob {
        key,
        language: "rust".to_owned(),
        source: SyntaxJobSource::Hunk(HunkSource { text: "fn main() {}".to_owned(), line_map: vec![Some(0)], source_lines: 1 }),
        limits: SyntaxLimits { max_line_bytes: 100, max_source_bytes: 100 },
    }
}

#[test]
fn visible_jobs_run_before_prefetch_jobs() {
    let mut queue = SyntaxWorkerQueueState::new(8, 0);
    queue.try_push(job(syntax_key(1)), SyntaxPriority::Prefetch).unwrap();
    queue.try_push(job(syntax_key(2)), SyntaxPriority::Visible).unwrap();
    assert_eq!(queue.take_next().map(|j| j.key), Some(syntax_key(2)));
    assert_eq!(queue.take_next().map(|j| j.key), Some(syntax_key(1)));
    assert!(queue.take_next().is_none());
}

#[test]
fn full_queue_drops_newest_prefetch_for_visible_job() {
    let mut queue = SyntaxWorkerQueueState::new(2, 0);
    queue.try_push(job(syntax_key(1)), SyntaxPriority::Prefetch).unwrap();
    queue.try_push(job(syntax_key(2)), SyntaxPriority::Prefetch).unwrap();
    assert_eq!(queue.try_push(job(syntax_key(3)), SyntaxPriority::Prefetch).err(), Some(SyntaxQueueError::Full));
    let push = queue.try_push(job(syntax_key(4)), SyntaxPriority::Visible).unwrap();
    assert_eq!(push.dropped, Some(syntax_key(2)));
    assert_eq!(push.depth, 2);
}

#[test]
fn stale_and_closed_queues_refuse_jobs() {
    let mut queue = SyntaxWorkerQueueState::new(2, 3);
    assert_eq!(queue.try_push(job(syntax_key_with_generation(2, 0)), SyntaxPriority::Visible).err(), Some(SyntaxQueueError::Stale));
    queue.close();
    assert_eq!(queue.try_push(job(syntax_key_with_generation(3, 0)), SyntaxPriority::Visible).err(), Some(SyntaxQueueError::Closed));
    assert!(queue.take_next().is_none());
}

#[test]
fn promotion_and_new_generation() {
    let mut queue = SyntaxWorkerQueueState::new(4, 0);
    queue.try_push(job(syntax_key(1)), SyntaxPriority::Prefetch).unwrap();
    queue.try_push(job(syntax_key(2)), SyntaxPriority::Prefetch).unwrap();
    assert!(queue.promote(syntax_key(2)));
    assert!(!queue.promote(syntax_key(9)));
    assert_eq!(queue.take_next().map(|j| j.key), Some(syntax_key(2)));
    queue.set_generation(1);
    assert_eq!(queue.len(), 0);
}

#[test]
fn highlight_queue_runs_visible_jobs_before_prefetch_jobs() {
    let mut queue = SyntaxWorkerQueueState::new(8, 0);
    let prefetch = syntax_key(1);
    let visible = syntax_key(2);

    queue.try_push(job(prefetch), SyntaxPriority::Prefetch).unwrap();
    queue.try_push(job(visible), SyntaxPriority::Visible).unwrap();

    assert_eq!(queue.take_next().map(|job| job.key), Some(visible));
    assert_eq!(queue.take_next().map(|job| job.key), Some(prefetch));
}

#[test]
fn visible_highlight_job_can_evict_prefetch_when_queue_is_full() {
    let mut queue = SyntaxWorkerQueueState::new(1, 0);
    let prefetch = syntax_key(1);
    let visible = syntax_key(2);

    queue.try_push(job(prefetch), SyntaxPriority::Prefetch).unwrap();
    let pushed = queue.try_push(job(visible), SyntaxPriority::Visible).unwrap();

    assert_eq!(pushed.dropped, Some(prefetch));
    assert_eq!(queue.len(), 1);
    assert_eq!(queue.take_next().map(|job| job.key), Some(visible));
}

#[test]
fn stale_highlight_jobs_are_dropped_on_generation_change() {
    let mut queue = SyntaxWorkerQueueState::new(8, 0);

    queue.try_push(job(syntax_key(1)), SyntaxPriority::Prefetch).unwrap();
    queue.set_generation(1);

    assert_eq!(queue.len(), 0);
    assert_eq!(queue.try_push(job(syntax_key(2)), SyntaxPriority::Visible).err(), Some(SyntaxQueueError::Stale));

    let fresh = syntax_key_with_generation(1, 0);
    queue.try_push(job(fresh), SyntaxPriority::Visible).unwrap();
    assert_eq!(queue.take_next().map(|job| job.key), Some(fresh));
}
