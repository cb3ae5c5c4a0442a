//! The measurements a benchmark run of the viewer reports, and its settings.
use vstd::prelude::*;

verus! {

/// The viewport a benchmark renders and how far it scrolls.
#[derive(Debug, Clone, Copy, PartialEq, Eq, Structural)]
pub struct DiffBenchmarkOptions {
    pub width: usize,
    pub viewport_rows: usize,
    pub scroll_step: usize,
    pub max_scroll_steps: usize,
}

impl Default for DiffBenchmarkOptions {
    /// A 160 by 40 viewport scrolled by 20 rows, at most 200 times.
    fn default() -> (r: Self)
        ensures
            r == (DiffBenchmarkOptions { width: 160, viewport_rows: 40, scroll_step: 20, max_scroll_steps: 200 }),
    {
        DiffBenchmarkOptions { width: 160, viewport_rows: 40, scroll_step: 20, max_scroll_steps: 200 }
    }
}

/// Counters of the syntax highlighting runtime.
#[derive(Debug, Clone, Copy, PartialEq, Eq, Structural)]
pub struct SyntaxBenchmarkReport {
    pub queue_requests: u64,
    pub jobs_queued: u64,
    pub jobs_completed: u64,
    pub jobs_failed: u64,
    pub jobs_skipped: u64,
    pub jobs_rejected: u64,
    pub jobs_evicted: u64,
    pub stale_results: u64,
    pub cache_hits: u64,
    pub cache_misses: u64,
    pub cache_entries_peak: usize,
    pub queue_depth_peak: usize,
    pub source_bytes_queued: u64,
    pub source_lines_queued: u64,
    pub estimated_memory_peak_bytes: u64,
}

/// The report with every counter at zero.
pub open spec fn zero_report() -> SyntaxBenchmarkReport {
    SyntaxBenchmarkReport {
        queue_requests: 0,
        jobs_queued: 0,
        jobs_completed: 0,
        jobs_failed: 0,
        jobs_skipped: 0,
        jobs_rejected: 0,
        jobs_evicted: 0,
        stale_results: 0,
        cache_hits: 0,
        cache_misses: 0,
        cache_entries_peak: 0,
        queue_depth_peak: 0,
        source_bytes_queued: 0,
        source_lines_queued: 0,
        estimated_memory_peak_bytes: 0,
    }
}

impl Default for SyntaxBenchmarkReport {
    /// Every counter at zero.
    fn default() -> (r: Self)
        ensures
            r == zero_report(),
    {
        SyntaxBenchmarkReport {
            queue_requests: 0,
            jobs_queued: 0,
            jobs_completed: 0,
            jobs_failed: 0,
            jobs_skipped: 0,
            jobs_rejected: 0,
            jobs_evicted: 0,
            stale_results: 0,
            cache_hits: 0,
            cache_misses: 0,
            cache_entries_peak: 0,
            queue_depth_peak: 0,
            source_bytes_queued: 0,
            source_lines_queued: 0,
            estimated_memory_peak_bytes: 0,
        }
    }
}

/// What a benchmark run measured, with times in microseconds.
#[derive(Debug, Clone, Copy, PartialEq, Eq, Structural)]
pub struct DiffBenchmarkReport {
    pub syntax_enabled: bool,
    pub row_count: usize,
    pub file_count: usize,
    pub hunk_count: usize,
    pub open_micros: u128,
    pub file_filter_micros: u128,
    pub legacy_file_filter_micros: u128,
    pub grep_filter_micros: u128,
    pub legacy_grep_filter_micros: u128,
    pub file_filter_apply_micros: u128,
    pub grep_filter_apply_micros: u128,
    pub hunk_navigation_steps: usize,
    pub hunk_navigation_total_micros: u128,
    pub hunk_navigation_max_micros: u128,
    pub initial_render_micros: u128,
    pub cold_scroll_steps: usize,
    pub cold_scroll_total_micros: u128,
    pub cold_scroll_max_micros: u128,
    pub syntax_settle_micros: Option<u128>,
    pub warm_scroll_steps: usize,
    pub warm_scroll_total_micros: u128,
    pub warm_scroll_max_micros: u128,
    pub warm_cache_hits: u64,
    pub warm_cache_misses: u64,
    pub syntax: SyntaxBenchmarkReport,
}

/// `a + b`, or `u64::MAX` when the sum does not fit.
pub open spec fn sat_add(a: u64, b: u64) -> u64 {
    if a + b > u64::MAX { u64::MAX } else { (a + b) as u64 }
}

/// One more than `a`, staying at `u64::MAX`.
pub open spec fn sat_inc(a: u64) -> u64 {
    sat_add(a, 1)
}

} // verus!
