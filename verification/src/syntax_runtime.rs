//! The interface side of syntax highlighting: which hunk sides and files
//! have a job, which are cached, pending, skipped or failed, and the
//! counters of what happened. The worker thread belongs to the program
//! around this state; the answers it sends back are taken in by
//! `syntax_drain`.
use vstd::prelude::*;
use crate::benchmark::{sat_add, sat_inc, zero_report, SyntaxBenchmarkReport};
use crate::keyed::KeyedMap;
use crate::lru::{get_step, insert_step, LruCache};
use crate::source::{
    build_full_file_line_map, build_hunk_source, copy_path, file_line_of, full_file_source, hunk_source_error, join_lines,
    side_line_of, side_texts, HunkSource, full_file_spec, hash_text, kind_view, side_path_view, source_known_bytes,
    source_known_lines, syntax_path, syntax_path_view, text_hash, DiffScope, DiffSource, FilePaths, FullFileSource,
    SyntaxJobSource, SyntaxLimits,
};
use crate::emphasis::DiffLine;
use crate::syntax_queue::{push_result, push_step, promote_step, SyntaxJob, SyntaxPriority, SyntaxQueueError, SyntaxQueuePush, SyntaxWorkerQueueState};
use crate::syntax_types::{DiffSide, SyntaxKey, SyntaxPosition, SyntaxSkipReason, SyntaxSourceId, SyntaxSourceKind, SYNTAX_THEME_ID};

verus! {

/// The highlighted lines of one source text.
pub struct HighlightedSide<L> {
    pub lines: Vec<L>,
}

/// What the interface knows of highlighting: the cache of highlighted
/// sources, the jobs in flight, the source and line map of each hunk side,
/// what was skipped and why, and the counters.
pub struct SyntaxRuntime<L> {
    pub limits: SyntaxLimits,
    pub cache: LruCache<SyntaxKey, HighlightedSide<L>>,
    pub pending: KeyedMap<SyntaxKey, ()>,
    pub source_keys: KeyedMap<SyntaxSourceId, SyntaxKey>,
    pub position_keys: KeyedMap<SyntaxPosition, SyntaxKey>,
    pub line_maps: KeyedMap<SyntaxPosition, Vec<Option<usize>>>,
    pub skipped: KeyedMap<SyntaxPosition, SyntaxSkipReason>,
    pub skipped_sources: KeyedMap<SyntaxSourceId, ()>,
    pub unavailable_full_files: KeyedMap<SyntaxKey, ()>,
    pub failed: KeyedMap<SyntaxKey, ()>,
    pub stats: SyntaxBenchmarkReport,
}

/// The counters after one more skipped job.
pub open spec fn skipped_stats(s: SyntaxBenchmarkReport) -> SyntaxBenchmarkReport {
    SyntaxBenchmarkReport { jobs_skipped: sat_inc(s.jobs_skipped), ..s }
}

/// The counters after one more rejected job.
pub open spec fn rejected_stats(s: SyntaxBenchmarkReport) -> SyntaxBenchmarkReport {
    SyntaxBenchmarkReport { jobs_rejected: sat_inc(s.jobs_rejected), ..s }
}

/// The counters after one more request.
pub open spec fn requested_stats(s: SyntaxBenchmarkReport) -> SyntaxBenchmarkReport {
    SyntaxBenchmarkReport { queue_requests: sat_inc(s.queue_requests), ..s }
}

/// `a` when present, added to `total` without passing `u64::MAX`.
pub open spec fn add_known(total: u64, a: Option<u64>) -> u64 {
    match a {
        Some(b) => sat_add(total, b),
        None => total,
    }
}

/// The counters after a job was queued as `push` says, with a text of
/// `bytes` bytes and `lines` lines where those are known.
pub open spec fn queued_stats(s: SyntaxBenchmarkReport, push: SyntaxQueuePush, bytes: Option<u64>, lines: Option<u64>) -> SyntaxBenchmarkReport {
    SyntaxBenchmarkReport {
        jobs_evicted: if push.dropped is Some { sat_inc(s.jobs_evicted) } else { s.jobs_evicted },
        jobs_queued: sat_inc(s.jobs_queued),
        queue_depth_peak: if s.queue_depth_peak < push.depth { push.depth } else { s.queue_depth_peak },
        source_bytes_queued: add_known(s.source_bytes_queued, bytes),
        source_lines_queued: add_known(s.source_lines_queued, lines),
        ..s
    }
}

/// Skipping `position` for `reason` took the state from `o` to `f`: the
/// reason is recorded, and a position not skipped before counts once.
pub open spec fn skip_step<L>(o: SyntaxRuntime<L>, f: SyntaxRuntime<L>, position: SyntaxPosition, reason: SyntaxSkipReason) -> bool {
    &&& f.skipped@ == o.skipped@.insert(position, reason)
    &&& f == SyntaxRuntime {
        skipped: f.skipped,
        stats: if o.skipped@.dom().contains(position) { o.stats } else { skipped_stats(o.stats) },
        ..o
    }
}

/// Skipping source `id` took the state from `o` to `f`: the source is
/// recorded, and a source not skipped before counts once.
pub open spec fn skip_source_step<L>(o: SyntaxRuntime<L>, f: SyntaxRuntime<L>, id: SyntaxSourceId) -> bool {
    &&& f.skipped_sources@ == o.skipped_sources@.insert(id, ())
    &&& f == SyntaxRuntime {
        skipped_sources: f.skipped_sources,
        stats: if o.skipped_sources@.dom().contains(id) { o.stats } else { skipped_stats(o.stats) },
        ..o
    }
}

/// The pending keys after a push that may have dropped a prefetch job.
pub open spec fn pending_after_push(pending: Map<SyntaxKey, ()>, push: SyntaxQueuePush, key: SyntaxKey) -> Map<SyntaxKey, ()> {
    match push.dropped {
        Some(d) => pending.remove(d).insert(key, ()),
        None => pending.insert(key, ()),
    }
}

/// Queueing the job for `key` took the state from `o` to `f` and the queue
/// from `oq` to `fq`, answering `r`. A cached key needs nothing; a pending
/// one is promoted when it is wanted on screen; otherwise the job is pushed:
/// a queued job is pending and counted, a closed queue skips the position
/// (or the source), and a full queue or a stale job counts as rejected.
pub open spec fn queue_job_step<L>(
    o: SyntaxRuntime<L>,
    f: SyntaxRuntime<L>,
    oq: SyntaxWorkerQueueState,
    fq: SyntaxWorkerQueueState,
    key: SyntaxKey,
    language: String,
    source: SyntaxJobSource,
    priority: SyntaxPriority,
    position: Option<SyntaxPosition>,
    r: bool,
) -> bool {
    if o.cache.has(key) {
        r && f == o && fq == oq
    } else if o.pending@.dom().contains(key) {
        &&& r
        &&& f == o
        &&& priority == SyntaxPriority::Visible ==> exists|moved: bool| promote_step(oq, fq, key, moved)
        &&& priority == SyntaxPriority::Prefetch ==> fq == oq
    } else {
        let job = SyntaxJob { key, language, source, limits: o.limits };
        let res = push_result(oq, key, priority);
        &&& push_step(oq, fq, job, priority, res)
        &&& match res {
            Ok(push) => {
                &&& r
                &&& f.pending@ == pending_after_push(o.pending@, push, key)
                &&& f == SyntaxRuntime {
                    pending: f.pending,
                    stats: queued_stats(o.stats, push, source_known_bytes(source), source_known_lines(source)),
                    ..o
                }
            },
            Err(SyntaxQueueError::Closed) => {
                &&& !r
                &&& match position {
                    Some(p) => skip_step(o, f, p, SyntaxSkipReason::QueueClosed),
                    None => skip_source_step(o, f, key.source),
                }
            },
            Err(_) => !r && f == SyntaxRuntime { stats: rejected_stats(o.stats), ..o },
        }
    }
}

/// Why a job gave no highlighted text.
#[derive(Debug, Clone, Copy, PartialEq, Eq, Structural)]
pub enum SyntaxJobFailure {
    Unavailable,
    HighlightError,
}

/// A finished job's highlighted text, with the size of a text that was only
/// read by the worker.
pub struct SyntaxSuccess<L> {
    pub side: HighlightedSide<L>,
    pub source_bytes: Option<u64>,
    pub source_lines: Option<u64>,
}

/// What the worker answered for the job with `key`.
pub struct SyntaxResult<L> {
    pub key: SyntaxKey,
    pub side: Result<SyntaxSuccess<L>, SyntaxJobFailure>,
}

/// The positions whose key is `key`.
pub open spec fn positions_of(position_keys: Map<SyntaxPosition, SyntaxKey>, key: SyntaxKey) -> Set<SyntaxPosition> {
    Set::new(|p: SyntaxPosition| position_keys.dom().contains(p) && position_keys[p] == key)
}

/// `skipped` with every position of `positions` skipped for `reason`.
pub open spec fn skip_all(skipped: Map<SyntaxPosition, SyntaxSkipReason>, positions: Set<SyntaxPosition>, reason: SyntaxSkipReason) -> Map<SyntaxPosition, SyntaxSkipReason> {
    skipped.union_prefer_right(Map::new(|p: SyntaxPosition| positions.contains(p), |p: SyntaxPosition| reason))
}

/// Dropping the unavailable source of `key` took the state from `o` to `f`:
/// the source loses its key, an unavailable whole file is remembered (the
/// hunk sides that used it then fall back to their own text), while the
/// positions of an unavailable hunk side are skipped for want of a source;
/// either way those positions lose their key and line map.
pub open spec fn unavailable_step<L>(o: SyntaxRuntime<L>, f: SyntaxRuntime<L>, key: SyntaxKey) -> bool {
    let ps = positions_of(o.position_keys@, key);
    &&& f.source_keys@ == o.source_keys@.remove(key.source)
    &&& f.position_keys@ == o.position_keys@.remove_keys(ps)
    &&& f.line_maps@ == o.line_maps@.remove_keys(ps)
    &&& if key.source.kind is FullFile {
        f.unavailable_full_files@ == o.unavailable_full_files@.insert(key, ()) && f.skipped@ == o.skipped@
    } else {
        f.unavailable_full_files@ == o.unavailable_full_files@ && f.skipped@ == skip_all(o.skipped@, ps, SyntaxSkipReason::NoSource)
    }
    &&& f == SyntaxRuntime {
        source_keys: f.source_keys,
        position_keys: f.position_keys,
        line_maps: f.line_maps,
        unavailable_full_files: f.unavailable_full_files,
        skipped: f.skipped,
        ..o
    }
}

/// The counters after a job of another generation answered.
pub open spec fn stale_stats(s: SyntaxBenchmarkReport) -> SyntaxBenchmarkReport {
    SyntaxBenchmarkReport { stale_results: sat_inc(s.stale_results), ..s }
}

/// The counters after a job failed.
pub open spec fn failed_stats(s: SyntaxBenchmarkReport) -> SyntaxBenchmarkReport {
    SyntaxBenchmarkReport { jobs_failed: sat_inc(s.jobs_failed), ..s }
}

/// The counters after a job completed with a text of the given size, with
/// `entries` sources cached afterwards.
pub open spec fn completed_stats(s: SyntaxBenchmarkReport, bytes: Option<u64>, lines: Option<u64>, entries: nat) -> SyntaxBenchmarkReport {
    SyntaxBenchmarkReport {
        jobs_completed: sat_inc(s.jobs_completed),
        source_bytes_queued: add_known(s.source_bytes_queued, bytes),
        source_lines_queued: add_known(s.source_lines_queued, lines),
        cache_entries_peak: if s.cache_entries_peak < entries { entries as usize } else { s.cache_entries_peak },
        ..s
    }
}

/// Handling the answer for `key` took the state from `o` to `f`, and `r`
/// says whether what is shown may change. The key is no longer pending. An
/// answer from another generation is only counted; a highlighted text is
/// cached; an unavailable source is dropped (see `unavailable_step`); a
/// failed job marks the key failed and skips its positions.
pub open spec fn result_step<L>(o: SyntaxRuntime<L>, f: SyntaxRuntime<L>, generation: u64, key: SyntaxKey, side: Result<SyntaxSuccess<L>, SyntaxJobFailure>, r: bool) -> bool {
    let o1 = SyntaxRuntime { pending: f.pending, ..o };
    &&& f.pending@ == o.pending@.remove(key)
    &&& if key.source.generation != generation {
        !r && f == SyntaxRuntime { stats: stale_stats(o.stats), ..o1 }
    } else {
        match side {
            Ok(success) => {
                &&& r
                &&& insert_step(o.cache, f.cache, key, success.side)
                &&& f == SyntaxRuntime {
                    cache: f.cache,
                    stats: completed_stats(o.stats, success.source_bytes, success.source_lines, f.cache.entries().len()),
                    ..o1
                }
            },
            Err(SyntaxJobFailure::Unavailable) => {
                &&& r
                &&& unavailable_step(o1, SyntaxRuntime { stats: o.stats, ..f }, key)
                &&& f.stats == skipped_stats(o.stats)
            },
            Err(SyntaxJobFailure::HighlightError) => {
                &&& !r
                &&& f.failed@ == o.failed@.insert(key, ())
                &&& f.skipped@ == skip_all(o.skipped@, positions_of(o.position_keys@, key), SyntaxSkipReason::HighlightError)
                &&& f == SyntaxRuntime { failed: f.failed, skipped: f.skipped, stats: failed_stats(o.stats), ..o1 }
            },
        }
    }
}

/// Skips every position of `positions` for `reason`.
fn skip_positions(skipped: &mut KeyedMap<SyntaxPosition, SyntaxSkipReason>, positions: &Vec<SyntaxPosition>, reason: SyntaxSkipReason)
    requires
        old(skipped).wf(),
    ensures
        final(skipped).wf(),
        final(skipped)@ == skip_all(old(skipped)@, positions@.to_set(), reason),
{
    let mut i: usize = 0;
    while i < positions.len()
        invariant
            skipped.wf(),
            i <= positions@.len(),
            skipped@ == skip_all(old(skipped)@, positions@.subrange(0, i as int).to_set(), reason),
        decreases positions@.len() - i,
    {
        let ghost before = skipped@;
        skipped.insert(positions[i], reason);
        proof {
            let s0 = positions@.subrange(0, i as int);
            let s1 = positions@.subrange(0, i + 1);
            assert(s1 == s0.push(positions@[i as int]));
            assert(s1.to_set() =~= s0.to_set().insert(positions@[i as int])) by {
                assert forall|p: SyntaxPosition| s1.to_set().contains(p) <==> s0.to_set().contains(p) || p == positions@[i as int] by {
                    if s1.contains(p) {
                        let j = choose|j: int| 0 <= j < s1.len() && s1[j] == p;
                        if j < s0.len() {
                            assert(s0[j] == p);
                        }
                    }
                    if s0.contains(p) {
                        let j = choose|j: int| 0 <= j < s0.len() && s0[j] == p;
                        assert(s1[j] == p);
                    }
                    if p == positions@[i as int] {
                        assert(s1[i as int] == p);
                    }
                }
            }
            assert(skipped@ =~= skip_all(old(skipped)@, s1.to_set(), reason));
        }
        i += 1;
    }
    assert(positions@.subrange(0, positions@.len() as int) == positions@);
}

/// Removes every position of `positions`.
fn remove_positions<V>(map: &mut KeyedMap<SyntaxPosition, V>, positions: &Vec<SyntaxPosition>)
    requires
        old(map).wf(),
    ensures
        final(map).wf(),
        final(map)@ == old(map)@.remove_keys(positions@.to_set()),
{
    let mut i: usize = 0;
    while i < positions.len()
        invariant
            map.wf(),
            i <= positions@.len(),
            map@ == old(map)@.remove_keys(positions@.subrange(0, i as int).to_set()),
        decreases positions@.len() - i,
    {
        map.remove(&positions[i]);
        proof {
            let s0 = positions@.subrange(0, i as int);
            let s1 = positions@.subrange(0, i + 1);
            assert(s1 == s0.push(positions@[i as int]));
            assert(s1.to_set() =~= s0.to_set().insert(positions@[i as int])) by {
                assert forall|p: SyntaxPosition| s1.to_set().contains(p) <==> s0.to_set().contains(p) || p == positions@[i as int] by {
                    if s1.contains(p) {
                        let j = choose|j: int| 0 <= j < s1.len() && s1[j] == p;
                        if j < s0.len() {
                            assert(s0[j] == p);
                        }
                    }
                    if s0.contains(p) {
                        let j = choose|j: int| 0 <= j < s0.len() && s0[j] == p;
                        assert(s1[j] == p);
                    }
                    if p == positions@[i as int] {
                        assert(s1[i as int] == p);
                    }
                }
            }
            assert(map@ =~= old(map)@.remove_keys(s1.to_set()));
        }
        i += 1;
    }
    assert(positions@.subrange(0, positions@.len() as int) == positions@);
}

/// The counters after a lookup found a highlighted line.
pub open spec fn hit_stats(s: SyntaxBenchmarkReport) -> SyntaxBenchmarkReport {
    SyntaxBenchmarkReport { cache_hits: sat_inc(s.cache_hits), ..s }
}

/// The counters after a lookup found no highlighted line.
pub open spec fn miss_stats(s: SyntaxBenchmarkReport) -> SyntaxBenchmarkReport {
    SyntaxBenchmarkReport { cache_misses: sat_inc(s.cache_misses), ..s }
}

/// The key and source line that line `line` of the hunk side at
/// `position` is shown from, when both are known.
pub open spec fn line_target<L>(o: SyntaxRuntime<L>, position: SyntaxPosition, line: usize) -> Option<(SyntaxKey, usize)> {
    if o.position_keys@.dom().contains(position) && o.line_maps@.dom().contains(position)
        && line < o.line_maps@[position]@.len() {
        match o.line_maps@[position]@[line as int] {
            Some(source_line) => Some((o.position_keys@[position], source_line)),
            None => None,
        }
    } else {
        None
    }
}

/// Whether source line `source_line` of the text cached under `key` is there.
pub open spec fn cached_line<L>(o: SyntaxRuntime<L>, key: SyntaxKey, source_line: usize) -> bool {
    o.cache.has(key) && source_line < o.cache.view_map()[key].lines@.len()
}

/// Looking up `target` took the state from `o` to `f` and answered `r`: the
/// cached line when there is one, counted as a hit, and else nothing,
/// counted as a miss. A known key is looked up in the cache, which marks it
/// used.
pub open spec fn lookup_step<L>(o: SyntaxRuntime<L>, f: SyntaxRuntime<L>, target: Option<(SyntaxKey, usize)>, r: Option<&L>) -> bool {
    match target {
        None => r is None && f == SyntaxRuntime { stats: miss_stats(o.stats), ..o },
        Some((key, source_line)) => {
            &&& get_step(o.cache, f.cache, key)
            &&& cached_line(o, key, source_line) ==> r == Some(&o.cache.view_map()[key].lines@[source_line as int])
                && f == SyntaxRuntime { cache: f.cache, stats: hit_stats(o.stats), ..o }
            &&& !cached_line(o, key, source_line) ==> r is None
                && f == SyntaxRuntime { cache: f.cache, stats: miss_stats(o.stats), ..o }
        },
    }
}

/// The key of the whole file of `side` of file `file` in `generation`.
pub open spec fn full_file_target<L>(o: SyntaxRuntime<L>, generation: u64, file: usize, side: DiffSide, line_number: usize) -> Option<(SyntaxKey, usize)> {
    let id = SyntaxSourceId { generation, file, side, kind: SyntaxSourceKind::FullFile };
    if o.source_keys@.dom().contains(id) {
        Some((o.source_keys@[id], (line_number - 1) as usize))
    } else {
        None
    }
}

/// The state with one more request counted.
pub open spec fn requested<L>(o: SyntaxRuntime<L>) -> SyntaxRuntime<L> {
    SyntaxRuntime { stats: requested_stats(o.stats), ..o }
}

/// The key a source gets for a language.
pub open spec fn key_for(source: SyntaxSourceId, language: Seq<char>) -> SyntaxKey {
    SyntaxKey { source, language_hash: text_hash(language), theme_id: SYNTAX_THEME_ID }
}

/// A request found its key already cached, or pending (then promoted when
/// it is wanted on screen): the request is counted and nothing else moves.
pub open spec fn known_key_step<L>(o: SyntaxRuntime<L>, f: SyntaxRuntime<L>, oq: SyntaxWorkerQueueState, fq: SyntaxWorkerQueueState, key: SyntaxKey, priority: SyntaxPriority) -> bool {
    &&& f == requested(o)
    &&& if o.cache.has(key) {
        fq == oq
    } else {
        &&& priority == SyntaxPriority::Visible ==> exists|moved: bool| promote_step(oq, fq, key, moved)
        &&& priority == SyntaxPriority::Prefetch ==> fq == oq
    }
}

/// Whether `key` is cached or pending.
pub open spec fn key_in_flight<L>(o: SyntaxRuntime<L>, key: SyntaxKey) -> bool {
    o.cache.has(key) || o.pending@.dom().contains(key)
}

/// Queueing the whole file of `side` of file `file` took the state from `o`
/// to `f` and the queue from `oq` to `fq`: a source with a cached or pending
/// key needs nothing more, a skipped one is left alone, a missing file,
/// path, language or full-file source skips it; otherwise the source gets
/// its key, and a key whose file is unavailable or failed skips it, while
/// any other is queued as a full-file job read from `repo`.
pub open spec fn full_file_step<L>(
    o: SyntaxRuntime<L>,
    f: SyntaxRuntime<L>,
    oq: SyntaxWorkerQueueState,
    fq: SyntaxWorkerQueueState,
    generation: u64,
    file: usize,
    side: DiffSide,
    priority: SyntaxPriority,
    paths: Option<&FilePaths>,
    language: Option<String>,
    diff_source: DiffSource,
    scope: DiffScope,
    repo: std::path::PathBuf,
    repo_is_dir: bool,
) -> bool {
    let id = SyntaxSourceId { generation, file, side, kind: SyntaxSourceKind::FullFile };
    let o0 = requested(o);
    if o.source_keys@.dom().contains(id) && key_in_flight(o, o.source_keys@[id]) {
        known_key_step(o, f, oq, fq, o.source_keys@[id], priority)
    } else if o.skipped_sources@.dom().contains(id) {
        f == o0 && fq == oq
    } else {
        match (paths, language) {
            (Some(p), Some(lang)) => if syntax_path_view(*p, side) is None
                || full_file_spec(diff_source, scope, side_path_view(*p, side), side, repo_is_dir) is None {
                skip_source_step(o0, f, id) && fq == oq
            } else {
                let key = key_for(id, lang@);
                let m = SyntaxRuntime { source_keys: f.source_keys, ..o0 };
                &&& f.source_keys@ == o.source_keys@.insert(id, key)
                &&& if o.unavailable_full_files@.dom().contains(key) || o.failed@.dom().contains(key) {
                    skip_source_step(m, f, id) && fq == oq
                } else {
                    exists|src: FullFileSource, r: bool|
                        #![trigger queue_job_step(m, f, oq, fq, key, lang, SyntaxJobSource::FullFile(src), priority, None, r)]
                        src.repo == repo
                        && full_file_spec(diff_source, scope, side_path_view(*p, side), side, repo_is_dir) == Some(kind_view(src.kind))
                        && queue_job_step(m, f, oq, fq, key, lang, SyntaxJobSource::FullFile(src), priority, None, r)
                }
            },
            (Some(p), None) => skip_source_step(o0, f, id) && fq == oq,
            (None, _) => skip_source_step(o0, f, id) && fq == oq,
        }
    }
}

/// The lines of an optional hunk.
pub open spec fn opt_lines(lines: Option<&[DiffLine]>) -> Option<Seq<DiffLine>> {
    match lines {
        Some(l) => Some(l@),
        None => None,
    }
}

/// Each hunk line's line in the side's whole file.
pub open spec fn file_line_map(lines: Seq<DiffLine>, side: DiffSide) -> Seq<Option<usize>> {
    Seq::new(lines.len(), |k: int| file_line_of(lines, side, k))
}

/// Each hunk line's line in the text of the hunk's side.
pub open spec fn hunk_line_map(lines: Seq<DiffLine>, side: DiffSide) -> Seq<Option<usize>> {
    Seq::new(lines.len(), |k: int| side_line_of(lines, side, k))
}

/// The state after `position` got its source `id`, its key and its line
/// map: `m` is `o` with the three maps of `f`, which hold those entries.
pub open spec fn mapped_step<L>(o: SyntaxRuntime<L>, m: SyntaxRuntime<L>, f: SyntaxRuntime<L>, position: SyntaxPosition, id: SyntaxSourceId, key: SyntaxKey, line_map: Seq<Option<usize>>) -> bool {
    &&& m == SyntaxRuntime { source_keys: f.source_keys, position_keys: f.position_keys, line_maps: f.line_maps, ..o }
    &&& f.source_keys@ == o.source_keys@.insert(id, key)
    &&& f.position_keys@ == o.position_keys@.insert(position, key)
    &&& f.line_maps@.dom() == o.line_maps@.dom().insert(position)
    &&& f.line_maps@.remove(position) == o.line_maps@.remove(position)
    &&& f.line_maps@[position]@ == line_map
}

/// Queueing the hunk side at `position` took the state from `o` to `f` and
/// the queue from `oq` to `fq`. A position with a cached or pending key
/// needs nothing more, a skipped one is left alone, and a missing file,
/// path, language or hunk skips it. When the side's whole file can be read
/// and is not known to be unavailable, the position maps onto the whole
/// file: a failed file skips it, as does a hunk without a numbered line on
/// that side, and otherwise the file's job is queued. Else the hunk side's
/// own text is used: a text too large or empty skips the position; otherwise
/// it gets its key and line map, and is skipped when that key failed before
/// or else queued.
pub open spec fn hunk_step<L>(
    o: SyntaxRuntime<L>,
    f: SyntaxRuntime<L>,
    oq: SyntaxWorkerQueueState,
    fq: SyntaxWorkerQueueState,
    position: SyntaxPosition,
    priority: SyntaxPriority,
    paths: Option<&FilePaths>,
    hunk_lines: Option<Seq<DiffLine>>,
    language: Option<String>,
    diff_source: DiffSource,
    scope: DiffScope,
    repo: std::path::PathBuf,
    repo_is_dir: bool,
) -> bool {
    let o0 = requested(o);
    if o.position_keys@.dom().contains(position) && key_in_flight(o, o.position_keys@[position]) {
        known_key_step(o, f, oq, fq, o.position_keys@[position], priority)
    } else if o.skipped@.dom().contains(position) {
        f == o0 && fq == oq
    } else {
        match paths {
            None => skip_step(o0, f, position, SyntaxSkipReason::InvalidPosition) && fq == oq,
            Some(p) => if syntax_path_view(*p, position.side) is None {
                skip_step(o0, f, position, SyntaxSkipReason::NoPath) && fq == oq
            } else {
                match language {
                    None => skip_step(o0, f, position, SyntaxSkipReason::NoLanguage) && fq == oq,
                    Some(lang) => match hunk_lines {
                        None => skip_step(o0, f, position, SyntaxSkipReason::InvalidPosition) && fq == oq,
                        Some(lines) => {
                            let side = position.side;
                            let full = full_file_spec(diff_source, scope, side_path_view(*p, side), side, repo_is_dir);
                            let fid = SyntaxSourceId { generation: position.generation, file: position.file, side, kind: SyntaxSourceKind::FullFile };
                            let fkey = key_for(fid, lang@);
                            let hid = SyntaxSourceId { generation: position.generation, file: position.file, side, kind: SyntaxSourceKind::HunkSide { hunk: position.hunk } };
                            let hkey = key_for(hid, lang@);
                            let m = SyntaxRuntime { source_keys: f.source_keys, position_keys: f.position_keys, line_maps: f.line_maps, ..o0 };
                            if full is Some && !o.unavailable_full_files@.dom().contains(fkey) {
                                if o.failed@.dom().contains(fkey) {
                                    skip_step(o0, f, position, SyntaxSkipReason::HighlightError) && fq == oq
                                } else if forall|k: int| 0 <= k < lines.len() ==> (#[trigger] file_line_of(lines, side, k)) is None {
                                    skip_step(o0, f, position, SyntaxSkipReason::NoSource) && fq == oq
                                } else {
                                    &&& mapped_step(o0, m, f, position, fid, fkey, file_line_map(lines, side))
                                    &&& exists|src: FullFileSource, r: bool|
                                        #![trigger queue_job_step(m, f, oq, fq, fkey, lang, SyntaxJobSource::FullFile(src), priority, Some(position), r)]
                                        src.repo == repo && full == Some(kind_view(src.kind))
                                        && queue_job_step(m, f, oq, fq, fkey, lang, SyntaxJobSource::FullFile(src), priority, Some(position), r)
                                }
                            } else {
                                let texts = side_texts(lines, side, lines.len() as int);
                                match hunk_source_error(lines, side, o.limits, lines.len() as int) {
                                    Some(e) => skip_step(o0, f, position, e) && fq == oq,
                                    None => if texts.len() == 0 {
                                        skip_step(o0, f, position, SyntaxSkipReason::NoSource) && fq == oq
                                    } else {
                                        &&& mapped_step(o0, m, f, position, hid, hkey, hunk_line_map(lines, side))
                                        &&& if o.failed@.dom().contains(hkey) {
                                            skip_step(m, f, position, SyntaxSkipReason::HighlightError) && fq == oq
                                        } else {
                                            exists|src: HunkSource, r: bool|
                                                #![trigger queue_job_step(m, f, oq, fq, hkey, lang, SyntaxJobSource::Hunk(src), priority, Some(position), r)]
                                                src.text@ == join_lines(texts) && src.source_lines == texts.len()
                                                && src.line_map@ == hunk_line_map(lines, side)
                                                && queue_job_step(m, f, oq, fq, hkey, lang, SyntaxJobSource::Hunk(src), priority, Some(position), r)
                                        }
                                    },
                                }
                            }
                        },
                    },
                }
            },
        }
    }
}

impl<L> SyntaxRuntime<L> {
    /// Every map keeps its keys distinct and the cache within its capacity.
    pub open spec fn wf(&self) -> bool {
        &&& self.cache.wf()
        &&& self.pending.wf()
        &&& self.source_keys.wf()
        &&& self.position_keys.wf()
        &&& self.line_maps.wf()
        &&& self.skipped.wf()
        &&& self.skipped_sources.wf()
        &&& self.unavailable_full_files.wf()
        &&& self.failed.wf()
    }

    /// A state with nothing cached, pending or skipped, whose cache holds at
    /// most `cache_entries` sources.
    pub fn new(limits: SyntaxLimits, cache_entries: usize) -> (r: Self)
        ensures
            r.wf(),
            r.limits == limits,
            r.cache.capacity() == cache_entries,
            r.cache.view_map() == Map::<SyntaxKey, HighlightedSide<L>>::empty(),
            r.pending@ == Map::<SyntaxKey, ()>::empty(),
            r.source_keys@ == Map::<SyntaxSourceId, SyntaxKey>::empty(),
            r.position_keys@ == Map::<SyntaxPosition, SyntaxKey>::empty(),
            r.line_maps@ == Map::<SyntaxPosition, Vec<Option<usize>>>::empty(),
            r.skipped@ == Map::<SyntaxPosition, SyntaxSkipReason>::empty(),
            r.skipped_sources@ == Map::<SyntaxSourceId, ()>::empty(),
            r.unavailable_full_files@ == Map::<SyntaxKey, ()>::empty(),
            r.failed@ == Map::<SyntaxKey, ()>::empty(),
            r.stats == zero_report(),
    {
        SyntaxRuntime {
            limits,
            cache: LruCache::new(cache_entries),
            pending: KeyedMap::new(),
            source_keys: KeyedMap::new(),
            position_keys: KeyedMap::new(),
            line_maps: KeyedMap::new(),
            skipped: KeyedMap::new(),
            skipped_sources: KeyedMap::new(),
            unavailable_full_files: KeyedMap::new(),
            failed: KeyedMap::new(),
            stats: SyntaxBenchmarkReport::default(),
        }
    }

    /// Forgets every source, job and skip, and starts generation
    /// `generation` in the queue. The counters stay.
    pub fn clear(&mut self, queue: &mut SyntaxWorkerQueueState, generation: u64)
        requires
            old(self).wf(),
            old(queue).wf(),
        ensures
            final(self).wf(),
            final(queue).wf(),
            final(self).limits == old(self).limits,
            final(self).stats == old(self).stats,
            final(self).cache.capacity() == old(self).cache.capacity(),
            final(self).cache.view_map() == Map::<SyntaxKey, HighlightedSide<L>>::empty(),
            final(self).pending@ == Map::<SyntaxKey, ()>::empty(),
            final(self).source_keys@ == Map::<SyntaxSourceId, SyntaxKey>::empty(),
            final(self).position_keys@ == Map::<SyntaxPosition, SyntaxKey>::empty(),
            final(self).line_maps@ == Map::<SyntaxPosition, Vec<Option<usize>>>::empty(),
            final(self).skipped@ == Map::<SyntaxPosition, SyntaxSkipReason>::empty(),
            final(self).skipped_sources@ == Map::<SyntaxSourceId, ()>::empty(),
            final(self).unavailable_full_files@ == Map::<SyntaxKey, ()>::empty(),
            final(self).failed@ == Map::<SyntaxKey, ()>::empty(),
            final(queue).generation == generation,
            final(queue).closed == old(queue).closed,
            final(queue).capacity == old(queue).capacity,
            final(queue).visible@ == crate::syntax_queue::current(old(queue).visible@, generation),
            final(queue).prefetch@ == crate::syntax_queue::current(old(queue).prefetch@, generation),
    {
        self.cache.clear();
        self.pending.clear();
        self.source_keys.clear();
        self.position_keys.clear();
        self.line_maps.clear();
        self.skipped.clear();
        self.skipped_sources.clear();
        self.unavailable_full_files.clear();
        self.failed.clear();
        queue.set_generation(generation);
    }

    /// The counters so far.
    pub fn stats(&self) -> (r: SyntaxBenchmarkReport)
        ensures
            r == self.stats,
    {
        self.stats
    }

    /// Whether no job is pending and the queue is empty.
    pub fn is_idle(&self, queue: &SyntaxWorkerQueueState) -> (r: bool)
        requires
            self.wf(),
            queue.wf(),
        ensures
            r == (self.pending@.len() == 0 && queue.visible@.len() + queue.prefetch@.len() == 0),
    {
        self.pending.len() == 0 && queue.len() == 0
    }

    /// Records that `position` is not highlighted, for `reason`.
    pub fn skip(&mut self, position: SyntaxPosition, reason: SyntaxSkipReason)
        requires
            old(self).wf(),
        ensures
            final(self).wf(),
            skip_step(*old(self), *final(self), position, reason),
    {
        if self.skipped.insert(position, reason) {
            self.stats.jobs_skipped = self.stats.jobs_skipped.saturating_add(1);
        }
    }

    /// Records that source `source_id` is not highlighted.
    pub fn skip_source(&mut self, source_id: SyntaxSourceId)
        requires
            old(self).wf(),
        ensures
            final(self).wf(),
            skip_source_step(*old(self), *final(self), source_id),
    {
        if self.skipped_sources.insert(source_id, ()) {
            self.stats.jobs_skipped = self.stats.jobs_skipped.saturating_add(1);
        }
    }

    /// Makes sure a job for `key` is cached, pending or queued; reports
    /// whether it is (see `queue_job_step`).
    pub fn queue_job(
        &mut self,
        queue: &mut SyntaxWorkerQueueState,
        key: SyntaxKey,
        language: String,
        source: SyntaxJobSource,
        priority: SyntaxPriority,
        position: Option<SyntaxPosition>,
    ) -> (r: bool)
        requires
            old(self).wf(),
            old(queue).wf(),
        ensures
            final(self).wf(),
            final(queue).wf(),
            queue_job_step(*old(self), *final(self), *old(queue), *final(queue), key, language, source, priority, position, r),
    {
        if self.cache.contains_key(&key) {
            return true;
        }
        if self.pending.contains_key(&key) {
            if priority == SyntaxPriority::Visible {
                queue.promote(key);
            }
            return true;
        }
        let source_bytes = source.known_bytes();
        let source_lines = source.known_lines();
        let ghost job_source = source;
        let ghost job_language = language;
        let job = SyntaxJob { key, language, source, limits: self.limits };
        match queue.try_push(job, priority) {
            Ok(push) => {
                if let Some(dropped) = push.dropped {
                    self.pending.remove(&dropped);
                    self.stats.jobs_evicted = self.stats.jobs_evicted.saturating_add(1);
                }
                self.stats.jobs_queued = self.stats.jobs_queued.saturating_add(1);
                if self.stats.queue_depth_peak < push.depth {
                    self.stats.queue_depth_peak = push.depth;
                }
                if let Some(bytes) = source_bytes {
                    self.stats.source_bytes_queued = self.stats.source_bytes_queued.saturating_add(bytes);
                }
                if let Some(lines) = source_lines {
                    self.stats.source_lines_queued = self.stats.source_lines_queued.saturating_add(lines);
                }
                self.pending.insert(key, ());
                true
            },
            Err(SyntaxQueueError::Closed) => {
                match position {
                    Some(p) => self.skip(p, SyntaxSkipReason::QueueClosed),
                    None => self.skip_source(key.source),
                }
                false
            },
            Err(_) => {
                self.stats.jobs_rejected = self.stats.jobs_rejected.saturating_add(1);
                false
            },
        }
    }

    /// Makes sure the whole file of one side is highlighted or on its way
    /// (see `full_file_step`). `paths` is the file's entry in the changeset
    /// (none when there is no such file), `language` the language its
    /// syntax path names, and `repo_is_dir` whether the repository is a
    /// directory.
    pub fn queue_full_file(
        &mut self,
        queue: &mut SyntaxWorkerQueueState,
        generation: u64,
        file: usize,
        side: DiffSide,
        priority: SyntaxPriority,
        paths: Option<&FilePaths>,
        language: Option<String>,
        diff_source: &DiffSource,
        scope: DiffScope,
        repo: &std::path::PathBuf,
        repo_is_dir: bool,
    )
        requires
            old(self).wf(),
            old(queue).wf(),
        ensures
            final(self).wf(),
            final(queue).wf(),
            full_file_step(*old(self), *final(self), *old(queue), *final(queue), generation, file, side, priority, paths,
                language, *diff_source, scope, *repo, repo_is_dir),
    {
        self.stats.queue_requests = self.stats.queue_requests.saturating_add(1);
        let source_id = SyntaxSourceId { generation, file, side, kind: SyntaxSourceKind::FullFile };
        let known = match self.source_keys.get(&source_id) {
            Some(k) => Some(*k),
            None => None,
        };
        if let Some(key) = known {
            if self.cache.contains_key(&key) {
                return;
            }
            if self.pending.contains_key(&key) {
                if priority == SyntaxPriority::Visible {
                    let moved = queue.promote(key);
                    assert(promote_step(*old(queue), *queue, key, moved));
                }
                return;
            }
        }
        if self.skipped_sources.contains_key(&source_id) {
            return;
        }
        let p = match paths {
            Some(p) => p,
            None => {
                self.skip_source(source_id);
                return;
            },
        };
        if syntax_path(p, side).is_none() {
            self.skip_source(source_id);
            return;
        }
        let lang = match language {
            Some(l) => l,
            None => {
                self.skip_source(source_id);
                return;
            },
        };
        let kind = match full_file_source(diff_source, scope, p, side, repo_is_dir) {
            Some(k) => k,
            None => {
                self.skip_source(source_id);
                return;
            },
        };
        let key = SyntaxKey { source: source_id, language_hash: hash_text(lang.as_str()), theme_id: SYNTAX_THEME_ID };
        self.source_keys.insert(source_id, key);
        if self.unavailable_full_files.contains_key(&key) || self.failed.contains_key(&key) {
            self.skip_source(source_id);
            return;
        }
        let src = FullFileSource { repo: copy_path(repo), kind };
        let ghost m = *self;
        let ghost oq = *queue;
        let ghost g_src = src;
        let ghost g_lang = lang;
        let r = self.queue_job(queue, key, lang, SyntaxJobSource::FullFile(src), priority, None);
        assert(queue_job_step(m, *self, oq, *queue, key, g_lang, SyntaxJobSource::FullFile(g_src), priority, None, r));
    }

    /// Makes sure the hunk side at `position` is highlighted or on its way
    /// (see `hunk_step`). `paths` and `hunk_lines` are the file's entry and
    /// the hunk's lines in the changeset (none when missing), `language`
    /// the language the file's syntax path names, and `repo_is_dir` whether
    /// the repository is a directory.
    #[verifier::rlimit(40)]
    pub fn queue_hunk(
        &mut self,
        queue: &mut SyntaxWorkerQueueState,
        position: SyntaxPosition,
        priority: SyntaxPriority,
        paths: Option<&FilePaths>,
        hunk_lines: Option<&[DiffLine]>,
        language: Option<String>,
        diff_source: &DiffSource,
        scope: DiffScope,
        repo: &std::path::PathBuf,
        repo_is_dir: bool,
    )
        requires
            old(self).wf(),
            old(queue).wf(),
        ensures
            final(self).wf(),
            final(queue).wf(),
            hunk_step(*old(self), *final(self), *old(queue), *final(queue), position, priority, paths,
                opt_lines(hunk_lines), language, *diff_source, scope, *repo, repo_is_dir),
    {
        self.stats.queue_requests = self.stats.queue_requests.saturating_add(1);
        let known = match self.position_keys.get(&position) {
            Some(k) => Some(*k),
            None => None,
        };
        if let Some(key) = known {
            if self.cache.contains_key(&key) {
                return;
            }
            if self.pending.contains_key(&key) {
                if priority == SyntaxPriority::Visible {
                    let moved = queue.promote(key);
                    assert(promote_step(*old(queue), *queue, key, moved));
                }
                return;
            }
        }
        if self.skipped.contains_key(&position) {
            return;
        }
        let side = position.side;
        let p = match paths {
            Some(p) => p,
            None => {
                self.skip(position, SyntaxSkipReason::InvalidPosition);
                return;
            },
        };
        if syntax_path(p, side).is_none() {
            self.skip(position, SyntaxSkipReason::NoPath);
            return;
        }
        let lang = match language {
            Some(l) => l,
            None => {
                self.skip(position, SyntaxSkipReason::NoLanguage);
                return;
            },
        };
        let lines = match hunk_lines {
            Some(l) => l,
            None => {
                self.skip(position, SyntaxSkipReason::InvalidPosition);
                return;
            },
        };
        let language_hash = hash_text(lang.as_str());
        if let Some(kind) = full_file_source(diff_source, scope, p, side, repo_is_dir) {
            let fid = SyntaxSourceId { generation: position.generation, file: position.file, side, kind: SyntaxSourceKind::FullFile };
            let key = SyntaxKey { source: fid, language_hash, theme_id: SYNTAX_THEME_ID };
            if !self.unavailable_full_files.contains_key(&key) {
                if self.failed.contains_key(&key) {
                    self.skip(position, SyntaxSkipReason::HighlightError);
                    return;
                }
                let line_map = match build_full_file_line_map(lines, side) {
                    Ok(line_map) => line_map,
                    Err(reason) => {
                        self.skip(position, reason);
                        return;
                    },
                };
                proof {
                    assert(line_map@ == file_line_map(lines@, side));
                }
                let ghost o0 = *self;
                self.source_keys.insert(fid, key);
                self.position_keys.insert(position, key);
                self.line_maps.insert(position, line_map);
                let ghost m = *self;
                let ghost oq = *queue;
                proof {
                    assert(self.line_maps@.remove(position) =~= o0.line_maps@.remove(position));
                    assert(self.line_maps@.dom() =~= o0.line_maps@.dom().insert(position));
                }
                let src = FullFileSource { repo: copy_path(repo), kind };
                let ghost g_src = src;
                let ghost g_lang = lang;
                let r = self.queue_job(queue, key, lang, SyntaxJobSource::FullFile(src), priority, Some(position));
                assert(queue_job_step(m, *self, oq, *queue, key, g_lang, SyntaxJobSource::FullFile(g_src), priority, Some(position), r));
                assert(m == SyntaxRuntime { source_keys: self.source_keys, position_keys: self.position_keys, line_maps: self.line_maps, ..o0 });
                return;
            }
        }
        let source = match build_hunk_source(lines, side, self.limits) {
            Ok(source) => source,
            Err(reason) => {
                self.skip(position, reason);
                return;
            },
        };
        let hid = SyntaxSourceId { generation: position.generation, file: position.file, side, kind: SyntaxSourceKind::HunkSide { hunk: position.hunk } };
        let key = SyntaxKey { source: hid, language_hash, theme_id: SYNTAX_THEME_ID };
        let ghost o0 = *self;
        self.source_keys.insert(hid, key);
        self.position_keys.insert(position, key);
        let line_map = source.line_map.clone();
        proof {
            assert(line_map@ == hunk_line_map(lines@, side));
        }
        self.line_maps.insert(position, line_map);
        let ghost m = *self;
        proof {
            assert(self.line_maps@.remove(position) =~= o0.line_maps@.remove(position));
            assert(self.line_maps@.dom() =~= o0.line_maps@.dom().insert(position));
        }
        if self.failed.contains_key(&key) {
            self.skip(position, SyntaxSkipReason::HighlightError);
            return;
        }
        let ghost oq = *queue;
        let ghost g_src = source;
        let ghost g_lang = lang;
        let r = self.queue_job(queue, key, lang, SyntaxJobSource::Hunk(source), priority, Some(position));
        assert(queue_job_step(m, *self, oq, *queue, key, g_lang, SyntaxJobSource::Hunk(g_src), priority, Some(position), r));
    }

    /// Every position whose key is `key`, each once.
    pub fn positions_for_key(&self, key: SyntaxKey) -> (r: Vec<SyntaxPosition>)
        requires
            self.wf(),
        ensures
            r@.no_duplicates(),
            r@.to_set() == positions_of(self.position_keys@, key),
    {
        let r = self.position_keys.keys_with_value(&key);
        assert(r@.to_set() =~= positions_of(self.position_keys@, key));
        r
    }

    /// Drops the source of `key`, which could not be read (see
    /// `unavailable_step`).
    pub fn handle_unavailable_source(&mut self, key: SyntaxKey)
        requires
            old(self).wf(),
        ensures
            final(self).wf(),
            unavailable_step(*old(self), *final(self), key),
    {
        self.source_keys.remove(&key.source);
        let positions = self.positions_for_key(key);
        match key.source.kind {
            SyntaxSourceKind::FullFile => {
                self.unavailable_full_files.insert(key, ());
            },
            SyntaxSourceKind::HunkSide { .. } => {
                skip_positions(&mut self.skipped, &positions, SyntaxSkipReason::NoSource);
            },
        }
        remove_positions(&mut self.position_keys, &positions);
        remove_positions(&mut self.line_maps, &positions);
    }

    /// Takes in the worker's answer for one job, for a state now showing
    /// generation `generation`; reports whether what is shown may change
    /// (see `result_step`).
    pub fn handle_result(&mut self, generation: u64, result: SyntaxResult<L>) -> (r: bool)
        requires
            old(self).wf(),
        ensures
            final(self).wf(),
            result_step(*old(self), *final(self), generation, result.key, result.side, r),
    {
        let key = result.key;
        self.pending.remove(&key);
        if key.generation() != generation {
            self.stats.stale_results = self.stats.stale_results.saturating_add(1);
            return false;
        }
        match result.side {
            Ok(success) => {
                self.cache.insert(key, success.side);
                self.stats.jobs_completed = self.stats.jobs_completed.saturating_add(1);
                if let Some(bytes) = success.source_bytes {
                    self.stats.source_bytes_queued = self.stats.source_bytes_queued.saturating_add(bytes);
                }
                if let Some(lines) = success.source_lines {
                    self.stats.source_lines_queued = self.stats.source_lines_queued.saturating_add(lines);
                }
                let entries = self.cache.len();
                if self.stats.cache_entries_peak < entries {
                    self.stats.cache_entries_peak = entries;
                }
                true
            },
            Err(SyntaxJobFailure::Unavailable) => {
                self.handle_unavailable_source(key);
                self.stats.jobs_skipped = self.stats.jobs_skipped.saturating_add(1);
                true
            },
            Err(SyntaxJobFailure::HighlightError) => {
                self.failed.insert(key, ());
                let positions = self.positions_for_key(key);
                skip_positions(&mut self.skipped, &positions, SyntaxSkipReason::HighlightError);
                self.stats.jobs_failed = self.stats.jobs_failed.saturating_add(1);
                false
            },
        }
    }

    fn lookup(&mut self, target: Option<(SyntaxKey, usize)>) -> (r: Option<&L>)
        requires
            old(self).wf(),
        ensures
            final(self).wf(),
            lookup_step(*old(self), *final(self), target, r),
    {
        match target {
            None => {
                self.stats.cache_misses = self.stats.cache_misses.saturating_add(1);
                None
            },
            Some((key, source_line)) => {
                let found = match self.cache.get(&key) {
                    Some(side) => if source_line < side.lines.len() {
                        Some(&side.lines[source_line])
                    } else {
                        None
                    },
                    None => None,
                };
                if found.is_some() {
                    self.stats.cache_hits = self.stats.cache_hits.saturating_add(1);
                } else {
                    self.stats.cache_misses = self.stats.cache_misses.saturating_add(1);
                }
                found
            },
        }
    }

    /// The highlighted line that line `line` of the hunk side at `position`
    /// shows, counted as a cache hit or miss (see `lookup_step`).
    pub fn line(&mut self, position: SyntaxPosition, line: usize) -> (r: Option<&L>)
        requires
            old(self).wf(),
        ensures
            final(self).wf(),
            lookup_step(*old(self), *final(self), line_target(*old(self), position, line), r),
    {
        let key = match self.position_keys.get(&position) {
            Some(k) => Some(*k),
            None => None,
        };
        let source_line = match self.line_maps.get(&position) {
            Some(map) => if line < map.len() {
                map[line]
            } else {
                None
            },
            None => None,
        };
        let target = match (key, source_line) {
            (Some(k), Some(l)) => Some((k, l)),
            _ => None,
        };
        self.lookup(target)
    }

    /// The highlighted line of line number `line_number` (counting from one)
    /// of the whole file of one side, counted as a cache hit or miss; line
    /// number zero has none and counts as neither.
    pub fn full_file_line(&mut self, generation: u64, file: usize, side: DiffSide, line_number: usize) -> (r: Option<&L>)
        requires
            old(self).wf(),
        ensures
            final(self).wf(),
            line_number == 0 ==> r is None && *final(self) == *old(self),
            line_number > 0 ==> lookup_step(*old(self), *final(self), full_file_target(*old(self), generation, file, side, line_number), r),
    {
        if line_number == 0 {
            return None;
        }
        let source_line = line_number - 1;
        let id = SyntaxSourceId { generation, file, side, kind: SyntaxSourceKind::FullFile };
        let target = match self.source_keys.get(&id) {
            Some(k) => Some((*k, source_line)),
            None => None,
        };
        self.lookup(target)
    }
}

/// A key whose highlighted text is cached is never queued again: asking
/// for it answers that it is there and changes neither the state nor the
/// queue.
pub proof fn cached_keys_are_not_queued_again<L>(
    o: SyntaxRuntime<L>,
    f: SyntaxRuntime<L>,
    oq: SyntaxWorkerQueueState,
    fq: SyntaxWorkerQueueState,
    key: SyntaxKey,
    language: String,
    source: SyntaxJobSource,
    priority: SyntaxPriority,
    position: Option<SyntaxPosition>,
    r: bool,
)
    requires
        queue_job_step(o, f, oq, fq, key, language, source, priority, position, r),
        o.cache.has(key),
    ensures
        r,
        f == o,
        fq == oq,
{
}

/// A key whose job is pending is never queued twice: asking for it again
/// leaves the number of queued jobs as it was (at most moving the job ahead
/// of the prefetch jobs) and the state unchanged.
pub proof fn pending_keys_are_not_queued_twice<L>(
    o: SyntaxRuntime<L>,
    f: SyntaxRuntime<L>,
    oq: SyntaxWorkerQueueState,
    fq: SyntaxWorkerQueueState,
    key: SyntaxKey,
    language: String,
    source: SyntaxJobSource,
    priority: SyntaxPriority,
    position: Option<SyntaxPosition>,
    r: bool,
)
    requires
        queue_job_step(o, f, oq, fq, key, language, source, priority, position, r),
        !o.cache.has(key),
        o.pending@.dom().contains(key),
    ensures
        r,
        f == o,
        fq.visible@.len() + fq.prefetch@.len() == oq.visible@.len() + oq.prefetch@.len(),
{
    if priority == SyntaxPriority::Visible {
        let moved = choose|moved: bool| promote_step(oq, fq, key, moved);
        assert(promote_step(oq, fq, key, moved));
        crate::syntax_queue::lemma_first_key_index(oq.prefetch@, key);
        let i = crate::syntax_queue::first_key_index(oq.prefetch@, key);
        if !(oq.closed || i >= oq.prefetch@.len()) {
            assert(fq.prefetch@.len() == oq.prefetch@.len() - 1);
        }
    }
}

/// A job that was pushed is pending until its answer comes back.
pub proof fn queued_jobs_are_pending<L>(
    o: SyntaxRuntime<L>,
    f: SyntaxRuntime<L>,
    oq: SyntaxWorkerQueueState,
    fq: SyntaxWorkerQueueState,
    key: SyntaxKey,
    language: String,
    source: SyntaxJobSource,
    priority: SyntaxPriority,
    position: Option<SyntaxPosition>,
    r: bool,
)
    requires
        queue_job_step(o, f, oq, fq, key, language, source, priority, position, r),
        !o.cache.has(key),
        !o.pending@.dom().contains(key),
        push_result(oq, key, priority) is Ok,
    ensures
        r,
        f.pending@.dom().contains(key),
{
}

/// Once its answer is handled, a key is no longer pending, whatever the
/// answer was.
pub proof fn answered_keys_are_not_pending<L>(
    o: SyntaxRuntime<L>,
    f: SyntaxRuntime<L>,
    generation: u64,
    key: SyntaxKey,
    side: Result<SyntaxSuccess<L>, SyntaxJobFailure>,
    r: bool,
)
    requires
        result_step(o, f, generation, key, side, r),
    ensures
        !f.pending@.dom().contains(key),
{
}

/// An answer from another generation changes nothing that is shown: the
/// cache, the skipped positions and the failed keys stay as they were.
pub proof fn stale_answers_change_nothing_shown<L>(
    o: SyntaxRuntime<L>,
    f: SyntaxRuntime<L>,
    generation: u64,
    key: SyntaxKey,
    side: Result<SyntaxSuccess<L>, SyntaxJobFailure>,
    r: bool,
)
    requires
        result_step(o, f, generation, key, side, r),
        key.source.generation != generation,
    ensures
        !r,
        f.cache == o.cache,
        f.skipped == o.skipped,
        f.failed == o.failed,
        f.stats.stale_results == sat_inc(o.stats.stale_results),
{
}

/// Skipping a position that is already skipped is not counted again.
pub proof fn skips_are_counted_once<L>(
    o: SyntaxRuntime<L>,
    m: SyntaxRuntime<L>,
    f: SyntaxRuntime<L>,
    position: SyntaxPosition,
    first: SyntaxSkipReason,
    second: SyntaxSkipReason,
)
    requires
        skip_step(o, m, position, first),
        skip_step(m, f, position, second),
    ensures
        f.stats == m.stats,
        f.stats.jobs_skipped <= sat_inc(o.stats.jobs_skipped),
        f.skipped@[position] == second,
{
}

} // verus!
