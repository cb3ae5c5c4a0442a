//! Taking in the worker's answers: the channel they arrive on is read
//! without waiting, each answer is handled in turn, and the peak memory
//! estimate of the cache is kept up to date.
use vstd::prelude::*;
use tokio::sync::mpsc::Receiver;
use crate::benchmark::SyntaxBenchmarkReport;
use crate::lru::{LruCache, LruEntry};
use crate::syntax_runtime::{result_step, HighlightedSide, SyntaxResult, SyntaxRuntime};
use crate::syntax_types::SyntaxKey;

verus! {

/// The receiving end of a bounded channel of `tokio`.
#[verifier::external_type_specification]
#[verifier::external_body]
#[verifier::reject_recursive_types(T)]
pub struct ExReceiver<T>(Receiver<T>);

/// The next value waiting on the channel, taken without waiting
/// (`tokio::sync::mpsc::Receiver::try_recv`); `None` when nothing is waiting
/// or every sender is gone. What is waiting depends on the threads that
/// send, so nothing is claimed of the result.
#[verifier::external_body]
fn next_waiting<T>(rx: &mut Receiver<T>) -> (r: Option<T>) {
    rx.try_recv().ok()
}

/// `a + b`, or `usize::MAX` when the sum does not fit.
pub open spec fn sat_add_usize(a: usize, b: usize) -> usize {
    if a + b > usize::MAX { usize::MAX } else { (a + b) as usize }
}

/// The sum of `parts`, added left to right without passing `usize::MAX`.
pub open spec fn sat_sum(parts: Seq<usize>) -> usize
    decreases parts.len(),
{
    if parts.len() == 0 {
        0
    } else {
        sat_add_usize(sat_sum(parts.drop_last()), parts.last())
    }
}

/// The cached highlighted texts, oldest entry first.
pub open spec fn cached_sides<L>(cache: LruCache<SyntaxKey, HighlightedSide<L>>) -> Seq<HighlightedSide<L>> {
    cache.entries().map_values(|e: LruEntry<SyntaxKey, HighlightedSide<L>>| e.value)
}

/// `sizes` holds, in order, an answer of `memory_bytes` for each of `sides`.
pub open spec fn measured<L, F: Fn(&HighlightedSide<L>) -> usize>(memory_bytes: F, sides: Seq<HighlightedSide<L>>, sizes: Seq<usize>) -> bool {
    &&& sizes.len() == sides.len()
    &&& forall|i: int| 0 <= i < sides.len() ==> memory_bytes.ensures((&sides[i],), #[trigger] sizes[i])
}

/// Whether `result` is a highlighted text for generation `generation`.
pub open spec fn completes<L>(result: SyntaxResult<L>, generation: u64) -> bool {
    result.side is Ok && result.key.source.generation == generation
}

/// The counters with the memory peak raised to `estimate` when that is
/// higher.
pub open spec fn peak_raised(s: SyntaxBenchmarkReport, estimate: usize) -> SyntaxBenchmarkReport {
    SyntaxBenchmarkReport {
        estimated_memory_peak_bytes: if s.estimated_memory_peak_bytes < estimate as u64 {
            estimate as u64
        } else {
            s.estimated_memory_peak_bytes
        },
        ..s
    }
}

/// Taking in `result` took the state from `o` through `m` to `f`, with
/// `changed` as `handle_result` reported it: `m` is the state after the
/// answer was handled (see `result_step`), and after a completed job the
/// memory peak is raised to the sum of `sizes`, the estimates of the cached
/// texts in `m`.
pub open spec fn drain_step<L, F: Fn(&HighlightedSide<L>) -> usize>(
    memory_bytes: F,
    generation: u64,
    o: SyntaxRuntime<L>,
    m: SyntaxRuntime<L>,
    f: SyntaxRuntime<L>,
    result: SyntaxResult<L>,
    changed: bool,
    sizes: Seq<usize>,
) -> bool {
    &&& result_step(o, m, generation, result.key, result.side, changed)
    &&& if completes(result, generation) {
        &&& measured(memory_bytes, cached_sides(m.cache), sizes)
        &&& f == SyntaxRuntime { stats: peak_raised(m.stats, sat_sum(sizes)), ..m }
    } else {
        f == m
    }
}

/// The answers `results` were taken in one after another: `states[i]` is
/// the state before the `i`-th, `mids[i]` the state after it was handled,
/// and `states[i + 1]` the state after the memory peak was recorded.
pub open spec fn drained<L, F: Fn(&HighlightedSide<L>) -> usize>(
    memory_bytes: F,
    generation: u64,
    states: Seq<SyntaxRuntime<L>>,
    mids: Seq<SyntaxRuntime<L>>,
    results: Seq<SyntaxResult<L>>,
    changes: Seq<bool>,
    sizes: Seq<Seq<usize>>,
) -> bool {
    &&& states.len() == results.len() + 1
    &&& mids.len() == results.len()
    &&& changes.len() == results.len()
    &&& sizes.len() == results.len()
    &&& forall|i: int|
        #![trigger mids[i]]
        0 <= i < results.len() ==> drain_step(memory_bytes, generation, states[i], mids[i], states[i + 1], results[i], changes[i], sizes[i])
}

impl<L> SyntaxRuntime<L> {
    /// The estimated memory of the cached highlighted texts: the sum of
    /// what `memory_bytes` answers for each, in cache order, without
    /// passing `usize::MAX`.
    pub fn estimated_memory_bytes<F: Fn(&HighlightedSide<L>) -> usize>(&self, memory_bytes: &F) -> (r: usize)
        requires
            self.wf(),
            forall|s: &HighlightedSide<L>| memory_bytes.requires((s,)),
        ensures
            exists|sizes: Seq<usize>| measured(*memory_bytes, cached_sides(self.cache), sizes) && r == sat_sum(sizes),
    {
        let sides = self.cache.values();
        let ghost cached = cached_sides(self.cache);
        let mut total: usize = 0;
        let mut i: usize = 0;
        let ghost mut sizes: Seq<usize> = Seq::empty();
        while i < sides.len()
            invariant
                i <= sides@.len(),
                sides@.len() == cached.len(),
                forall|j: int| 0 <= j < sides@.len() ==> *sides@[j] == cached[j],
                forall|s: &HighlightedSide<L>| memory_bytes.requires((s,)),
                sizes.len() == i,
                forall|j: int| 0 <= j < i ==> memory_bytes.ensures((&cached[j],), #[trigger] sizes[j]),
                total == sat_sum(sizes),
            decreases sides@.len() - i,
        {
            let b = memory_bytes(sides[i]);
            proof {
                let next = sizes.push(b);
                assert(next.drop_last() =~= sizes);
                sizes = next;
            }
            total = total.saturating_add(b);
            i += 1;
        }
        assert(measured(*memory_bytes, cached, sizes));
        total
    }

    /// Takes in at most `max_results` answers waiting on `results_rx`, for
    /// a state now showing generation `generation`, handling each in turn
    /// (see `drain_step`); stops early when none is waiting. Reports whether
    /// handling any of them may change what is shown.
    pub fn drain<F: Fn(&HighlightedSide<L>) -> usize>(
        &mut self,
        results_rx: &mut Receiver<SyntaxResult<L>>,
        generation: u64,
        max_results: usize,
        memory_bytes: &F,
    ) -> (r: bool)
        requires
            old(self).wf(),
            forall|s: &HighlightedSide<L>| memory_bytes.requires((s,)),
        ensures
            final(self).wf(),
            exists|states: Seq<SyntaxRuntime<L>>, mids: Seq<SyntaxRuntime<L>>, results: Seq<SyntaxResult<L>>, changes: Seq<bool>, sizes: Seq<Seq<usize>>|
                #[trigger] drained(*memory_bytes, generation, states, mids, results, changes, sizes)
                && states[0] == *old(self)
                && states.last() == *final(self)
                && results.len() <= max_results
                && (r <==> changes.contains(true)),
    {
        let ghost start = *self;
        let ghost mut states: Seq<SyntaxRuntime<L>> = seq![*self];
        let ghost mut mids: Seq<SyntaxRuntime<L>> = Seq::empty();
        let ghost mut results: Seq<SyntaxResult<L>> = Seq::empty();
        let ghost mut changes: Seq<bool> = Seq::empty();
        let ghost mut sizes: Seq<Seq<usize>> = Seq::empty();
        let mut changed = false;
        let mut taken: usize = 0;
        let mut waiting = true;
        while waiting && taken < max_results
            invariant
                self.wf(),
                forall|s: &HighlightedSide<L>| memory_bytes.requires((s,)),
                taken <= max_results,
                results.len() <= taken,
                drained(*memory_bytes, generation, states, mids, results, changes, sizes),
                states[0] == start,
                states.last() == *self,
                changed <==> changes.contains(true),
            decreases max_results - taken,
        {
            match next_waiting(results_rx) {
                None => {
                    waiting = false;
                    taken += 1;
                },
                Some(result) => {
                    let completed = result.side.is_ok() && result.key.generation() == generation;
                    let ghost answer = result;
                    let ghost before = *self;
                    let c = self.handle_result(generation, result);
                    let ghost mid = *self;
                    let ghost mut measured_sizes: Seq<usize> = Seq::empty();
                    if completed {
                        let estimate = self.estimated_memory_bytes(memory_bytes);
                        proof {
                            measured_sizes = choose|sz: Seq<usize>| measured(*memory_bytes, cached_sides(mid.cache), sz) && estimate == sat_sum(sz);
                        }
                        let estimate_bytes = estimate as u64;
                        if self.stats.estimated_memory_peak_bytes < estimate_bytes {
                            self.stats.estimated_memory_peak_bytes = estimate_bytes;
                        }
                    }
                    proof {
                        assert(drain_step(*memory_bytes, generation, before, mid, *self, answer, c, measured_sizes));
                        let old_states = states;
                        let old_mids = mids;
                        let old_results = results;
                        let old_changes = changes;
                        let old_sizes = sizes;
                        states = states.push(*self);
                        mids = mids.push(mid);
                        results = results.push(answer);
                        changes = changes.push(c);
                        sizes = sizes.push(measured_sizes);
                        assert forall|i: int|
                            #![trigger mids[i]]
                            0 <= i < results.len() implies drain_step(*memory_bytes, generation, states[i], mids[i], states[i + 1], results[i], changes[i], sizes[i]) by {
                            if i < old_results.len() {
                                assert(old_mids[i] == mids[i]);
                            }
                        }
                        if c {
                            assert(changes[changes.len() - 1]);
                        }
                        if old_changes.contains(true) {
                            let k = choose|k: int| 0 <= k < old_changes.len() && old_changes[k] == true;
                            assert(changes[k]);
                        }
                        if changes.contains(true) {
                            let k = choose|k: int| 0 <= k < changes.len() && changes[k] == true;
                            if k < old_changes.len() {
                                assert(old_changes[k]);
                            }
                        }
                    }
                    if c {
                        changed = true;
                    }
                    taken += 1;
                },
            }
        }
        proof {
            assert(drained(*memory_bytes, generation, states, mids, results, changes, sizes));
        }
        changed
    }
}

} // verus!
