//! The queue of highlighting jobs between the interface and the worker:
//! jobs for visible rows go before prefetch jobs, stale jobs are dropped,
//! and a full queue makes room for a visible job by dropping the newest
//! prefetch job.
use vstd::prelude::*;
use crate::source::{SyntaxJobSource, SyntaxLimits};
use crate::syntax_types::SyntaxKey;

verus! {

/// One highlighting job.
pub struct SyntaxJob {
    pub key: SyntaxKey,
    pub language: String,
    pub source: SyntaxJobSource,
    pub limits: SyntaxLimits,
}

/// Whether a job is for rows on screen or ahead of them.
#[derive(Debug, Clone, Copy, PartialEq, Eq, Structural)]
pub enum SyntaxPriority {
    Visible,
    Prefetch,
}

/// What a push did: the prefetch job it dropped, and the queue's new depth.
#[derive(Debug, Clone, Copy, PartialEq, Eq, Structural)]
pub struct SyntaxQueuePush {
    pub dropped: Option<SyntaxKey>,
    pub depth: usize,
}

/// Why a push was refused.
#[derive(Debug, Clone, Copy, PartialEq, Eq, Structural)]
pub enum SyntaxQueueError {
    Full,
    Closed,
    Stale,
}

/// The queue's contents: its generation, its visible and prefetch jobs in
/// order, whether it is closed, and how many jobs it holds at most.
pub struct SyntaxWorkerQueueState {
    pub generation: u64,
    pub visible: Vec<SyntaxJob>,
    pub prefetch: Vec<SyntaxJob>,
    pub closed: bool,
    pub capacity: usize,
}

/// The index of the first job with key `k`, or the length when none has it.
pub open spec fn first_key_index(s: Seq<SyntaxJob>, k: SyntaxKey) -> int
    decreases s.len(),
{
    if s.len() == 0 {
        0
    } else if s[0].key == k {
        0
    } else {
        1 + first_key_index(s.drop_first(), k)
    }
}

pub proof fn lemma_first_key_index(s: Seq<SyntaxJob>, k: SyntaxKey)
    ensures
        0 <= first_key_index(s, k) <= s.len(),
        first_key_index(s, k) < s.len() ==> s[first_key_index(s, k)].key == k,
        forall|j: int| 0 <= j < first_key_index(s, k) ==> s[j].key != k,
    decreases s.len(),
{
    if s.len() > 0 && s[0].key != k {
        lemma_first_key_index(s.drop_first(), k);
        assert forall|j: int| 0 <= j < first_key_index(s, k) implies s[j].key != k by {
            if j > 0 {
                assert(s[j] == s.drop_first()[j - 1]);
            }
        }
    }
}

/// The jobs of one generation.
pub open spec fn current(s: Seq<SyntaxJob>, generation: u64) -> Seq<SyntaxJob> {
    s.filter(|j: SyntaxJob| j.key.source.generation == generation)
}

/// The index of the first job of generation `g`, or the length.
pub open spec fn first_current(s: Seq<SyntaxJob>, g: u64) -> int
    decreases s.len(),
{
    if s.len() == 0 {
        0
    } else if s[0].key.source.generation == g {
        0
    } else {
        1 + first_current(s.drop_first(), g)
    }
}

proof fn lemma_first_current(s: Seq<SyntaxJob>, g: u64)
    ensures
        0 <= first_current(s, g) <= s.len(),
        first_current(s, g) < s.len() ==> s[first_current(s, g)].key.source.generation == g,
    decreases s.len(),
{
    if s.len() > 0 && s[0].key.source.generation != g {
        lemma_first_current(s.drop_first(), g);
    }
}

/// What pushing a job with `key` at `priority` onto queue `o` answers: a
/// closed queue, a job of another generation, a queue of capacity zero and a
/// full queue with no prefetch job to drop (or a prefetch push) refuse it.
pub open spec fn push_result(o: SyntaxWorkerQueueState, key: SyntaxKey, priority: SyntaxPriority) -> Result<SyntaxQueuePush, SyntaxQueueError> {
    let n = o.visible@.len() + o.prefetch@.len();
    if o.closed {
        Err(SyntaxQueueError::Closed)
    } else if key.source.generation != o.generation {
        Err(SyntaxQueueError::Stale)
    } else if o.capacity == 0 {
        Err(SyntaxQueueError::Full)
    } else if n >= o.capacity && (priority == SyntaxPriority::Prefetch || o.prefetch@.len() == 0) {
        Err(SyntaxQueueError::Full)
    } else if n >= o.capacity {
        Ok(SyntaxQueuePush { dropped: Some(o.prefetch@.last().key), depth: n as usize })
    } else {
        Ok(SyntaxQueuePush { dropped: None, depth: (n + 1) as usize })
    }
}

/// Pushing `job` at `priority` took queue `o` to `f` and answered `r`.
pub open spec fn push_step(o: SyntaxWorkerQueueState, f: SyntaxWorkerQueueState, job: SyntaxJob, priority: SyntaxPriority, r: Result<SyntaxQueuePush, SyntaxQueueError>) -> bool {
    &&& r == push_result(o, job.key, priority)
    &&& f.generation == o.generation
    &&& f.closed == o.closed
    &&& f.capacity == o.capacity
    &&& match r {
        Err(_) => f.visible@ == o.visible@ && f.prefetch@ == o.prefetch@,
        Ok(push) => match push.dropped {
            Some(_) => f.prefetch@ == o.prefetch@.drop_last() && f.visible@ == o.visible@.push(job),
            None => (priority == SyntaxPriority::Visible ==> f.visible@ == o.visible@.push(job) && f.prefetch@ == o.prefetch@)
                && (priority == SyntaxPriority::Prefetch ==> f.prefetch@ == o.prefetch@.push(job) && f.visible@ == o.visible@),
        },
    }
}

/// Promoting `key` took queue `o` to `f` and answered `r`: the first
/// prefetch job with that key moved to the end of the visible jobs.
pub open spec fn promote_step(o: SyntaxWorkerQueueState, f: SyntaxWorkerQueueState, key: SyntaxKey, r: bool) -> bool {
    let i = first_key_index(o.prefetch@, key);
    &&& f.generation == o.generation
    &&& f.closed == o.closed
    &&& f.capacity == o.capacity
    &&& if o.closed || i >= o.prefetch@.len() {
        !r && f.visible@ == o.visible@ && f.prefetch@ == o.prefetch@
    } else {
        r && f.visible@ == o.visible@.push(o.prefetch@[i]) && f.prefetch@ == o.prefetch@.remove(i)
    }
}

impl SyntaxWorkerQueueState {
    /// The queue never holds more jobs than its capacity.
    pub open spec fn wf(&self) -> bool {
        self.visible@.len() + self.prefetch@.len() <= self.capacity
    }

    /// An open, empty queue of the given capacity for one generation.
    pub fn new(capacity: usize, generation: u64) -> (r: Self)
        ensures
            r.wf(),
            r.capacity == capacity,
            r.generation == generation,
            !r.closed,
            r.visible@.len() == 0,
            r.prefetch@.len() == 0,
    {
        SyntaxWorkerQueueState { generation, visible: Vec::new(), prefetch: Vec::new(), closed: false, capacity }
    }

    /// The number of queued jobs.
    pub fn len(&self) -> (r: usize)
        requires
            self.wf(),
        ensures
            r == self.visible@.len() + self.prefetch@.len(),
    {
        self.visible.len() + self.prefetch.len()
    }

    /// Queues a job. A closed queue refuses it, as does one of another
    /// generation or of capacity zero. A full queue makes room for a visible
    /// job by dropping its newest prefetch job, and refuses otherwise.
    pub fn try_push(&mut self, job: SyntaxJob, priority: SyntaxPriority) -> (r: Result<SyntaxQueuePush, SyntaxQueueError>)
        requires
            old(self).wf(),
        ensures
            final(self).wf(),
            final(self).generation == old(self).generation,
            final(self).closed == old(self).closed,
            final(self).capacity == old(self).capacity,
            push_step(*old(self), *final(self), job, priority, r),
    {
        if self.closed {
            return Err(SyntaxQueueError::Closed);
        }
        if job.key.generation() != self.generation {
            return Err(SyntaxQueueError::Stale);
        }
        if self.capacity == 0 {
            return Err(SyntaxQueueError::Full);
        }
        let mut dropped: Option<SyntaxKey> = None;
        if self.len() >= self.capacity {
            match priority {
                SyntaxPriority::Visible => {
                    match self.prefetch.pop() {
                        Some(evicted) => {
                            dropped = Some(evicted.key);
                        },
                        None => return Err(SyntaxQueueError::Full),
                    }
                },
                SyntaxPriority::Prefetch => return Err(SyntaxQueueError::Full),
            }
        }
        match priority {
            SyntaxPriority::Visible => self.visible.push(job),
            SyntaxPriority::Prefetch => self.prefetch.push(job),
        }
        let depth = self.len();
        Ok(SyntaxQueuePush { dropped, depth })
    }

    /// Moves the first prefetch job with `key` to the end of the visible
    /// jobs; reports whether there was one (a closed queue moves nothing).
    pub fn promote(&mut self, key: SyntaxKey) -> (r: bool)
        requires
            old(self).wf(),
        ensures
            final(self).wf(),
            final(self).generation == old(self).generation,
            final(self).closed == old(self).closed,
            final(self).capacity == old(self).capacity,
            promote_step(*old(self), *final(self), key, r),
    {
        if self.closed {
            return false;
        }
        proof {
            lemma_first_key_index(self.prefetch@, key);
        }
        let mut i: usize = 0;
        while i < self.prefetch.len() && self.prefetch[i].key != key
            invariant
                i <= self.prefetch@.len(),
                self.prefetch@ == old(self).prefetch@,
                forall|j: int| 0 <= j < i ==> self.prefetch@[j].key != key,
            decreases self.prefetch@.len() - i,
        {
            i += 1;
        }
        proof {
            let f = first_key_index(old(self).prefetch@, key);
            if f < i {
                assert(self.prefetch@[f].key == key);
            }
        }
        if i == self.prefetch.len() {
            return false;
        }
        let job = self.prefetch.remove(i);
        self.visible.push(job);
        true
    }

    /// Starts generation `generation`: keeps only its jobs, in order.
    pub fn set_generation(&mut self, generation: u64)
        requires
            old(self).wf(),
        ensures
            final(self).wf(),
            final(self).generation == generation,
            final(self).closed == old(self).closed,
            final(self).capacity == old(self).capacity,
            final(self).visible@ == current(old(self).visible@, generation),
            final(self).prefetch@ == current(old(self).prefetch@, generation),
            forall|i: int| 0 <= i < final(self).visible@.len() ==> (#[trigger] final(self).visible@[i]).key.source.generation == generation,
            forall|i: int| 0 <= i < final(self).prefetch@.len() ==> (#[trigger] final(self).prefetch@[i]).key.source.generation == generation,
    {
        self.generation = generation;
        let visible = retain_generation(&mut self.visible, generation);
        let prefetch = retain_generation(&mut self.prefetch, generation);
        proof {
            lemma_current_len(old(self).visible@, generation);
            lemma_current_len(old(self).prefetch@, generation);
            old(self).visible@.filter_lemma(|j: SyntaxJob| j.key.source.generation == generation);
            old(self).prefetch@.filter_lemma(|j: SyntaxJob| j.key.source.generation == generation);
        }
        self.visible = visible;
        self.prefetch = prefetch;
    }

    /// Closes the queue and drops its jobs.
    pub fn close(&mut self)
        ensures
            final(self).wf(),
            final(self).closed,
            final(self).generation == old(self).generation,
            final(self).capacity == old(self).capacity,
            final(self).visible@.len() == 0,
            final(self).prefetch@.len() == 0,
    {
        self.closed = true;
        self.visible = Vec::new();
        self.prefetch = Vec::new();
    }

    /// The next job of the current generation for the worker, visible jobs
    /// first; the stale jobs before it are dropped. Nothing when the queue
    /// is closed or holds no current job (then it is left empty).
    pub fn take_next(&mut self) -> (r: Option<SyntaxJob>)
        requires
            old(self).wf(),
        ensures
            final(self).wf(),
            final(self).generation == old(self).generation,
            final(self).closed == old(self).closed,
            final(self).capacity == old(self).capacity,
            ({
                let o = old(self);
                let all = o.visible@ + o.prefetch@;
                let i = first_current(all, o.generation);
                let nv = o.visible@.len() as int;
                if o.closed {
                    r is None && final(self).visible@ == o.visible@ && final(self).prefetch@ == o.prefetch@
                } else if i >= all.len() {
                    r is None && final(self).visible@.len() == 0 && final(self).prefetch@.len() == 0
                } else if i < nv {
                    r == Some(all[i]) && final(self).visible@ == o.visible@.skip(i + 1) && final(self).prefetch@ == o.prefetch@
                } else {
                    r == Some(all[i]) && final(self).visible@.len() == 0 && final(self).prefetch@ == o.prefetch@.skip(i - nv + 1)
                }
            }),
            r matches Some(job) ==> job.key.source.generation == old(self).generation,
    {
        if self.closed {
            return None;
        }
        let ghost all = old(self).visible@ + old(self).prefetch@;
        let ghost g = self.generation;
        let ghost nv = old(self).visible@.len() as int;
        proof {
            lemma_first_current(all, g);
        }
        let mut taken: usize = 0;
        loop
            invariant
                self.wf(),
                self.generation == g,
                g == old(self).generation,
                !old(self).closed,
                all.len() <= old(self).capacity,
                !self.closed,
                self.capacity == old(self).capacity,
                all == old(self).visible@ + old(self).prefetch@,
                nv == old(self).visible@.len(),
                taken <= all.len(),
                taken <= first_current(all, g),
                0 <= first_current(all, g) <= all.len(),
                first_current(all, g) < all.len() ==> all[first_current(all, g)].key.source.generation == g,
                taken <= nv ==> self.visible@ == old(self).visible@.skip(taken as int) && self.prefetch@ == old(self).prefetch@,
                taken > nv ==> self.visible@.len() == 0 && self.prefetch@ == old(self).prefetch@.skip(taken - nv),
            decreases all.len() - taken,
        {
            let job = if self.visible.len() > 0 {
                self.visible.remove(0)
            } else if self.prefetch.len() > 0 {
                self.prefetch.remove(0)
            } else {
                proof {
                    lemma_first_current_skip(all, g, taken as int);
                }
                return None;
            };
            proof {
                lemma_take_step(all, old(self).visible@, old(self).prefetch@, taken as int);
                lemma_first_current_skip(all, g, taken as int);
            }
            if job.key.generation() == self.generation {
                return Some(job);
            }
            taken += 1;
        }
    }
}

proof fn lemma_take_step(all: Seq<SyntaxJob>, v: Seq<SyntaxJob>, p: Seq<SyntaxJob>, taken: int)
    requires
        all == v + p,
        0 <= taken < all.len(),
    ensures
        taken < v.len() ==> all[taken] == v.skip(taken)[0] && v.skip(taken).drop_first() == v.skip(taken + 1),
        taken >= v.len() ==> all[taken] == p.skip(taken - v.len())[0] && p.skip(taken - v.len()).drop_first() == p.skip(taken + 1 - v.len()),
{
    if taken < v.len() {
        assert(v.skip(taken).drop_first() =~= v.skip(taken + 1));
    } else {
        assert(p.skip(taken - v.len()).drop_first() =~= p.skip(taken + 1 - v.len()));
    }
}

proof fn lemma_first_current_skip(all: Seq<SyntaxJob>, g: u64, taken: int)
    requires
        0 <= taken <= first_current(all, g),
    ensures
        forall|j: int| 0 <= j < first_current(all, g) ==> all[j].key.source.generation != g,
        first_current(all, g) <= all.len(),
    decreases all.len(),
{
    lemma_first_current_before(all, g);
}

proof fn lemma_first_current_before(s: Seq<SyntaxJob>, g: u64)
    ensures
        forall|j: int| 0 <= j < first_current(s, g) ==> s[j].key.source.generation != g,
        first_current(s, g) <= s.len(),
    decreases s.len(),
{
    if s.len() > 0 && s[0].key.source.generation != g {
        lemma_first_current_before(s.drop_first(), g);
        assert forall|j: int| 0 <= j < first_current(s, g) implies s[j].key.source.generation != g by {
            if j > 0 {
                assert(s[j] == s.drop_first()[j - 1]);
            }
        }
    }
}

proof fn lemma_current_len(s: Seq<SyntaxJob>, g: u64)
    ensures
        current(s, g).len() <= s.len(),
{
    s.lemma_filter_len(|j: SyntaxJob| j.key.source.generation == g);
}

/// The jobs of generation `generation`, in order; the vector is left empty.
fn retain_generation(jobs: &mut Vec<SyntaxJob>, generation: u64) -> (r: Vec<SyntaxJob>)
    ensures
        r@ == current(old(jobs)@, generation),
        final(jobs)@.len() == 0,
{
    let ghost src = jobs@;
    let ghost keep = |j: SyntaxJob| j.key.source.generation == generation;
    let mut kept: Vec<SyntaxJob> = Vec::new();
    let mut rest: Vec<SyntaxJob> = Vec::new();
    let total = jobs.len();
    std::mem::swap(&mut rest, jobs);
    let mut i: usize = 0;
    proof {
        reveal(Seq::filter);
        assert(src.take(0) =~= Seq::<SyntaxJob>::empty());
        assert(kept@ =~= src.take(0).filter(keep));
        assert(rest@ =~= src.skip(0));
    }
    while rest.len() > 0
        invariant
            rest@.len() + i == src.len(),
            total == src.len(),
            rest@ == src.skip(i as int),
            kept@ == src.take(i as int).filter(keep),
            keep == (|j: SyntaxJob| j.key.source.generation == generation),
            jobs@.len() == 0,
        decreases rest@.len(),
    {
        let job = rest.remove(0);
        proof {
            assert(job == src[i as int]);
            reveal(Seq::filter);
            assert(src.take(i + 1).drop_last() =~= src.take(i as int));
            assert(src.take(i + 1).last() == src[i as int]);
            assert(rest@ =~= src.skip(i + 1));
        }
        if job.key.generation() == generation {
            kept.push(job);
        }
        i += 1;
    }
    proof {
        assert(src.take(src.len() as int) =~= src);
    }
    kept
}

} // verus!
