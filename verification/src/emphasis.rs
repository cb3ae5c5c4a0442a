//! Per-hunk inline emphasis, computed lazily line by line and cached.
use vstd::prelude::*;
use crate::inline::{changed_ranges_spec, changed_token_ranges, InlineRange};

verus! {

/// The kind of a diff line.
#[derive(Debug, Clone, Copy, PartialEq, Eq, Structural)]
pub enum DiffLineKind {
    Context,
    Addition,
    Deletion,
    Meta,
}

/// One line of a hunk.
#[derive(Debug, Clone, PartialEq, Eq)]
pub struct DiffLine {
    pub kind: DiffLineKind,
    pub old_line: Option<usize>,
    pub new_line: Option<usize>,
    pub text: String,
}

/// The emphasised ranges of one line.
#[derive(Debug, Clone, PartialEq, Eq)]
pub struct InlineLineEmphasis {
    pub ranges: Vec<InlineRange>,
}

/// A run of changed (deleted or added) lines.
#[derive(Debug)]
pub struct InlineChangedBlock {
    pub start: usize,
    pub end: usize,
    pub deletions: Vec<usize>,
    pub additions: Vec<usize>,
}

/// Whether a line kind is a change.
pub open spec fn is_change(k: DiffLineKind) -> bool {
    k == DiffLineKind::Deletion || k == DiffLineKind::Addition
}

/// The kinds of a hunk's lines.
pub open spec fn kinds_of(lines: Seq<DiffLine>) -> Seq<DiffLineKind> {
    lines.map_values(|l: DiffLine| l.kind)
}

/// The first line of the run of changes that reaches line `k`.
pub open spec fn run_start(kinds: Seq<DiffLineKind>, k: int) -> int
    decreases k,
{
    if k > 0 && k <= kinds.len() && is_change(kinds[k - 1]) {
        run_start(kinds, k - 1)
    } else {
        k
    }
}

/// The line after the run of changes that starts at or before line `k`.
pub open spec fn run_stop(kinds: Seq<DiffLineKind>, k: int) -> int
    decreases kinds.len() - k,
{
    if 0 <= k < kinds.len() && is_change(kinds[k]) {
        run_stop(kinds, k + 1)
    } else {
        k
    }
}

/// The indices in `lo..hi` of lines of one kind, in order.
pub open spec fn kind_indices(kinds: Seq<DiffLineKind>, lo: int, hi: int, kind: DiffLineKind) -> Seq<int>
    decreases hi - lo,
{
    if hi <= lo {
        Seq::empty()
    } else {
        let prev = kind_indices(kinds, lo, hi - 1, kind);
        if kinds[hi - 1] == kind { prev.push(hi - 1) } else { prev }
    }
}

/// The emphasis of line `k` when every changed block pairs its n-th deletion
/// with its n-th addition: the changed tokens of the pair, or nothing for
/// context lines and unpaired changes.
pub open spec fn line_emphasis(lines: Seq<DiffLine>, k: int) -> Seq<InlineRange> {
    let kinds = kinds_of(lines);
    if k < 0 || k >= lines.len() || !is_change(kinds[k]) {
        Seq::empty()
    } else {
        let s = run_start(kinds, k);
        let e = run_stop(kinds, k);
        let dels = kind_indices(kinds, s, e, DiffLineKind::Deletion);
        let adds = kind_indices(kinds, s, e, DiffLineKind::Addition);
        if dels.len() == 0 || adds.len() == 0 {
            Seq::empty()
        } else if kinds[k] == DiffLineKind::Deletion {
            let p = kind_indices(kinds, s, k, DiffLineKind::Deletion).len();
            if p < adds.len() {
                changed_ranges_spec(lines[k].text@, lines[adds[p as int]].text@).0
            } else {
                Seq::empty()
            }
        } else {
            let p = kind_indices(kinds, s, k, DiffLineKind::Addition).len();
            if p < dels.len() {
                changed_ranges_spec(lines[dels[p as int]].text@, lines[k].text@).1
            } else {
                Seq::empty()
            }
        }
    }
}


/// Line `k` is a change: its run covers it and holds only changes.
pub proof fn lemma_run_bounds(kinds: Seq<DiffLineKind>, k: int)
    requires
        0 <= k < kinds.len(),
        is_change(kinds[k]),
    ensures
        0 <= run_start(kinds, k) <= k < run_stop(kinds, k) <= kinds.len(),
        run_start(kinds, k) == 0 || !is_change(kinds[run_start(kinds, k) - 1]),
        run_stop(kinds, k) == kinds.len() || !is_change(kinds[run_stop(kinds, k)]),
        forall|j: int| run_start(kinds, k) <= j < run_stop(kinds, k) ==> is_change(#[trigger] kinds[j]),
{
    lemma_run_start(kinds, k);
    lemma_run_stop(kinds, k);
}

proof fn lemma_run_start(kinds: Seq<DiffLineKind>, k: int)
    requires
        0 <= k <= kinds.len(),
    ensures
        0 <= run_start(kinds, k) <= k,
        run_start(kinds, k) == 0 || !is_change(kinds[run_start(kinds, k) - 1]),
        forall|j: int| run_start(kinds, k) <= j < k ==> is_change(#[trigger] kinds[j]),
        forall|j: int| run_start(kinds, k) <= j <= k ==> run_start(kinds, j) == run_start(kinds, k),
    decreases k,
{
    if k > 0 && is_change(kinds[k - 1]) {
        lemma_run_start(kinds, k - 1);
    }
}

proof fn lemma_run_stop(kinds: Seq<DiffLineKind>, k: int)
    requires
        0 <= k <= kinds.len(),
    ensures
        k <= run_stop(kinds, k) <= kinds.len(),
        run_stop(kinds, k) == kinds.len() || !is_change(kinds[run_stop(kinds, k)]),
        forall|j: int| k <= j < run_stop(kinds, k) ==> is_change(#[trigger] kinds[j]),
        forall|j: int| k <= j <= run_stop(kinds, k) ==> run_stop(kinds, j) == run_stop(kinds, k),
    decreases kinds.len() - k,
{
    if k < kinds.len() && is_change(kinds[k]) {
        lemma_run_stop(kinds, k + 1);
    }
}

/// Every line of a run has the same run.
pub proof fn lemma_same_run(kinds: Seq<DiffLineKind>, k: int, j: int)
    requires
        0 <= k < kinds.len(),
        is_change(kinds[k]),
        run_start(kinds, k) <= j < run_stop(kinds, k),
    ensures
        run_start(kinds, j) == run_start(kinds, k),
        run_stop(kinds, j) == run_stop(kinds, k),
{
    lemma_run_start(kinds, k);
    lemma_run_stop(kinds, k);
    if j <= k {
        assert(run_start(kinds, j) == run_start(kinds, k));
        lemma_run_stop(kinds, j);
        // j..k are changes, so the stop of j is the stop of k
        lemma_run_stop_walk(kinds, j, k);
    } else {
        lemma_run_stop(kinds, j);
        lemma_run_start_walk(kinds, k, j);
    }
}

proof fn lemma_run_stop_walk(kinds: Seq<DiffLineKind>, j: int, k: int)
    requires
        0 <= j <= k <= kinds.len(),
        forall|x: int| j <= x < k ==> is_change(#[trigger] kinds[x]),
    ensures
        run_stop(kinds, j) == run_stop(kinds, k),
    decreases k - j,
{
    if j < k {
        lemma_run_stop_walk(kinds, j + 1, k);
    }
}

proof fn lemma_run_start_walk(kinds: Seq<DiffLineKind>, k: int, j: int)
    requires
        0 <= k <= j <= kinds.len(),
        forall|x: int| k <= x < j ==> is_change(#[trigger] kinds[x]),
    ensures
        run_start(kinds, j) == run_start(kinds, k),
    decreases j - k,
{
    if k < j {
        lemma_run_start_walk(kinds, k, j - 1);
    }
}

/// The indices of one kind are increasing, lie in range and have the kind.
pub proof fn lemma_kind_indices(kinds: Seq<DiffLineKind>, lo: int, hi: int, kind: DiffLineKind)
    requires
        0 <= lo,
        hi <= kinds.len(),
    ensures
        forall|x: int| 0 <= x < kind_indices(kinds, lo, hi, kind).len() ==> lo <= #[trigger] kind_indices(kinds, lo, hi, kind)[x] < hi
            && kinds[kind_indices(kinds, lo, hi, kind)[x]] == kind,
        forall|x: int, y: int| 0 <= x < y < kind_indices(kinds, lo, hi, kind).len() ==> #[trigger] kind_indices(kinds, lo, hi, kind)[x] < #[trigger] kind_indices(kinds, lo, hi, kind)[y],
        kind_indices(kinds, lo, hi, kind).len() <= if hi >= lo { hi - lo } else { 0 },
    decreases hi - lo,
{
    if hi > lo {
        lemma_kind_indices(kinds, lo, hi - 1, kind);
    }
}

/// Indices up to `j` are a prefix of the indices up to `hi`.
pub proof fn lemma_kind_indices_prefix(kinds: Seq<DiffLineKind>, lo: int, j: int, hi: int, kind: DiffLineKind)
    requires
        0 <= lo <= j <= hi <= kinds.len(),
    ensures
        kind_indices(kinds, lo, j, kind).len() <= kind_indices(kinds, lo, hi, kind).len(),
        kind_indices(kinds, lo, hi, kind).take(kind_indices(kinds, lo, j, kind).len() as int) == kind_indices(kinds, lo, j, kind),
    decreases hi - j,
{
    if j < hi {
        lemma_kind_indices_prefix(kinds, lo, j, hi - 1, kind);
        let a = kind_indices(kinds, lo, j, kind);
        let b = kind_indices(kinds, lo, hi - 1, kind);
        assert(b.take(a.len() as int) == a);
        if kinds[hi - 1] == kind {
            assert(b.push(hi - 1).take(a.len() as int) =~= b.take(a.len() as int));
        }
    } else {
        let a = kind_indices(kinds, lo, j, kind);
        assert(a.take(a.len() as int) =~= a);
    }
}

/// A line of the kind in range sits at its rank among the indices.
pub proof fn lemma_kind_index_at_rank(kinds: Seq<DiffLineKind>, lo: int, j: int, hi: int, kind: DiffLineKind)
    requires
        0 <= lo <= j < hi <= kinds.len(),
        kinds[j] == kind,
    ensures
        kind_indices(kinds, lo, j, kind).len() < kind_indices(kinds, lo, hi, kind).len(),
        kind_indices(kinds, lo, hi, kind)[kind_indices(kinds, lo, j, kind).len() as int] == j,
{
    lemma_kind_indices_prefix(kinds, lo, j + 1, hi, kind);
    let a = kind_indices(kinds, lo, j, kind);
    let b = kind_indices(kinds, lo, hi, kind);
    assert(kind_indices(kinds, lo, j + 1, kind) == a.push(j));
    assert(b.take(a.len() as int + 1) == a.push(j));
    assert(b.take(a.len() as int + 1)[a.len() as int] == b[a.len() as int]);
}

/// The index at position `x` has rank `x`.
pub proof fn lemma_rank_of_index(kinds: Seq<DiffLineKind>, lo: int, hi: int, kind: DiffLineKind, x: int)
    requires
        0 <= lo <= hi <= kinds.len(),
        0 <= x < kind_indices(kinds, lo, hi, kind).len(),
    ensures
        kind_indices(kinds, lo, kind_indices(kinds, lo, hi, kind)[x], kind).len() == x,
{
    let b = kind_indices(kinds, lo, hi, kind);
    let j = b[x];
    lemma_kind_indices(kinds, lo, hi, kind);
    lemma_kind_index_at_rank(kinds, lo, j, hi, kind);
    let r = kind_indices(kinds, lo, j, kind).len() as int;
    assert(b[r] == j);
    if r < x {
        assert(b[r] < b[x]);
    } else if r > x {
        assert(b[x] < b[r]);
    }
}


/// Every line of a run without deletions or without additions has no emphasis.
proof fn lemma_unpaired_block_line(lines: Seq<DiffLine>, s: int, e: int, dels: Seq<usize>, adds: Seq<usize>, l: int)
    requires
        run_wf(kinds_of(lines), s, e, dels, adds),
        s <= l < e,
        dels.len() == 0 || adds.len() == 0,
    ensures
        line_emphasis(lines, l) == Seq::<InlineRange>::empty(),
{
    let kinds = kinds_of(lines);
    lemma_same_run(kinds, s, l);
    lemma_run_bounds(kinds, s);
    assert(as_ints(dels).len() == dels.len());
    assert(as_ints(adds).len() == adds.len());
    assert(line_emphasis(lines, l) =~= Seq::<InlineRange>::empty());
}

/// A line of a run is listed among the run's lines of its kind.
proof fn lemma_line_listed(lines: Seq<DiffLine>, s: int, e: int, line: int, v: Seq<usize>, kind: DiffLineKind) -> (r: int)
    requires
        0 <= s <= line < e <= lines.len(),
        kinds_of(lines)[line] == kind,
        as_ints(v) == kind_indices(kinds_of(lines), s, e, kind),
    ensures
        0 <= r < v.len(),
        v[r] == line,
        r == kind_indices(kinds_of(lines), s, line, kind).len(),
{
    let kinds = kinds_of(lines);
    lemma_kind_index_at_rank(kinds, s, line, e, kind);
    let r = kind_indices(kinds, s, line, kind).len() as int;
    assert(as_ints(v)[r] == line);
    r
}

/// The n-th deletion of a run pairs with its n-th addition, if there is one.
proof fn lemma_deletion_pair(lines: Seq<DiffLine>, s: int, e: int, dels: Seq<usize>, adds: Seq<usize>, line: int, p: int)
    requires
        run_wf(kinds_of(lines), s, e, dels, adds),
        0 <= p < dels.len(),
        dels[p] == line,
    ensures
        s <= line < e,
        kinds_of(lines)[line] == DiffLineKind::Deletion,
        p == kind_indices(kinds_of(lines), s, line, DiffLineKind::Deletion).len(),
        p < adds.len() ==> {
            let n = adds[p] as int;
            &&& s <= n < e
            &&& n != line
            &&& kinds_of(lines)[n] == DiffLineKind::Addition
            &&& p == kind_indices(kinds_of(lines), s, n, DiffLineKind::Addition).len()
            &&& line_emphasis(lines, line) == changed_ranges_spec(lines[line].text@, lines[n].text@).0
            &&& line_emphasis(lines, n) == changed_ranges_spec(lines[line].text@, lines[n].text@).1
        },
        p >= adds.len() ==> line_emphasis(lines, line) == Seq::<InlineRange>::empty(),
{
    let kinds = kinds_of(lines);
    let ds = kind_indices(kinds, s, e, DiffLineKind::Deletion);
    let as_ = kind_indices(kinds, s, e, DiffLineKind::Addition);
    lemma_kind_indices(kinds, s, e, DiffLineKind::Deletion);
    lemma_kind_indices(kinds, s, e, DiffLineKind::Addition);
    assert(as_ints(dels)[p] == line);
    assert(ds[p] == line);
    lemma_rank_of_index(kinds, s, e, DiffLineKind::Deletion, p);
    lemma_same_run(kinds, s, line);
    if p < adds.len() {
        let n = adds[p] as int;
        assert(as_ints(adds)[p] == n);
        assert(as_[p] == n);
        lemma_same_run(kinds, s, n);
        lemma_rank_of_index(kinds, s, e, DiffLineKind::Addition, p);
    }
}

/// The n-th addition of a run pairs with its n-th deletion, if there is one.
proof fn lemma_addition_pair(lines: Seq<DiffLine>, s: int, e: int, dels: Seq<usize>, adds: Seq<usize>, line: int, p: int)
    requires
        run_wf(kinds_of(lines), s, e, dels, adds),
        0 <= p < adds.len(),
        adds[p] == line,
    ensures
        s <= line < e,
        kinds_of(lines)[line] == DiffLineKind::Addition,
        p == kind_indices(kinds_of(lines), s, line, DiffLineKind::Addition).len(),
        p < dels.len() ==> {
            let o = dels[p] as int;
            &&& s <= o < e
            &&& o != line
            &&& kinds_of(lines)[o] == DiffLineKind::Deletion
            &&& p == kind_indices(kinds_of(lines), s, o, DiffLineKind::Deletion).len()
            &&& line_emphasis(lines, o) == changed_ranges_spec(lines[o].text@, lines[line].text@).0
            &&& line_emphasis(lines, line) == changed_ranges_spec(lines[o].text@, lines[line].text@).1
        },
        p >= dels.len() ==> line_emphasis(lines, line) == Seq::<InlineRange>::empty(),
{
    let kinds = kinds_of(lines);
    let ds = kind_indices(kinds, s, e, DiffLineKind::Deletion);
    let as_ = kind_indices(kinds, s, e, DiffLineKind::Addition);
    lemma_kind_indices(kinds, s, e, DiffLineKind::Deletion);
    lemma_kind_indices(kinds, s, e, DiffLineKind::Addition);
    assert(as_ints(adds)[p] == line);
    assert(as_[p] == line);
    lemma_rank_of_index(kinds, s, e, DiffLineKind::Addition, p);
    lemma_same_run(kinds, s, line);
    if p < dels.len() {
        let o = dels[p] as int;
        assert(as_ints(dels)[p] == o);
        assert(ds[p] == o);
        lemma_same_run(kinds, s, o);
        lemma_rank_of_index(kinds, s, e, DiffLineKind::Deletion, p);
    }
}

/// Indices as integers.
pub open spec fn as_ints(v: Seq<usize>) -> Seq<int> {
    v.map_values(|x: usize| x as int)
}

/// Lines `s..e` are exactly one run of changes, whose deletions and additions
/// are `dels` and `adds`, in order.
pub open spec fn run_wf(kinds: Seq<DiffLineKind>, s: int, e: int, dels: Seq<usize>, adds: Seq<usize>) -> bool {
    &&& 0 <= s < e <= kinds.len()
    &&& is_change(kinds[s])
    &&& run_start(kinds, s) == s
    &&& run_stop(kinds, s) == e
    &&& as_ints(dels) == kind_indices(kinds, s, e, DiffLineKind::Deletion)
    &&& as_ints(adds) == kind_indices(kinds, s, e, DiffLineKind::Addition)
}

/// Block `b` is exactly one run of changes, with its deletions and additions.
pub open spec fn block_wf(kinds: Seq<DiffLineKind>, b: InlineChangedBlock) -> bool {
    run_wf(kinds, b.start as int, b.end as int, b.deletions@, b.additions@)
}

/// The blocks are runs of changes and every changed line lies in one.
pub open spec fn blocks_wf(kinds: Seq<DiffLineKind>, blocks: Seq<InlineChangedBlock>) -> bool {
    &&& forall|i: int| 0 <= i < blocks.len() ==> block_wf(kinds, #[trigger] blocks[i])
    &&& forall|k: int| 0 <= k < kinds.len() && is_change(#[trigger] kinds[k]) ==> exists|i: int|
        0 <= i < blocks.len() && (#[trigger] blocks[i]).start <= k < blocks[i].end
}

/// Cache of per-line inline emphasis for one hunk.
pub struct InlineHunkEmphasisCache {
    pub lines: Vec<Option<InlineLineEmphasis>>,
    pub blocks: Vec<InlineChangedBlock>,
}

/// The block of the run of changes that starts at line `start`.
fn scan_block(lines: &[DiffLine], start: usize) -> (b: InlineChangedBlock)
    requires
        start < lines@.len(),
        is_change(kinds_of(lines@)[start as int]),
        run_start(kinds_of(lines@), start as int) == start,
    ensures
        block_wf(kinds_of(lines@), b),
        b.start == start,
        b.end < lines@.len() ==> !is_change(kinds_of(lines@)[b.end as int]),
{
    let ghost kinds = kinds_of(lines@);
    let mut index = start;
    let mut deletions: Vec<usize> = Vec::new();
    let mut additions: Vec<usize> = Vec::new();
    proof {
        assert(as_ints(deletions@) =~= kind_indices(kinds, start as int, start as int, DiffLineKind::Deletion));
        assert(as_ints(additions@) =~= kind_indices(kinds, start as int, start as int, DiffLineKind::Addition));
    }
    while index < lines.len() && (lines[index].kind == DiffLineKind::Deletion || lines[index].kind == DiffLineKind::Addition)
        invariant
            start <= index <= lines@.len(),
            start < lines@.len(),
            kinds == kinds_of(lines@),
            forall|j: int| start <= j < index ==> is_change(#[trigger] kinds[j]),
            as_ints(deletions@) == kind_indices(kinds, start as int, index as int, DiffLineKind::Deletion),
            as_ints(additions@) == kind_indices(kinds, start as int, index as int, DiffLineKind::Addition),
        decreases lines@.len() - index,
    {
        if lines[index].kind == DiffLineKind::Deletion {
            deletions.push(index);
        } else {
            additions.push(index);
        }
        proof {
            assert(as_ints(deletions@) =~= kind_indices(kinds, start as int, index as int + 1, DiffLineKind::Deletion));
            assert(as_ints(additions@) =~= kind_indices(kinds, start as int, index as int + 1, DiffLineKind::Addition));
        }
        index += 1;
    }
    proof {
        lemma_run_stop_walk(kinds, start as int, index as int);
        assert(run_stop(kinds, index as int) == index);
        assert(index > start);
    }
    InlineChangedBlock { start, end: index, deletions, additions }
}

impl InlineHunkEmphasisCache {
    /// The cache fits the hunk `src`: one slot per line, the blocks of its
    /// changes, and every filled slot holds that line's emphasis.
    pub open spec fn wf(&self, src: Seq<DiffLine>) -> bool {
        &&& self.lines@.len() == src.len()
        &&& blocks_wf(kinds_of(src), self.blocks@)
        &&& forall|k: int| 0 <= k < src.len() ==> (#[trigger] self.lines@[k] matches Some(e) ==> e.ranges@ == line_emphasis(src, k))
    }

    /// An empty cache for a hunk: its changed blocks found, no line computed.
    #[verifier::rlimit(40)]
    pub fn new(lines: &[DiffLine]) -> (r: Self)
        ensures
            r.wf(lines@),
            forall|k: int| 0 <= k < lines@.len() ==> #[trigger] r.lines@[k] is None,
    {
        let ghost kinds = kinds_of(lines@);
        let mut blocks: Vec<InlineChangedBlock> = Vec::new();
        let mut index: usize = 0;
        while index < lines.len()
            invariant
                index <= lines@.len(),
                kinds == kinds_of(lines@),
                (index < lines@.len() && is_change(kinds[index as int])) ==> run_start(kinds, index as int) == index,
                forall|i: int| 0 <= i < blocks@.len() ==> block_wf(kinds, #[trigger] blocks@[i]),
                forall|i: int| 0 <= i < blocks@.len() ==> (#[trigger] blocks@[i]).end <= index,
                forall|k: int| 0 <= k < index && is_change(#[trigger] kinds[k]) ==> exists|i: int|
                    0 <= i < blocks@.len() && (#[trigger] blocks@[i]).start <= k < blocks@[i].end,
            decreases lines@.len() - index,
        {
            let kind = lines[index].kind;
            if !(kind == DiffLineKind::Deletion || kind == DiffLineKind::Addition) {
                index += 1;
                continue;
            }
            let block = scan_block(lines, index);
            proof {
                lemma_run_stop(kinds, index as int);
            }
            let start = index;
            let ghost old_blocks = blocks@;
            index = block.end;
            blocks.push(block);
            proof {
                assert(block_wf(kinds, blocks@[blocks@.len() - 1]));
                assert forall|k: int| 0 <= k < index && is_change(#[trigger] kinds[k]) implies exists|i: int|
                    0 <= i < blocks@.len() && (#[trigger] blocks@[i]).start <= k < blocks@[i].end by {
                    if k >= start {
                        assert(blocks@[blocks@.len() - 1].start <= k < blocks@[blocks@.len() - 1].end);
                    } else {
                        let i = choose|i: int| 0 <= i < old_blocks.len() && (#[trigger] old_blocks[i]).start <= k < old_blocks[i].end;
                        assert(blocks@[i] == old_blocks[i]);
                        assert(blocks@[i].start <= k < blocks@[i].end);
                    }
                }
            }
        }
        let mut slots: Vec<Option<InlineLineEmphasis>> = Vec::new();
        let mut i: usize = 0;
        while i < lines.len()
            invariant
                i <= lines@.len(),
                slots@.len() == i,
                forall|k: int| 0 <= k < i ==> #[trigger] slots@[k] is None,
            decreases lines@.len() - i,
        {
            slots.push(None);
            i += 1;
        }
        InlineHunkEmphasisCache { lines: slots, blocks }
    }

    /// Stores the emphasis of one line; out-of-range lines are ignored.
    pub fn set_emphasis(&mut self, line: usize, ranges: Vec<InlineRange>)
        ensures
            final(self).blocks == old(self).blocks,
            line < old(self).lines@.len() ==> final(self).lines@ == old(self).lines@.update(
                line as int,
                Some(InlineLineEmphasis { ranges }),
            ),
            line >= old(self).lines@.len() ==> final(self).lines@ == old(self).lines@,
    {
        if line < self.lines.len() {
            self.lines.set(line, Some(InlineLineEmphasis { ranges }));
        }
    }

    /// Computes and stores the emphasis of `line` and of the line it pairs
    /// with (or of its whole block when the block cannot pair lines).
    pub fn compute_line(&mut self, lines: &[DiffLine], line: usize)
        requires
            old(self).wf(lines@),
        ensures
            final(self).wf(lines@),
            line < lines@.len() ==> final(self).lines@[line as int] is Some,
    {
        let ghost kinds = kinds_of(lines@);
        if line >= lines.len() {
            return;
        }
        let kind = lines[line].kind;
        if !(kind == DiffLineKind::Deletion || kind == DiffLineKind::Addition) {
            self.set_emphasis(line, Vec::new());
            proof {
                assert(line_emphasis(lines@, line as int) =~= Seq::<InlineRange>::empty());
            }
            return;
        }
        let mut bi: usize = 0;
        while bi < self.blocks.len()
            invariant_except_break
                bi <= self.blocks@.len(),
                forall|j: int| 0 <= j < bi ==> !((#[trigger] self.blocks@[j]).start <= line < self.blocks@[j].end),
            ensures
                bi <= self.blocks@.len(),
                bi < self.blocks@.len() ==> self.blocks@[bi as int].start <= line < self.blocks@[bi as int].end,
                bi == self.blocks@.len() ==> forall|j: int| 0 <= j < bi ==> !((#[trigger] self.blocks@[j]).start <= line < self.blocks@[j].end),
            decreases self.blocks@.len() - bi,
        {
            if self.blocks[bi].start <= line && line < self.blocks[bi].end {
                break;
            }
            bi += 1;
        }
        if bi == self.blocks.len() {
            proof {
                assert(is_change(kinds[line as int]));
                let i = choose|i: int| 0 <= i < self.blocks@.len() && (#[trigger] self.blocks@[i]).start <= line < self.blocks@[i].end;
                assert(!(self.blocks@[i].start <= line < self.blocks@[i].end));
            }
            return;
        }
        proof {
            assert(block_wf(kinds, self.blocks@[bi as int]));
        }
        let no_dels = self.blocks[bi].deletions.len() == 0;
        let no_adds = self.blocks[bi].additions.len() == 0;
        if no_dels || no_adds {
            self.clear_block(lines, bi);
        } else if kind == DiffLineKind::Deletion {
            self.emphasize_deletion(lines, bi, line);
        } else {
            self.emphasize_addition(lines, bi, line);
        }
    }

    /// Stores the emphasis of line `k`, which must be that line's emphasis.
    fn store(&mut self, lines: &[DiffLine], k: usize, ranges: Vec<InlineRange>)
        requires
            old(self).wf(lines@),
            k < lines@.len(),
            ranges@ == line_emphasis(lines@, k as int),
        ensures
            final(self).wf(lines@),
            final(self).blocks@ == old(self).blocks@,
            final(self).lines@ == old(self).lines@.update(k as int, Some(InlineLineEmphasis { ranges })),
    {
        self.set_emphasis(k, ranges);
    }

    fn clear_block(&mut self, lines: &[DiffLine], bi: usize)
        requires
            old(self).wf(lines@),
            bi < old(self).blocks@.len(),
            old(self).blocks@[bi as int].deletions@.len() == 0 || old(self).blocks@[bi as int].additions@.len() == 0,
        ensures
            final(self).wf(lines@),
            forall|j: int| old(self).blocks@[bi as int].start <= j < old(self).blocks@[bi as int].end ==> #[trigger] final(self).lines@[j] is Some,
    {
        let ghost kinds = kinds_of(lines@);
        let start = self.blocks[bi].start;
        let end = self.blocks[bi].end;
        proof {
            assert(block_wf(kinds, self.blocks@[bi as int]));
        }
        let mut l = start;
        while l < end
            invariant
                start <= l <= end,
                end <= lines@.len(),
                self.wf(lines@),
                self.blocks@ == old(self).blocks@,
                kinds == kinds_of(lines@),
                start == old(self).blocks@[bi as int].start,
                end == old(self).blocks@[bi as int].end,
                block_wf(kinds, self.blocks@[bi as int]),
                old(self).blocks@[bi as int].deletions@.len() == 0 || old(self).blocks@[bi as int].additions@.len() == 0,
                forall|j: int| start <= j < l ==> #[trigger] self.lines@[j] is Some,
            decreases end - l,
        {
            proof {
                lemma_unpaired_block_line(lines@, start as int, end as int, self.blocks@[bi as int].deletions@, self.blocks@[bi as int].additions@, l as int);
            }
            self.store(lines, l, Vec::new());
            l += 1;
        }
    }

    #[verifier::rlimit(30)]
    fn emphasize_deletion(&mut self, lines: &[DiffLine], bi: usize, line: usize)
        requires
            old(self).wf(lines@),
            bi < old(self).blocks@.len(),
            old(self).blocks@[bi as int].start <= line < old(self).blocks@[bi as int].end,
            kinds_of(lines@)[line as int] == DiffLineKind::Deletion,
        ensures
            final(self).wf(lines@),
            final(self).lines@[line as int] is Some,
    {
        proof {
            assert(block_wf(kinds_of(lines@), self.blocks@[bi as int]));
        }
        let found = position_of(&self.blocks[bi].deletions, line);
        match found {
            Some(p) => {
                proof {
                    let b = self.blocks@[bi as int];
                    lemma_deletion_pair(lines@, b.start as int, b.end as int, b.deletions@, b.additions@, line as int, p as int);
                }
                if p < self.blocks[bi].additions.len() {
                    let new_index = self.blocks[bi].additions[p];
                    let (old_ranges, new_ranges) = changed_token_ranges(
                        lines[line].text.as_str(),
                        lines[new_index].text.as_str(),
                    );
                    self.store(lines, line, old_ranges);
                    self.store(lines, new_index, new_ranges);
                } else {
                    self.store(lines, line, Vec::new());
                }
            },
            None => {
                proof {
                    let r = lemma_line_listed(lines@, self.blocks@[bi as int].start as int, self.blocks@[bi as int].end as int, line as int, self.blocks@[bi as int].deletions@, DiffLineKind::Deletion);
                    assert(self.blocks@[bi as int].deletions@[r] == line);
                }
            },
        }
    }

    #[verifier::rlimit(30)]
    fn emphasize_addition(&mut self, lines: &[DiffLine], bi: usize, line: usize)
        requires
            old(self).wf(lines@),
            bi < old(self).blocks@.len(),
            old(self).blocks@[bi as int].start <= line < old(self).blocks@[bi as int].end,
            kinds_of(lines@)[line as int] == DiffLineKind::Addition,
        ensures
            final(self).wf(lines@),
            final(self).lines@[line as int] is Some,
    {
        proof {
            assert(block_wf(kinds_of(lines@), self.blocks@[bi as int]));
        }
        let found = position_of(&self.blocks[bi].additions, line);
        match found {
            Some(p) => {
                proof {
                    let b = self.blocks@[bi as int];
                    lemma_addition_pair(lines@, b.start as int, b.end as int, b.deletions@, b.additions@, line as int, p as int);
                }
                if p < self.blocks[bi].deletions.len() {
                    let old_index = self.blocks[bi].deletions[p];
                    let (old_ranges, new_ranges) = changed_token_ranges(
                        lines[old_index].text.as_str(),
                        lines[line].text.as_str(),
                    );
                    self.store(lines, old_index, old_ranges);
                    self.store(lines, line, new_ranges);
                } else {
                    self.store(lines, line, Vec::new());
                }
            },
            None => {
                proof {
                    let r = lemma_line_listed(lines@, self.blocks@[bi as int].start as int, self.blocks@[bi as int].end as int, line as int, self.blocks@[bi as int].additions@, DiffLineKind::Addition);
                    assert(self.blocks@[bi as int].additions@[r] == line);
                }
            },
        }
    }

    /// The emphasis of `line`, computed on first use and cached.
    pub fn ranges_for_line(&mut self, lines: &[DiffLine], line: usize) -> (r: Vec<InlineRange>)
        requires
            old(self).wf(lines@),
        ensures
            final(self).wf(lines@),
            r@ == line_emphasis(lines@, line as int),
    {
        if line < self.lines.len() {
            if let Some(emphasis) = &self.lines[line] {
                return copy_ranges(&emphasis.ranges);
            }
        }
        self.compute_line(lines, line);
        if line < self.lines.len() {
            if let Some(emphasis) = &self.lines[line] {
                return copy_ranges(&emphasis.ranges);
            }
        }
        assert(line_emphasis(lines@, line as int) =~= Seq::<InlineRange>::empty());
        Vec::new()
    }
}

/// The position of `x` in `v`, if it occurs.
fn position_of(v: &Vec<usize>, x: usize) -> (r: Option<usize>)
    ensures
        r matches Some(p) ==> p < v@.len() && v@[p as int] == x,
        r is None ==> forall|j: int| 0 <= j < v@.len() ==> v@[j] != x,
{
    let mut i: usize = 0;
    while i < v.len()
        invariant
            i <= v@.len(),
            forall|j: int| 0 <= j < i ==> v@[j] != x,
        decreases v@.len() - i,
    {
        if v[i] == x {
            return Some(i);
        }
        i += 1;
    }
    None
}

/// A copy of a list of ranges.
pub fn copy_ranges(ranges: &Vec<InlineRange>) -> (r: Vec<InlineRange>)
    ensures
        r@ == ranges@,
{
    let mut out: Vec<InlineRange> = Vec::new();
    let mut i: usize = 0;
    while i < ranges.len()
        invariant
            i <= ranges@.len(),
            out@ == ranges@.take(i as int),
        decreases ranges@.len() - i,
    {
        out.push(ranges[i]);
        i += 1;
        assert(out@ =~= ranges@.take(i as int));
    }
    assert(out@ =~= ranges@);
    out
}

/// The ranges of each line's emphasis.
pub open spec fn ranges_of(e: Seq<InlineLineEmphasis>) -> Seq<Seq<InlineRange>> {
    e.map_values(|x: InlineLineEmphasis| x.ranges@)
}

/// Pairing step `i` of a block: its `i`-th deletion gets the changed tokens
/// against its `i`-th addition and the other way round; a line without a
/// partner gets no emphasis.
pub open spec fn pair_step(
    lines: Seq<DiffLine>,
    dels: Seq<usize>,
    adds: Seq<usize>,
    e: Seq<Seq<InlineRange>>,
    i: int,
) -> Seq<Seq<InlineRange>> {
    if i < dels.len() && i < adds.len() {
        let d = dels[i] as int;
        let a = adds[i] as int;
        let c = changed_ranges_spec(lines[d].text@, lines[a].text@);
        e.update(d, c.0).update(a, c.1)
    } else if i < dels.len() {
        e.update(dels[i] as int, Seq::empty())
    } else if i < adds.len() {
        e.update(adds[i] as int, Seq::empty())
    } else {
        e
    }
}

/// The first `n` pairing steps of a block, in order.
pub open spec fn pair_steps(
    lines: Seq<DiffLine>,
    dels: Seq<usize>,
    adds: Seq<usize>,
    e: Seq<Seq<InlineRange>>,
    n: int,
) -> Seq<Seq<InlineRange>>
    decreases n,
{
    if n <= 0 {
        e
    } else {
        pair_step(lines, dels, adds, pair_steps(lines, dels, adds, e, n - 1), n - 1)
    }
}

/// Line `k` of run `s..e` is among the first `n` of its kind.
pub open spec fn handled(lines: Seq<DiffLine>, s: int, e: int, k: int, n: int) -> bool {
    let kinds = kinds_of(lines);
    &&& s <= k < e
    &&& kind_indices(kinds, s, k, kinds[k]).len() < n
}

proof fn lemma_pair_step_at(
    lines: Seq<DiffLine>,
    s: int,
    e: int,
    dels: Seq<usize>,
    adds: Seq<usize>,
    cur: Seq<Seq<InlineRange>>,
    e0: Seq<Seq<InlineRange>>,
    n: int,
    k: int,
)
    requires
        run_wf(kinds_of(lines), s, e, dels, adds),
        0 <= n,
        cur.len() == lines.len(),
        e0.len() == lines.len(),
        0 <= k < lines.len(),
        forall|j: int| 0 <= j < lines.len() ==> #[trigger] cur[j] == if handled(lines, s, e, j, n) {
            line_emphasis(lines, j)
        } else {
            e0[j]
        },
    ensures
        pair_step(lines, dels, adds, cur, n).len() == lines.len(),
        pair_step(lines, dels, adds, cur, n)[k] == if handled(lines, s, e, k, n + 1) {
            line_emphasis(lines, k)
        } else {
            e0[k]
        },
{
    let kinds = kinds_of(lines);
    if n < dels.len() {
        lemma_deletion_pair(lines, s, e, dels, adds, dels[n] as int, n);
    }
    if n < adds.len() {
        lemma_addition_pair(lines, s, e, dels, adds, adds[n] as int, n);
    }
    let is_d = n < dels.len() && k == dels[n] as int;
    let is_a = n < adds.len() && k == adds[n] as int;
    if !is_d && !is_a {
        assert(pair_step(lines, dels, adds, cur, n)[k] == cur[k]);
        if s <= k < e {
            lemma_run_bounds(kinds, s);
            if kinds[k] == DiffLineKind::Deletion {
                let r = lemma_line_listed(lines, s, e, k, dels, DiffLineKind::Deletion);
                assert(r != n);
            } else {
                assert(kinds[k] == DiffLineKind::Addition);
                let r = lemma_line_listed(lines, s, e, k, adds, DiffLineKind::Addition);
                assert(r != n);
            }
        }
    }
}

proof fn lemma_pair_steps(
    lines: Seq<DiffLine>,
    s: int,
    e: int,
    dels: Seq<usize>,
    adds: Seq<usize>,
    e0: Seq<Seq<InlineRange>>,
    n: int,
)
    requires
        run_wf(kinds_of(lines), s, e, dels, adds),
        0 <= n,
        e0.len() == lines.len(),
    ensures
        pair_steps(lines, dels, adds, e0, n).len() == lines.len(),
        forall|k: int| 0 <= k < lines.len() ==> #[trigger] pair_steps(lines, dels, adds, e0, n)[k] == if handled(lines, s, e, k, n) {
            line_emphasis(lines, k)
        } else {
            e0[k]
        },
    decreases n,
{
    if n > 0 {
        lemma_pair_steps(lines, s, e, dels, adds, e0, n - 1);
        let cur = pair_steps(lines, dels, adds, e0, n - 1);
        assert forall|k: int| 0 <= k < lines.len() implies #[trigger] pair_steps(lines, dels, adds, e0, n)[k] == if handled(lines, s, e, k, n) {
            line_emphasis(lines, k)
        } else {
            e0[k]
        } by {
            lemma_pair_step_at(lines, s, e, dels, adds, cur, e0, n - 1, k);
        }
        lemma_pair_step_at(lines, s, e, dels, adds, cur, e0, n - 1, 0);
    } else {
        assert forall|k: int| 0 <= k < lines.len() implies !handled(lines, s, e, k, n) by {}
    }
}

/// After all pairing steps of a run, each line of the run holds its emphasis.
proof fn lemma_run_emphasis(
    lines: Seq<DiffLine>,
    s: int,
    e: int,
    dels: Seq<usize>,
    adds: Seq<usize>,
    e0: Seq<Seq<InlineRange>>,
    n: int,
)
    requires
        run_wf(kinds_of(lines), s, e, dels, adds),
        e0.len() == lines.len(),
        n == if dels.len() > adds.len() { dels.len() as int } else { adds.len() as int },
    ensures
        pair_steps(lines, dels, adds, e0, n).len() == lines.len(),
        forall|k: int| 0 <= k < lines.len() ==> #[trigger] pair_steps(lines, dels, adds, e0, n)[k] == if s <= k < e {
            line_emphasis(lines, k)
        } else {
            e0[k]
        },
{
    let kinds = kinds_of(lines);
    lemma_pair_steps(lines, s, e, dels, adds, e0, n);
    lemma_run_bounds(kinds, s);
    assert forall|k: int| s <= k < e implies handled(lines, s, e, k, n) by {
        lemma_kind_index_at_rank(kinds, s, k, e, kinds[k]);
        assert(as_ints(dels).len() == dels.len());
        assert(as_ints(adds).len() == adds.len());
    }
}

/// Applies every pairing step of one block to `emphasis`.
pub fn compute_changed_block_inline_emphasis(
    lines: &[DiffLine],
    deletions: &[usize],
    additions: &[usize],
    emphasis: &mut [InlineLineEmphasis],
)
    requires
        forall|i: int| 0 <= i < deletions@.len() ==> #[trigger] deletions@[i] < lines@.len() && deletions@[i] < old(emphasis)@.len(),
        forall|i: int| 0 <= i < additions@.len() ==> #[trigger] additions@[i] < lines@.len() && additions@[i] < old(emphasis)@.len(),
    ensures
        final(emphasis)@.len() == old(emphasis)@.len(),
        ranges_of(final(emphasis)@) == pair_steps(
            lines@,
            deletions@,
            additions@,
            ranges_of(old(emphasis)@),
            if deletions@.len() > additions@.len() { deletions@.len() as int } else { additions@.len() as int },
        ),
{
    let paired_rows = if deletions.len() > additions.len() { deletions.len() } else { additions.len() };
    let mut pair_index: usize = 0;
    while pair_index < paired_rows
        invariant
            pair_index <= paired_rows,
            paired_rows == if deletions@.len() > additions@.len() { deletions@.len() } else { additions@.len() },
            emphasis@.len() == old(emphasis)@.len(),
            forall|i: int| 0 <= i < deletions@.len() ==> #[trigger] deletions@[i] < lines@.len() && deletions@[i] < emphasis@.len(),
            forall|i: int| 0 <= i < additions@.len() ==> #[trigger] additions@[i] < lines@.len() && additions@[i] < emphasis@.len(),
            ranges_of(emphasis@) == pair_steps(lines@, deletions@, additions@, ranges_of(old(emphasis)@), pair_index as int),
        decreases paired_rows - pair_index,
    {
        let ghost before = ranges_of(emphasis@);
        if pair_index < deletions.len() && pair_index < additions.len() {
            let deletion = deletions[pair_index];
            let addition = additions[pair_index];
            let (old_ranges, new_ranges) = changed_token_ranges(
                lines[deletion].text.as_str(),
                lines[addition].text.as_str(),
            );
            emphasis[deletion] = InlineLineEmphasis { ranges: old_ranges };
            emphasis[addition] = InlineLineEmphasis { ranges: new_ranges };
        } else if pair_index < deletions.len() {
            let deletion = deletions[pair_index];
            emphasis[deletion] = InlineLineEmphasis { ranges: Vec::new() };
        } else if pair_index < additions.len() {
            let addition = additions[pair_index];
            emphasis[addition] = InlineLineEmphasis { ranges: Vec::new() };
        }
        assert(ranges_of(emphasis@) =~= pair_step(lines@, deletions@, additions@, before, pair_index as int));
        pair_index += 1;
    }
}

/// The emphasis of every line of a hunk, computed block by block.
pub fn compute_hunk_inline_emphasis(lines: &[DiffLine]) -> (r: Vec<InlineLineEmphasis>)
    ensures
        r@.len() == lines@.len(),
        forall|k: int| 0 <= k < lines@.len() ==> (#[trigger] r@[k]).ranges@ == line_emphasis(lines@, k),
{
    let ghost kinds = kinds_of(lines@);
    let mut emphasis: Vec<InlineLineEmphasis> = Vec::new();
    let mut i: usize = 0;
    while i < lines.len()
        invariant
            i <= lines@.len(),
            emphasis@.len() == i,
            forall|k: int| 0 <= k < i ==> (#[trigger] emphasis@[k]).ranges@ == Seq::<InlineRange>::empty(),
        decreases lines@.len() - i,
    {
        emphasis.push(InlineLineEmphasis { ranges: Vec::new() });
        i += 1;
    }
    let mut index: usize = 0;
    while index < lines.len()
        invariant
            index <= lines@.len(),
            kinds == kinds_of(lines@),
            emphasis@.len() == lines@.len(),
            (index < lines@.len() && is_change(kinds[index as int])) ==> run_start(kinds, index as int) == index,
            forall|k: int| 0 <= k < lines@.len() ==> (#[trigger] emphasis@[k]).ranges@ == if k < index {
                line_emphasis(lines@, k)
            } else {
                Seq::<InlineRange>::empty()
            },
        decreases lines@.len() - index,
    {
        let kind = lines[index].kind;
        if kind == DiffLineKind::Deletion || kind == DiffLineKind::Addition {
            let block = scan_block(lines, index);
            let ghost before = ranges_of(emphasis@);
            proof {
                lemma_kind_indices(kinds, block.start as int, block.end as int, DiffLineKind::Deletion);
                lemma_kind_indices(kinds, block.start as int, block.end as int, DiffLineKind::Addition);
                assert forall|i: int| 0 <= i < block.deletions@.len() implies #[trigger] block.deletions@[i] < lines@.len() by {
                    assert(as_ints(block.deletions@)[i] == block.deletions@[i]);
                }
                assert forall|i: int| 0 <= i < block.additions@.len() implies #[trigger] block.additions@[i] < lines@.len() by {
                    assert(as_ints(block.additions@)[i] == block.additions@[i]);
                }
                lemma_run_emphasis(
                    lines@,
                    block.start as int,
                    block.end as int,
                    block.deletions@,
                    block.additions@,
                    before,
                    if block.deletions@.len() > block.additions@.len() {
                        block.deletions@.len() as int
                    } else {
                        block.additions@.len() as int
                    },
                );
            }
            compute_changed_block_inline_emphasis(
                lines,
                block.deletions.as_slice(),
                block.additions.as_slice(),
                emphasis.as_mut_slice(),
            );
            proof {
                let n = if block.deletions@.len() > block.additions@.len() {
                    block.deletions@.len() as int
                } else {
                    block.additions@.len() as int
                };
                let steps = pair_steps(lines@, block.deletions@, block.additions@, before, n);
                assert(ranges_of(emphasis@) == steps);
                assert forall|k: int| 0 <= k < lines@.len() implies (#[trigger] emphasis@[k]).ranges@ == if k < block.end {
                    line_emphasis(lines@, k)
                } else {
                    Seq::<InlineRange>::empty()
                } by {
                    assert(ranges_of(emphasis@)[k] == emphasis@[k].ranges@);
                    assert(steps[k] == if block.start <= k < block.end { line_emphasis(lines@, k) } else { before[k] });
                    assert(before[k] == if k < index { line_emphasis(lines@, k) } else { Seq::<InlineRange>::empty() });
                }
            }
            index = block.end;
        } else {
            proof {
                assert(line_emphasis(lines@, index as int) =~= Seq::<InlineRange>::empty());
            }
            index += 1;
        }
    }
    emphasis
}

} // verus!
