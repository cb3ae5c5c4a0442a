//! What each row of the diff viewport shows: a (wrapped piece of a) diff
//! row, or a row of an annotation block below the row it belongs to.
use vstd::prelude::*;
use crate::annotations::{
    annotation_compose_block_height, annotation_saved_block_height, cursor_text, wrap_text,
    AnnotationDraft,
};

verus! {

/// What one viewport row shows.
#[derive(Debug, Clone, Copy, PartialEq, Eq, Structural)]
pub enum ViewportSlotKind {
    DiffVisual { visual_scroll: usize, model_row: usize },
    AnnotationCompose { model_row: usize },
    AnnotationSaved { model_row: usize },
}

/// One planned viewport row.
#[derive(Debug, Clone, Copy, PartialEq, Eq, Structural)]
pub struct ViewportSlot {
    pub kind: ViewportSlotKind,
}

/// One row of the diff model, as the viewport sees it: how many visual rows
/// it wraps into, the annotation key it can carry, and the text of the saved
/// annotation under that key, if there is one.
pub struct ViewportRow {
    pub wrap_height: usize,
    pub annotation_key: Option<u64>,
    pub saved_text: Option<String>,
}

/// The annotation being written, the row it is written on and its key.
pub struct ViewportDraft {
    pub model_row_index: usize,
    pub key: u64,
    pub draft: AnnotationDraft,
}

/// What the viewport plan reads: the rows, the scroll position (and, when
/// lines wrap, the row and wrapped line at that position), the viewport's
/// size, the draft and the mark drawn at a draft's cursor.
pub struct ViewportState {
    pub rows: Vec<ViewportRow>,
    pub scroll: usize,
    pub scroll_start: Option<(usize, usize)>,
    pub viewport_width: usize,
    pub viewport_rows: usize,
    pub line_wrapping: bool,
    pub draft: Option<ViewportDraft>,
    pub cursor_mark: String,
}

/// A count that saturates at `usize::MAX`.
pub open spec fn sat(n: int) -> int {
    if n > usize::MAX { usize::MAX as int } else { n }
}

/// Rows an annotation being written takes.
pub open spec fn compose_height(d: AnnotationDraft, width: usize, mark: Seq<char>) -> int {
    sat(wrap_text(cursor_text(d.input@, d.cursor as int, mark), width as nat).len() + 2int)
}

/// Rows a saved annotation takes.
pub open spec fn saved_height(text: Seq<char>, width: usize) -> int {
    sat(wrap_text(text, width as nat).len() + 2int)
}

/// `n` copies of one slot.
pub open spec fn slots(kind: ViewportSlotKind, n: int) -> Seq<ViewportSlot> {
    Seq::new(if n > 0 { n as nat } else { 0 }, |_i: int| ViewportSlot { kind })
}

/// The annotation rows under model row `r`: the draft's block when it is
/// written on that row; else the saved annotation of the row's key, unless
/// the draft edits that key; else none.
pub open spec fn annotation_slots(s: ViewportState, r: int) -> Seq<ViewportSlot> {
    match s.draft {
        Some(d) if d.model_row_index == r => slots(
            ViewportSlotKind::AnnotationCompose { model_row: r as usize },
            compose_height(d.draft, s.viewport_width, s.cursor_mark@),
        ),
        _ => match (s.rows@[r].annotation_key, s.rows@[r].saved_text) {
            (Some(k), Some(t)) => if s.draft is None || s.draft->0.key != k {
                slots(ViewportSlotKind::AnnotationSaved { model_row: r as usize }, saved_height(t@, s.viewport_width))
            } else {
                Seq::empty()
            },
            _ => Seq::empty(),
        },
    }
}

/// The slots of rows `r..` without wrapping: each row, then its annotation
/// rows.
pub open spec fn unwrapped_stream(s: ViewportState, r: int) -> Seq<ViewportSlot>
    decreases s.rows@.len() - r,
{
    if r < 0 || r >= s.rows@.len() {
        Seq::empty()
    } else {
        seq![ViewportSlot { kind: ViewportSlotKind::DiffVisual { visual_scroll: r as usize, model_row: r as usize } }]
            + annotation_slots(s, r) + unwrapped_stream(s, r + 1)
    }
}

/// The visual rows of row `r` from its wrapped line `from` on, numbered
/// from `visual`.
pub open spec fn visual_slots(r: int, from: int, height: int, visual: int) -> Seq<ViewportSlot> {
    let n = if height > from { height - from } else { 0 };
    Seq::new(n as nat, |i: int| ViewportSlot {
        kind: ViewportSlotKind::DiffVisual { visual_scroll: sat(visual + i) as usize, model_row: r as usize },
    })
}

/// The slots of rows `r..` with wrapping, starting at wrapped line `from`
/// of row `r` and at visual row `visual`.
pub open spec fn wrapped_stream(s: ViewportState, r: int, from: int, visual: int) -> Seq<ViewportSlot>
    decreases s.rows@.len() - r,
{
    if r < 0 || r >= s.rows@.len() {
        Seq::empty()
    } else {
        let h = s.rows@[r].wrap_height as int;
        let n = if h > from { h - from } else { 0 };
        visual_slots(r, from, h, visual) + annotation_slots(s, r) + wrapped_stream(s, r + 1, 0, sat(visual + n))
    }
}

/// The viewport's first `visible` rows without wrapping, from the scroll
/// position.
pub open spec fn unwrapped_plan(s: ViewportState, visible: int) -> Seq<ViewportSlot> {
    let all = unwrapped_stream(s, s.scroll as int);
    if all.len() > visible { all.take(visible) } else { all }
}

/// The viewport's first `visible` rows with wrapping.
pub open spec fn wrapped_plan(s: ViewportState, visible: int) -> Seq<ViewportSlot> {
    match s.scroll_start {
        None => Seq::empty(),
        Some((r, from)) => {
            let all = wrapped_stream(s, r as int, from as int, s.scroll as int);
            if all.len() > visible { all.take(visible) } else { all }
        },
    }
}

/// The slots appended, at most up to `visible` slots in all.
pub open spec fn capped_append(plans: Seq<ViewportSlot>, more: Seq<ViewportSlot>, visible: int) -> Seq<ViewportSlot> {
    let room = visible - plans.len();
    if room <= 0 {
        plans
    } else if more.len() > room {
        plans + more.take(room)
    } else {
        plans + more
    }
}

/// Appends `n` slots of one kind, stopping at `visible` slots in all.
fn push_slots(plans: &mut Vec<ViewportSlot>, kind: ViewportSlotKind, n: usize, visible_rows: usize)
    ensures
        final(plans)@ == capped_append(old(plans)@, slots(kind, n as int), visible_rows as int),
{
    let mut i: usize = 0;
    let ghost start = plans@;
    proof {
        assert(slots(kind, n as int).take(0) =~= Seq::<ViewportSlot>::empty());
        assert(plans@ =~= start + slots(kind, n as int).take(0));
        if n == 0 {
            assert(slots(kind, 0) =~= Seq::<ViewportSlot>::empty());
            assert(plans@ =~= capped_append(start, slots(kind, 0), visible_rows as int));
        }
    }
    while i < n
        invariant_except_break
            i <= n,
            plans@ == start + slots(kind, n as int).take(i as int),
            plans@.len() <= visible_rows || i == 0,
            i == n ==> plans@ == capped_append(start, slots(kind, n as int), visible_rows as int),
        ensures
            plans@ == capped_append(start, slots(kind, n as int), visible_rows as int),
        decreases n - i,
    {
        if plans.len() >= visible_rows {
            proof {
                assert(plans@ =~= capped_append(start, slots(kind, n as int), visible_rows as int));
            }
            break;
        }
        plans.push(ViewportSlot { kind });
        i += 1;
        proof {
            assert(plans@ =~= start + slots(kind, n as int).take(i as int));
            if i == n {
                assert(slots(kind, n as int).take(i as int) =~= slots(kind, n as int));
                assert(plans@ =~= capped_append(start, slots(kind, n as int), visible_rows as int));
            }
        }
    }
}

/// A slot sequence cut to at most `v` slots.
pub open spec fn cap(x: Seq<ViewportSlot>, v: int) -> Seq<ViewportSlot> {
    if x.len() > v { x.take(v) } else { x }
}

proof fn lemma_cap_append(x: Seq<ViewportSlot>, y: Seq<ViewportSlot>, v: int)
    requires
        v >= 0,
    ensures
        capped_append(cap(x, v), y, v) == cap(x + y, v),
{
    if x.len() > v {
        assert((x + y).take(v) =~= x.take(v));
    } else {
        let room = v - x.len();
        if y.len() > room {
            assert((x + y).take(v) =~= x + y.take(room));
        }
    }
}

/// Appends the rows of the draft's block below `model_row`.
pub fn push_compose_plan_slots(
    plans: &mut Vec<ViewportSlot>,
    model_row: usize,
    draft: &AnnotationDraft,
    width: usize,
    visible_rows: usize,
    mark: &str,
)
    ensures
        final(plans)@ == capped_append(
            old(plans)@,
            slots(ViewportSlotKind::AnnotationCompose { model_row }, compose_height(*draft, width, mark@)),
            visible_rows as int,
        ),
{
    let height = annotation_compose_block_height(draft, width, mark);
    push_slots(plans, ViewportSlotKind::AnnotationCompose { model_row }, height, visible_rows);
}

/// Appends the rows of a saved annotation's block below `model_row`.
pub fn push_saved_plan_slots(plans: &mut Vec<ViewportSlot>, model_row: usize, text: &str, width: usize, visible_rows: usize)
    ensures
        final(plans)@ == capped_append(
            old(plans)@,
            slots(ViewportSlotKind::AnnotationSaved { model_row }, saved_height(text@, width)),
            visible_rows as int,
        ),
{
    let height = annotation_saved_block_height(text, width);
    push_slots(plans, ViewportSlotKind::AnnotationSaved { model_row }, height, visible_rows);
}

/// Appends the annotation rows under model row `r`.
fn push_annotation_slots(plans: &mut Vec<ViewportSlot>, s: &ViewportState, r: usize, visible_rows: usize)
    requires
        r < s.rows@.len(),
    ensures
        final(plans)@ == capped_append(old(plans)@, annotation_slots(*s, r as int), visible_rows as int),
{
    match &s.draft {
        Some(d) => {
            if d.model_row_index == r {
                push_compose_plan_slots(plans, r, &d.draft, s.viewport_width, visible_rows, s.cursor_mark.as_str());
                return;
            }
        },
        None => {},
    }
    let row = &s.rows[r];
    match (row.annotation_key, &row.saved_text) {
        (Some(k), Some(t)) => {
            let edited = match &s.draft {
                Some(d) => d.key == k,
                None => false,
            };
            if !edited {
                push_saved_plan_slots(plans, r, t.as_str(), s.viewport_width, visible_rows);
            } else {
                proof {
                    assert(annotation_slots(*s, r as int) =~= Seq::<ViewportSlot>::empty());
                    assert(plans@ =~= capped_append(plans@, Seq::<ViewportSlot>::empty(), visible_rows as int));
                }
            }
        },
        _ => {
            proof {
                assert(annotation_slots(*s, r as int) =~= Seq::<ViewportSlot>::empty());
                assert(plans@ =~= capped_append(plans@, Seq::<ViewportSlot>::empty(), visible_rows as int));
            }
        },
    }
}

/// The viewport's rows without wrapping: from the scroll position, each
/// diff row followed by its annotation rows, cut at `visible_rows`.
pub fn plan_unwrapped_viewport_rows(s: &ViewportState, visible_rows: usize) -> (r: Vec<ViewportSlot>)
    ensures
        r@ == unwrapped_plan(*s, visible_rows as int),
{
    let mut plans: Vec<ViewportSlot> = Vec::new();
    let ghost mut acc: Seq<ViewportSlot> = Seq::empty();
    let ghost v = visible_rows as int;
    let mut offset: usize = 0;
    proof {
        assert(unwrapped_stream(*s, s.scroll as int) =~= acc + unwrapped_stream(*s, s.scroll as int));
        if v == 0 {
            assert(unwrapped_stream(*s, s.scroll as int).take(0) =~= Seq::<ViewportSlot>::empty());
        }
    }
    while offset < visible_rows
        invariant_except_break
            offset <= visible_rows,
            v == visible_rows as int,
            unwrapped_stream(*s, s.scroll as int) == acc + unwrapped_stream(*s, s.scroll + offset),
            plans@ == cap(acc, v),
            acc.len() >= offset,
            acc.len() >= v ==> plans@ == unwrapped_plan(*s, v),
        ensures
            plans@ == unwrapped_plan(*s, v),
        decreases visible_rows - offset,
    {
        if plans.len() >= visible_rows {
            proof {
                assert(acc.len() >= v);
                assert((acc + unwrapped_stream(*s, s.scroll + offset)).take(v) =~= acc.take(v));
            }
            break;
        }
        let visual_row = s.scroll.saturating_add(offset);
        if visual_row >= s.rows.len() {
            proof {
                assert(unwrapped_stream(*s, s.scroll + offset) =~= Seq::<ViewportSlot>::empty());
                assert(acc + unwrapped_stream(*s, s.scroll + offset) =~= acc);
            }
            break;
        }
        let ghost before = plans@;
        plans.push(ViewportSlot { kind: ViewportSlotKind::DiffVisual { visual_scroll: visual_row, model_row: visual_row } });
        let ghost first = seq![ViewportSlot { kind: ViewportSlotKind::DiffVisual { visual_scroll: visual_row, model_row: visual_row } }];
        proof {
            assert(plans@ =~= capped_append(before, first, v));
            lemma_cap_append(acc, first, v);
        }
        let ghost mid = plans@;
        push_annotation_slots(&mut plans, s, visual_row, visible_rows);
        proof {
            lemma_cap_append(acc + first, annotation_slots(*s, visual_row as int), v);
            assert(unwrapped_stream(*s, visual_row as int) == first + annotation_slots(*s, visual_row as int)
                + unwrapped_stream(*s, visual_row + 1));
            acc = acc + first + annotation_slots(*s, visual_row as int);
            assert(unwrapped_stream(*s, s.scroll as int) =~= acc + unwrapped_stream(*s, s.scroll + offset + 1));
            if acc.len() >= v {
                assert((acc + unwrapped_stream(*s, s.scroll + offset + 1)).take(v) =~= acc.take(v));
            }
        }
        offset += 1;
    }
    plans
}

/// Appends the first `take` visual rows of row `r` from wrapped line `from`,
/// numbered from `visual`; gives the next visual row number.
fn push_visual_slots(plans: &mut Vec<ViewportSlot>, r: usize, Ghost(from): Ghost<int>, Ghost(h): Ghost<int>, visual: usize, take: usize) -> (next: usize)
    requires
        take <= visual_slots(r as int, from, h, visual as int).len(),
    ensures
        final(plans)@ == old(plans)@ + visual_slots(r as int, from, h, visual as int).take(take as int),
        next as int == sat(visual + take),
{
    let ghost vs = visual_slots(r as int, from, h, visual as int);
    let ghost before = plans@;
    let mut visual_row = visual;
    let mut i: usize = 0;
    proof {
        assert(plans@ =~= before + vs.take(0));
    }
    while i < take
        invariant
            i <= take,
            take <= vs.len(),
            vs == visual_slots(r as int, from, h, visual as int),
            plans@ == before + vs.take(i as int),
            visual_row as int == sat(visual + i),
        decreases take - i,
    {
        plans.push(ViewportSlot { kind: ViewportSlotKind::DiffVisual { visual_scroll: visual_row, model_row: r } });
        proof {
            assert(vs[i as int] == ViewportSlot { kind: ViewportSlotKind::DiffVisual { visual_scroll: visual_row, model_row: r } });
            assert(plans@ =~= before + vs.take(i + 1));
        }
        visual_row = visual_row.saturating_add(1);
        i += 1;
    }
    visual_row
}

proof fn lemma_cap_prefix(x: Seq<ViewportSlot>, y: Seq<ViewportSlot>, v: int)
    requires
        0 <= v <= x.len(),
    ensures
        cap(x + y, v) == cap(x, v),
{
    if x.len() > v {
        assert((x + y).take(v) =~= x.take(v));
    } else {
        assert((x + y).take(v) =~= x);
        if y.len() == 0 {
            assert(x + y =~= x);
        }
    }
}

proof fn lemma_wrapped_step(s: ViewportState, r: int, from: int, visual: int)
    requires
        0 <= r < s.rows@.len(),
    ensures
        ({
            let h = s.rows@[r].wrap_height as int;
            let vs = visual_slots(r, from, h, visual);
            wrapped_stream(s, r, from, visual) == vs + annotation_slots(s, r) + wrapped_stream(s, r + 1, 0, sat(visual + vs.len()))
        }),
{
}

/// The viewport's rows with wrapping: from the row and wrapped line at the
/// scroll position, each diff row's visual rows numbered on from the scroll
/// position, followed by its annotation rows, cut at `visible_rows`.
pub fn plan_wrapped_viewport_rows(s: &ViewportState, visible_rows: usize) -> (r: Vec<ViewportSlot>)
    ensures
        r@ == wrapped_plan(*s, visible_rows as int),
{
    let mut plans: Vec<ViewportSlot> = Vec::new();
    let (mut row_index, mut row_offset) = match s.scroll_start {
        Some(start) => start,
        None => return plans,
    };
    let ghost whole = wrapped_stream(*s, row_index as int, row_offset as int, s.scroll as int);
    let ghost v = visible_rows as int;
    let mut visual_row = s.scroll;
    let ghost mut acc: Seq<ViewportSlot> = Seq::empty();
    proof {
        assert(whole =~= acc + whole);
        assert(wrapped_plan(*s, v) == cap(whole, v));
    }
    while plans.len() < visible_rows
        invariant_except_break
            v == visible_rows as int,
            wrapped_plan(*s, v) == cap(whole, v),
            whole == acc + wrapped_stream(*s, row_index as int, row_offset as int, visual_row as int),
            plans@ == cap(acc, v),
        ensures
            plans@ == wrapped_plan(*s, v),
        decreases s.rows@.len() - row_index,
    {
        if row_index >= s.rows.len() {
            proof {
                assert(wrapped_stream(*s, row_index as int, row_offset as int, visual_row as int) =~= Seq::<ViewportSlot>::empty());
                assert(acc + Seq::<ViewportSlot>::empty() =~= acc);
            }
            break;
        }
        let ghost r = row_index as int;
        let ghost from = row_offset as int;
        let ghost visual = visual_row as int;
        let ghost h = s.rows@[r].wrap_height as int;
        let ghost vs = visual_slots(r, from, h, visual);
        proof {
            lemma_wrapped_step(*s, r, from, visual);
        }
        let remaining = visible_rows - plans.len();
        let wrap_rows = s.rows[row_index].wrap_height;
        let wraps_left = wrap_rows.saturating_sub(row_offset);
        let take = if wraps_left < remaining { wraps_left } else { remaining };
        let ghost before = plans@;
        visual_row = push_visual_slots(&mut plans, row_index, Ghost(from), Ghost(h), visual_row, take);
        row_offset = 0;
        proof {
            assert(plans@ =~= capped_append(before, vs, v));
            lemma_cap_append(acc, vs, v);
        }
        if plans.len() >= visible_rows {
            proof {
                lemma_cap_prefix(acc + vs, annotation_slots(*s, r) + wrapped_stream(*s, r + 1, 0, sat(visual + vs.len())), v);
                assert(whole =~= (acc + vs) + (annotation_slots(*s, r) + wrapped_stream(*s, r + 1, 0, sat(visual + vs.len()))));
            }
            break;
        }
        push_annotation_slots(&mut plans, s, row_index, visible_rows);
        proof {
            lemma_cap_append(acc + vs, annotation_slots(*s, r), v);
            acc = acc + vs + annotation_slots(*s, r);
            assert(whole =~= acc + wrapped_stream(*s, r + 1, 0, visual_row as int));
        }
        row_index += 1;
    }
    plans
}

/// The planned rows for `visible` viewport rows.
pub open spec fn plan_spec(s: ViewportState, visible: int) -> Seq<ViewportSlot> {
    if s.line_wrapping { wrapped_plan(s, visible) } else { unwrapped_plan(s, visible) }
}

/// The viewport's rows, wrapped or not.
pub fn plan_diff_viewport_rows(s: &ViewportState, visible_rows: usize) -> (r: Vec<ViewportSlot>)
    ensures
        r@ == plan_spec(*s, visible_rows as int),
        r@.len() <= visible_rows,
{
    if s.line_wrapping {
        plan_wrapped_viewport_rows(s, visible_rows)
    } else {
        plan_unwrapped_viewport_rows(s, visible_rows)
    }
}

/// The plan for the viewport's own height (at least one row).
pub open spec fn viewport_plan(s: ViewportState) -> Seq<ViewportSlot> {
    plan_spec(s, if s.viewport_rows > 1 { s.viewport_rows as int } else { 1 })
}

/// Whether a slot is a row of the draft's block under `mr`.
pub open spec fn is_compose(k: ViewportSlotKind, mr: usize) -> bool {
    k matches ViewportSlotKind::AnnotationCompose { model_row } && model_row == mr
}

/// Whether a slot is a row of the saved block under `mr`.
pub open spec fn is_saved(k: ViewportSlotKind, mr: usize) -> bool {
    k matches ViewportSlotKind::AnnotationSaved { model_row } && model_row == mr
}

/// Whether a slot is a visual row of model row `mr`.
pub open spec fn is_visual_of(k: ViewportSlotKind, mr: usize) -> bool {
    k matches ViewportSlotKind::DiffVisual { visual_scroll: _, model_row } && model_row == mr
}

/// Where the draft's block under `mr` starts: a block row at the top of
/// the viewport or right below a visual row of `mr`; the first from `i` on.
pub open spec fn first_compose_top(p: Seq<ViewportSlot>, mr: usize, i: int) -> Option<int>
    decreases p.len() - i,
{
    if i < 0 || i >= p.len() {
        None
    } else if is_compose(p[i].kind, mr) && (i == 0 || is_visual_of(p[i - 1].kind, mr)) {
        Some(i)
    } else {
        first_compose_top(p, mr, i + 1)
    }
}

/// The first row of the saved block under `mr`, from `i` on.
pub open spec fn first_saved(p: Seq<ViewportSlot>, mr: usize, i: int) -> Option<int>
    decreases p.len() - i,
{
    if i < 0 || i >= p.len() {
        None
    } else if is_saved(p[i].kind, mr) {
        Some(i)
    } else {
        first_saved(p, mr, i + 1)
    }
}

/// The last row of the draft's block under `mr` among the first `n`.
pub open spec fn last_compose(p: Seq<ViewportSlot>, mr: usize, n: int) -> Option<int>
    decreases n,
{
    if n <= 0 {
        None
    } else if is_compose(p[n - 1].kind, mr) {
        Some(n - 1)
    } else {
        last_compose(p, mr, n - 1)
    }
}

/// The last row of the saved block under `mr` among the first `n`.
pub open spec fn last_saved(p: Seq<ViewportSlot>, mr: usize, n: int) -> Option<int>
    decreases n,
{
    if n <= 0 {
        None
    } else if is_saved(p[n - 1].kind, mr) {
        Some(n - 1)
    } else {
        last_saved(p, mr, n - 1)
    }
}

/// A viewport row index as a terminal row, when it fits one.
pub open spec fn as_row(i: Option<int>) -> Option<u16> {
    match i {
        Some(i) => if i <= 65535 { Some(i as u16) } else { None },
        None => None,
    }
}

fn row_of(i: usize) -> (r: Option<u16>)
    ensures
        r == as_row(Some(i as int)),
{
    if i <= 65535 { Some(i as u16) } else { None }
}

fn plan_viewport(s: &ViewportState) -> (r: Vec<ViewportSlot>)
    ensures
        r@ == viewport_plan(*s),
{
    let rows = if s.viewport_rows > 1 { s.viewport_rows } else { 1 };
    plan_diff_viewport_rows(s, rows)
}

/// The visual row a viewport row shows, if it shows a diff row.
pub fn visual_scroll_for_viewport_row(s: &ViewportState, viewport_row: u16) -> (r: Option<usize>)
    ensures
        r == if (viewport_row as int) < viewport_plan(*s).len() {
            match viewport_plan(*s)[viewport_row as int].kind {
                ViewportSlotKind::DiffVisual { visual_scroll, model_row: _ } => Some(visual_scroll),
                _ => None,
            }
        } else {
            None
        },
{
    let plans = plan_viewport(s);
    let index = viewport_row as usize;
    if index >= plans.len() {
        return None;
    }
    match plans[index].kind {
        ViewportSlotKind::DiffVisual { visual_scroll, model_row: _ } => Some(visual_scroll),
        _ => None,
    }
}

/// The model row a viewport row belongs to: the diff row it shows or the
/// row its annotation block is under.
pub fn model_row_for_viewport_row(s: &ViewportState, viewport_row: u16) -> (r: Option<usize>)
    ensures
        r == if (viewport_row as int) < viewport_plan(*s).len() {
            match viewport_plan(*s)[viewport_row as int].kind {
                ViewportSlotKind::DiffVisual { visual_scroll: _, model_row } => Some(model_row),
                ViewportSlotKind::AnnotationCompose { model_row } => Some(model_row),
                ViewportSlotKind::AnnotationSaved { model_row } => Some(model_row),
            }
        } else {
            None
        },
{
    let plans = plan_viewport(s);
    let index = viewport_row as usize;
    if index >= plans.len() {
        return None;
    }
    match plans[index].kind {
        ViewportSlotKind::DiffVisual { visual_scroll: _, model_row } => Some(model_row),
        ViewportSlotKind::AnnotationCompose { model_row } => Some(model_row),
        ViewportSlotKind::AnnotationSaved { model_row } => Some(model_row),
    }
}

fn slot_is_compose(k: ViewportSlotKind, mr: usize) -> (r: bool)
    ensures
        r == is_compose(k, mr),
{
    match k {
        ViewportSlotKind::AnnotationCompose { model_row } => model_row == mr,
        _ => false,
    }
}

fn slot_is_saved(k: ViewportSlotKind, mr: usize) -> (r: bool)
    ensures
        r == is_saved(k, mr),
{
    match k {
        ViewportSlotKind::AnnotationSaved { model_row } => model_row == mr,
        _ => false,
    }
}

fn slot_is_visual_of(k: ViewportSlotKind, mr: usize) -> (r: bool)
    ensures
        r == is_visual_of(k, mr),
{
    match k {
        ViewportSlotKind::DiffVisual { visual_scroll: _, model_row } => model_row == mr,
        _ => false,
    }
}

/// The viewport row where the draft's block under `model_row` starts.
pub fn compose_block_top_viewport_row(s: &ViewportState, model_row: usize) -> (r: Option<u16>)
    ensures
        r == as_row(first_compose_top(viewport_plan(*s), model_row, 0)),
{
    let plans = plan_viewport(s);
    let ghost p = plans@;
    let mut i: usize = 0;
    while i < plans.len()
        invariant
            i <= p.len(),
            p == plans@,
            p == viewport_plan(*s),
            first_compose_top(p, model_row, 0) == first_compose_top(p, model_row, i as int),
        decreases p.len() - i,
    {
        let here = slot_is_compose(plans[i].kind, model_row);
        if here && (i == 0 || slot_is_visual_of(plans[i - 1].kind, model_row)) {
            return row_of(i);
        }
        i += 1;
    }
    None
}

/// The viewport row where the draft's block under `model_row` ends.
pub fn compose_block_bottom_viewport_row(s: &ViewportState, model_row: usize) -> (r: Option<u16>)
    ensures
        r == as_row(last_compose(viewport_plan(*s), model_row, viewport_plan(*s).len() as int)),
{
    let plans = plan_viewport(s);
    let ghost p = plans@;
    let mut n: usize = plans.len();
    while n > 0
        invariant
            n <= p.len(),
            p == plans@,
            p == viewport_plan(*s),
            last_compose(p, model_row, p.len() as int) == last_compose(p, model_row, n as int),
        decreases n,
    {
        if slot_is_compose(plans[n - 1].kind, model_row) {
            return row_of(n - 1);
        }
        n -= 1;
    }
    None
}

proof fn lemma_compose_top_is_compose(p: Seq<ViewportSlot>, mr: usize, i: int)
    requires
        first_compose_top(p, mr, i) is Some,
    ensures
        ({
            let t = first_compose_top(p, mr, i)->0;
            i <= t < p.len() && is_compose(p[t].kind, mr)
        }),
    decreases p.len() - i,
{
    if !(i < 0 || i >= p.len()) && !(is_compose(p[i].kind, mr) && (i == 0 || is_visual_of(p[i - 1].kind, mr))) {
        lemma_compose_top_is_compose(p, mr, i + 1);
    }
}

proof fn lemma_last_compose_reaches(p: Seq<ViewportSlot>, mr: usize, n: int, t: int)
    requires
        0 <= t < n <= p.len(),
        is_compose(p[t].kind, mr),
    ensures
        last_compose(p, mr, n) matches Some(b) && t <= b < n,
    decreases n,
{
    if !is_compose(p[n - 1].kind, mr) {
        lemma_last_compose_reaches(p, mr, n - 1, t);
    }
}

/// The draft's block starts no lower than it ends: when the viewport shows
/// the top row of the block under `model_row`, it shows a bottom row too,
/// at or below it.
pub proof fn compose_block_top_is_not_below_its_bottom(s: ViewportState, model_row: usize)
    requires
        s.viewport_rows <= u16::MAX,
    ensures
        as_row(first_compose_top(viewport_plan(s), model_row, 0)) matches Some(top)
            ==> as_row(last_compose(viewport_plan(s), model_row, viewport_plan(s).len() as int)) matches Some(bottom)
                && top <= bottom,
{
    let p = viewport_plan(s);
    assert(p.len() <= u16::MAX);
    if first_compose_top(p, model_row, 0) is Some {
        lemma_compose_top_is_compose(p, model_row, 0);
        let t = first_compose_top(p, model_row, 0)->0;
        lemma_last_compose_reaches(p, model_row, p.len() as int, t);
    }
}

/// The viewport row where the saved block under `model_row` starts.
pub fn saved_block_top_viewport_row(s: &ViewportState, model_row: usize) -> (r: Option<u16>)
    ensures
        r == as_row(first_saved(viewport_plan(*s), model_row, 0)),
{
    let plans = plan_viewport(s);
    let ghost p = plans@;
    let mut i: usize = 0;
    while i < plans.len()
        invariant
            i <= p.len(),
            p == plans@,
            p == viewport_plan(*s),
            first_saved(p, model_row, 0) == first_saved(p, model_row, i as int),
        decreases p.len() - i,
    {
        if slot_is_saved(plans[i].kind, model_row) {
            return row_of(i);
        }
        i += 1;
    }
    None
}

/// The viewport row where the saved block under `model_row` ends.
pub fn saved_block_bottom_viewport_row(s: &ViewportState, model_row: usize) -> (r: Option<u16>)
    ensures
        r == as_row(last_saved(viewport_plan(*s), model_row, viewport_plan(*s).len() as int)),
{
    let plans = plan_viewport(s);
    let ghost p = plans@;
    let mut n: usize = plans.len();
    while n > 0
        invariant
            n <= p.len(),
            p == plans@,
            p == viewport_plan(*s),
            last_saved(p, model_row, p.len() as int) == last_saved(p, model_row, n as int),
        decreases n,
    {
        if slot_is_saved(plans[n - 1].kind, model_row) {
            return row_of(n - 1);
        }
        n -= 1;
    }
    None
}

/// The model row whose saved block's top border is at `viewport_row`.
pub fn annotation_saved_model_at_top_border(s: &ViewportState, viewport_row: u16) -> (r: Option<usize>)
    ensures
        r == if (viewport_row as int) < viewport_plan(*s).len() {
            match viewport_plan(*s)[viewport_row as int].kind {
                ViewportSlotKind::AnnotationSaved { model_row } => if as_row(first_saved(viewport_plan(*s), model_row, 0)) == Some(viewport_row) {
                    Some(model_row)
                } else {
                    None
                },
                _ => None,
            }
        } else {
            None
        },
{
    let plans = plan_viewport(s);
    let index = viewport_row as usize;
    if index >= plans.len() {
        return None;
    }
    match plans[index].kind {
        ViewportSlotKind::AnnotationSaved { model_row } => {
            if saved_block_top_viewport_row(s, model_row) == Some(viewport_row) {
                Some(model_row)
            } else {
                None
            }
        },
        _ => None,
    }
}

} // verus!
