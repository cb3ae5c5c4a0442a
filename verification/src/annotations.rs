//! Annotation blocks: how their text wraps, how tall they are and which
//! column hits which of their buttons.
use vstd::prelude::*;
use vstd::string::StrSliceExecFns;
use vstd::string::StringExecFns;
use crate::inline::{byte_pos, char_byte_offsets, lemma_byte_pos_mono};
use crate::text::{
    chars_vec, cwidth, fit, fit_chars, fit_count, fit_with_width, fits_completely,
    fit_count_is_the_longest_fitting_prefix, lemma_fit_count_bound, lemma_seq_width_push, seq_width,
    string_from_range,
};
use crate::unicode::{char_is_whitespace, string_push, unicode_is_whitespace};

verus! {

broadcast use vstd::string::group_string_axioms;

/// The side of a split row an annotation belongs to.
#[derive(Debug, Clone, Copy, PartialEq, Eq, Structural)]
pub enum AnnotationSide {
    Old,
    New,
}

/// The button drawn in an annotation block's bottom border.
#[derive(Debug, Clone, Copy, PartialEq, Eq, Structural)]
pub enum AnnotationFooterButton {
    NoButton,
    Edit,
    Submit,
}

/// The text of a footer button: its full label, the width of that label and
/// the plain label used when the full one does not fit.
pub struct ButtonText {
    pub full: String,
    pub full_width: usize,
    pub ascii: String,
}

/// The labels and widths of an annotation block's buttons.
pub struct AnnotationButtons {
    pub add: String,
    pub add_width: usize,
    pub close: String,
    pub close_width: usize,
    pub edit: ButtonText,
    pub submit: ButtonText,
}

/// An annotation being written: its text and the byte offset of the cursor.
pub struct AnnotationDraft {
    pub input: String,
    pub cursor: usize,
}

/// The characters of each string.
pub open spec fn views(v: Seq<String>) -> Seq<Seq<char>> {
    v.map_values(|s: String| s@)
}

/// An optional index as an integer.
pub open spec fn opt_int(r: Option<usize>) -> Option<int> {
    match r {
        Some(b) => Some(b as int),
        None => None,
    }
}

/// Some of the first `n` characters is not whitespace.
pub open spec fn has_content(t: Seq<char>, n: int) -> bool
    decreases n,
{
    if n <= 0 {
        false
    } else {
        !unicode_is_whitespace(t[n - 1]) || has_content(t, n - 1)
    }
}

/// Where a line may break within the first `k` characters of `t`: just after
/// the last whitespace character that follows some content.
pub open spec fn wrap_boundary(t: Seq<char>, k: int) -> Option<int>
    decreases k,
{
    if k <= 0 {
        None
    } else if unicode_is_whitespace(t[k - 1]) && has_content(t, k - 1) {
        Some(k)
    } else {
        wrap_boundary(t, k - 1)
    }
}

/// The break position, as a byte offset.
pub open spec fn wrap_boundary_bytes(t: Seq<char>, k: int) -> Option<int> {
    match wrap_boundary(t, k) {
        Some(b) => Some(byte_pos(t, b)),
        None => None,
    }
}

/// A break lies within the characters searched.
pub proof fn lemma_wrap_boundary_bound(t: Seq<char>, k: int)
    ensures
        wrap_boundary(t, k) matches Some(b) ==> 0 < b <= k,
    decreases k,
{
    if k > 0 {
        lemma_wrap_boundary_bound(t, k - 1);
    }
}

/// How many characters the next wrapped line takes from `t`, when `t` does not
/// fit: up to the last break among the characters that fit, or all that fit
/// when there is none, and at least one character.
pub open spec fn break_len(t: Seq<char>, width: nat) -> int {
    let k = fit_chars(t, width).len() as int;
    let b = match wrap_boundary(t, k) {
        Some(b) => b,
        None => k,
    };
    if b == 0 {
        1
    } else {
        b
    }
}

/// The next line takes at least one and at most all characters.
pub proof fn lemma_break_len_bounds(t: Seq<char>, width: nat)
    requires
        t.len() > 0,
    ensures
        1 <= break_len(t, width) <= t.len(),
{
    lemma_fit_count_bound(t, width);
    let k = fit_chars(t, width).len() as int;
    lemma_wrap_boundary_bound(t, k);
}

/// The lines that a non-empty paragraph wraps into, greedily: each line
/// takes the characters that fit up to the last break among them (all that
/// fit when there is none, at least one). Joined they give the paragraph back
/// (`wrapped_paragraph_joins_back`), and each fits the width unless it is a
/// single wider character (`wrapped_lines_fit`).
pub open spec fn wrap_para(t: Seq<char>, width: nat) -> Seq<Seq<char>>
    decreases t.len(),
{
    if t.len() == 0 {
        Seq::empty()
    } else if fits_completely(t, width) {
        seq![fit_chars(t, width)]
    } else {
        let b = break_len(t, width);
        if 1 <= b <= t.len() {
            seq![t.take(b)] + wrap_para(t.skip(b), width)
        } else {
            Seq::empty()
        }
    }
}

/// The lines of one paragraph: one empty line for an empty paragraph.
pub open spec fn paragraph_lines(p: Seq<char>, width: nat) -> Seq<Seq<char>> {
    if p.len() == 0 {
        seq![Seq::empty()]
    } else {
        wrap_para(p, width)
    }
}

/// The pieces of `s` between line feeds.
pub open spec fn split_lines(s: Seq<char>) -> Seq<Seq<char>>
    decreases s.len(),
{
    if s.len() == 0 {
        seq![Seq::empty()]
    } else {
        let prev = split_lines(s.drop_last());
        if s.last() == '\n' {
            prev.push(Seq::empty())
        } else {
            prev.update(prev.len() - 1, prev.last().push(s.last()))
        }
    }
}

/// There is always at least one piece.
pub proof fn lemma_split_lines_len(s: Seq<char>)
    ensures
        split_lines(s).len() >= 1,
    decreases s.len(),
{
    if s.len() > 0 {
        lemma_split_lines_len(s.drop_last());
    }
}

/// The lines of a list of paragraphs, one after the other.
pub open spec fn para_all(ps: Seq<Seq<char>>, width: nat) -> Seq<Seq<char>>
    decreases ps.len(),
{
    if ps.len() == 0 {
        Seq::empty()
    } else {
        para_all(ps.drop_last(), width) + paragraph_lines(ps.last(), width)
    }
}

/// The lines that a text wraps into at `width` columns.
pub open spec fn wrap_text(s: Seq<char>, width: nat) -> Seq<Seq<char>> {
    if width == 0 {
        seq![Seq::empty()]
    } else {
        let r = para_all(split_lines(s), width);
        if r.len() == 0 {
            seq![Seq::empty()]
        } else {
            r
        }
    }
}

/// The break position among `chars[start..start + k]`.
fn boundary_in(chars: &Vec<char>, start: usize, k: usize) -> (r: Option<usize>)
    requires
        start + k <= chars@.len(),
    ensures
        opt_int(r) == wrap_boundary(chars@.skip(start as int), k as int),
{
    let ghost t = chars@.skip(start as int);
    let mut seen_content = false;
    let mut boundary: Option<usize> = None;
    let mut i: usize = 0;
    while i < k
        invariant
            i <= k,
            start + k <= chars@.len(),
            t == chars@.skip(start as int),
            seen_content == has_content(t, i as int),
            opt_int(boundary) == wrap_boundary(t, i as int),
        decreases k - i,
    {
        assert(start + i < chars@.len());
        assert(chars@.len() == chars.len());
        let c = chars[start + i];
        assert(t[i as int] == c);
        if char_is_whitespace(c) {
            if seen_content {
                boundary = Some(i + 1);
            }
        } else {
            seen_content = true;
        }
        i += 1;
    }
    boundary
}

/// The byte offset just after the last whitespace that follows some content
/// within the first `fit_len` bytes of `text`, if there is one.
pub fn annotation_wrap_boundary(text: &str, fit_len: usize) -> (r: Option<usize>)
    requires
        exists|k: int| 0 <= k <= text@.len() && byte_pos(text@, k) == fit_len,
    ensures
        forall|k: int| 0 <= k <= text@.len() && byte_pos(text@, k) == fit_len ==> opt_int(r) == wrap_boundary_bytes(text@, k),
{
    let ghost s = text@;
    let chars = chars_vec(text);
    let offs = char_byte_offsets(text, &chars);
    let ghost kk = choose|k: int| 0 <= k <= s.len() && byte_pos(s, k) == fit_len;
    let mut i: usize = 0;
    while i < chars.len() && offs[i] < fit_len
        invariant
            i <= chars@.len(),
            chars@ == s,
            offs@.len() == chars@.len() + 1,
            forall|j: int| 0 <= j <= chars@.len() ==> offs@[j] as int == byte_pos(s, j),
            0 <= kk <= s.len(),
            byte_pos(s, kk) == fit_len,
            i <= kk,
        decreases chars@.len() - i,
    {
        proof {
            if i == kk {
                assert(offs@[i as int] == fit_len);
            }
        }
        i += 1;
    }
    proof {
        if i < kk {
            lemma_byte_pos_mono(s, i as int, kk);
        }
        assert(i == kk);
        assert forall|k: int| 0 <= k <= s.len() && byte_pos(s, k) == fit_len implies k == kk by {
            if k < kk {
                lemma_byte_pos_mono(s, k, kk);
            }
            if kk < k {
                lemma_byte_pos_mono(s, kk, k);
            }
        }
        assert(chars@.skip(0) =~= s);
    }
    match boundary_in(&chars, 0, i) {
        Some(b) => {
            proof {
                lemma_wrap_boundary_bound(s, i as int);
            }
            Some(offs[b])
        },
        None => None,
    }
}

/// Appends the wrapped lines of one paragraph to `lines`.
pub fn wrap_annotation_paragraph(paragraph: &str, width: usize, lines: &mut Vec<String>)
    ensures
        views(final(lines)@) == views(old(lines)@) + paragraph_lines(paragraph@, width as nat),
{
    if paragraph.unicode_len() == 0 {
        lines.push(String::new());
        proof {
            assert(views(lines@) =~= views(old(lines)@) + paragraph_lines(paragraph@, width as nat));
        }
        return;
    }
    let ghost s = paragraph@;
    let chars = chars_vec(paragraph);
    let mut pos: usize = 0;
    proof {
        assert(s.skip(0) =~= s);
    }
    while pos < chars.len()
        invariant
            pos <= chars@.len(),
            chars@ == s,
            s.len() > 0,
            views(lines@) + wrap_para(s.skip(pos as int), width as nat) == views(old(lines)@) + wrap_para(s, width as nat),
        decreases chars@.len() - pos,
    {
        let ghost t = s.skip(pos as int);
        let rest = string_from_range(&chars, pos, chars.len());
        assert(rest@ =~= t);
        let (segment, _, complete) = fit_with_width(rest.as_str(), width);
        let ghost before = views(lines@);
        if complete {
            lines.push(segment);
            proof {
                assert(views(lines@) =~= before.push(fit_chars(t, width as nat)));
                assert(s.skip(chars@.len() as int) =~= Seq::<char>::empty());
                assert(wrap_para(t, width as nat) == seq![fit_chars(t, width as nat)]);
                assert(views(lines@) + wrap_para(s.skip(chars@.len() as int), width as nat) =~= before
                    + wrap_para(t, width as nat));
            }
            pos = chars.len();
        } else {
            let k = segment.unicode_len();
            proof {
                lemma_fit_count_bound(t, width as nat);
                lemma_break_len_bounds(t, width as nat);
            }
            let b = match boundary_in(&chars, pos, k) {
                Some(b) => b,
                None => k,
            };
            let take = if b == 0 { 1 } else { b };
            assert(take as int == break_len(t, width as nat));
            let line = string_from_range(&chars, pos, pos + take);
            lines.push(line);
            proof {
                assert(s.subrange(pos as int, pos + take) =~= t.take(take as int));
                assert(s.skip(pos + take) =~= t.skip(take as int));
                assert(wrap_para(t, width as nat) == seq![t.take(take as int)] + wrap_para(t.skip(take as int), width as nat));
                assert(views(lines@) =~= before.push(t.take(take as int)));
                assert(views(lines@) + wrap_para(s.skip(pos + take), width as nat) =~= before
                    + wrap_para(t, width as nat));
            }
            pos = pos + take;
        }
    }
    proof {
        assert(s.skip(chars@.len() as int) =~= Seq::<char>::empty());
        assert(views(lines@) + Seq::<Seq<char>>::empty() =~= views(lines@));
    }
}

/// Wraps an annotation's text into lines of at most `width` columns; line
/// feeds start new lines, and there is always at least one line.
pub fn wrap_annotation_text(text: &str, width: usize) -> (r: Vec<String>)
    ensures
        views(r@) == wrap_text(text@, width as nat),
{
    if width == 0 {
        let mut one: Vec<String> = Vec::new();
        one.push(String::new());
        proof {
            assert(views(one@) =~= seq![Seq::<char>::empty()]);
        }
        return one;
    }
    let ghost s = text@;
    let chars = chars_vec(text);
    let mut lines: Vec<String> = Vec::new();
    let mut current = String::new();
    let ghost mut done: Seq<Seq<char>> = Seq::empty();
    let mut i: usize = 0;
    proof {
        assert(s.take(0) =~= Seq::<char>::empty());
        assert(views(lines@) =~= para_all(done, width as nat));
    }
    while i < chars.len()
        invariant
            i <= chars@.len(),
            chars@ == s,
            width > 0,
            split_lines(s.take(i as int)) == done.push(current@),
            views(lines@) == para_all(done, width as nat),
        decreases chars@.len() - i,
    {
        let c = chars[i];
        proof {
            assert(s.take(i as int + 1).drop_last() =~= s.take(i as int));
            assert(s.take(i as int + 1).last() == c);
        }
        if c == '\n' {
            let ghost before = views(lines@);
            wrap_annotation_paragraph(current.as_str(), width, &mut lines);
            proof {
                assert(para_all(done.push(current@), width as nat) == para_all(done, width as nat) + paragraph_lines(current@, width as nat)) by {
                    assert(done.push(current@).drop_last() =~= done);
                }
                done = done.push(current@);
            }
            current = String::new();
            proof {
                assert(split_lines(s.take(i as int + 1)) =~= done.push(current@));
            }
        } else {
            let ghost old_cur = current@;
            string_push(&mut current, c);
            proof {
                assert(split_lines(s.take(i as int + 1)) =~= done.push(current@));
            }
        }
        i += 1;
    }
    wrap_annotation_paragraph(current.as_str(), width, &mut lines);
    proof {
        assert(s.take(chars@.len() as int) =~= s);
        assert(done.push(current@).drop_last() =~= done);
        assert(views(lines@) == para_all(split_lines(s), width as nat));
    }
    if lines.len() == 0 {
        lines.push(String::new());
        proof {
            assert(views(lines@) =~= seq![Seq::<char>::empty()]);
        }
    }
    lines
}

/// The width available to an annotation's text.
pub fn annotation_body_width(width: usize) -> (r: usize)
    ensures
        r == width,
{
    width
}

/// The lines an annotation's text is shown in.
pub fn annotation_display_lines(text: &str, width: usize) -> (r: Vec<String>)
    ensures
        views(r@) == wrap_text(text@, width as nat),
{
    let body_width = annotation_body_width(width);
    wrap_annotation_text(text, body_width)
}

/// Rows taken by a saved annotation: its lines between two borders.
pub fn annotation_saved_block_height(text: &str, width: usize) -> (r: usize)
    ensures
        r == if wrap_text(text@, width as nat).len() + 2 > usize::MAX {
            usize::MAX as int
        } else {
            wrap_text(text@, width as nat).len() + 2int
        },
{
    let lines = annotation_display_lines(text, width);
    assert(views(lines@).len() == lines@.len());
    lines.len().saturating_add(2)
}

/// The text of a draft with `mark` inserted at the cursor's byte offset
/// (clamped to the end of the text); when that offset falls inside a
/// character, the mark goes at the end.
pub open spec fn cursor_text(s: Seq<char>, cursor: int, mark: Seq<char>) -> Seq<char> {
    let end = byte_pos(s, s.len() as int);
    let c = if cursor < end { cursor } else { end };
    if exists|k: int| 0 <= k <= s.len() && byte_pos(s, k) == c {
        let k = choose|k: int| 0 <= k <= s.len() && byte_pos(s, k) == c;
        s.take(k) + mark + s.skip(k)
    } else {
        s + mark
    }
}

/// A draft's text as shown while it is edited, with `mark` at the cursor.
pub fn text_with_cursor(input: &str, cursor: usize, mark: &str) -> (r: String)
    ensures
        r@ == cursor_text(input@, cursor as int, mark@),
{
    let ghost s = input@;
    let chars = chars_vec(input);
    let offs = char_byte_offsets(input, &chars);
    let end = offs[chars.len()];
    let c = if cursor < end { cursor } else { end };
    let mut i: usize = 0;
    while i < chars.len() && offs[i] < c
        invariant
            i <= chars@.len(),
            chars@ == s,
            offs@.len() == chars@.len() + 1,
            forall|j: int| 0 <= j <= chars@.len() ==> offs@[j] as int == byte_pos(s, j),
            c <= offs@[chars@.len() as int],
            forall|j: int| 0 <= j < i ==> offs@[j] < c,
        decreases chars@.len() - i,
    {
        i += 1;
    }
    proof {
        assert(s.take(s.len() as int) =~= s);
        assert(s.skip(s.len() as int) =~= Seq::<char>::empty());
    }
    if offs[i] == c {
        proof {
            assert forall|k: int| 0 <= k <= s.len() && byte_pos(s, k) == c implies k == i by {
                if k < i {
                    assert(offs@[k] < c);
                }
                if k > i {
                    lemma_byte_pos_mono(s, i as int, k);
                }
            }
        }
        let mut out = string_from_range(&chars, 0, i);
        out.append(mark);
        let tail = string_from_range(&chars, i, chars.len());
        out.append(tail.as_str());
        proof {
            assert(chars@.subrange(0, i as int) =~= s.take(i as int));
            assert(chars@.subrange(i as int, chars@.len() as int) =~= s.skip(i as int));
        }
        out
    } else {
        proof {
            assert forall|k: int| 0 <= k <= s.len() implies byte_pos(s, k) != c by {
                if k < i {
                    assert(offs@[k] < c);
                } else if k > i {
                    lemma_byte_pos_mono(s, i as int, k);
                }
            }
        }
        let mut out = string_from_range(&chars, 0, chars.len());
        out.append(mark);
        proof {
            assert(chars@.subrange(0, chars@.len() as int) =~= s);
        }
        out
    }
}

/// Rows taken by an annotation being written: its lines, with `mark` at the
/// cursor, between two borders.
pub fn annotation_compose_block_height(draft: &AnnotationDraft, width: usize, mark: &str) -> (r: usize)
    ensures
        r == if wrap_text(cursor_text(draft.input@, draft.cursor as int, mark@), width as nat).len() + 2 > usize::MAX {
            usize::MAX as int
        } else {
            wrap_text(cursor_text(draft.input@, draft.cursor as int, mark@), width as nat).len() + 2int
        },
{
    let display = text_with_cursor(draft.input.as_str(), draft.cursor, mark);
    let lines = annotation_display_lines(display.as_str(), width);
    assert(views(lines@).len() == lines@.len());
    lines.len().saturating_add(2)
}

/// The label shown for a footer button: the full label when the block is at
/// least as wide as it, else the plain label fitted into the width.
pub open spec fn footer_label(width: nat, button: AnnotationFooterButton, buttons: AnnotationButtons) -> Seq<char> {
    match button {
        AnnotationFooterButton::NoButton => Seq::empty(),
        AnnotationFooterButton::Edit => if width >= buttons.edit.full_width {
            buttons.edit.full@
        } else {
            fit_chars(buttons.edit.ascii@, width)
        },
        AnnotationFooterButton::Submit => if width >= buttons.submit.full_width {
            buttons.submit.full@
        } else {
            fit_chars(buttons.submit.ascii@, width)
        },
    }
}

/// The label of a footer button in a block `width` columns wide.
pub fn annotation_footer_button_label(width: usize, button: AnnotationFooterButton, buttons: &AnnotationButtons) -> (r: String)
    ensures
        r@ == footer_label(width as nat, button, *buttons),
{
    match button {
        AnnotationFooterButton::NoButton => String::new(),
        AnnotationFooterButton::Edit => {
            if width >= buttons.edit.full_width {
                String::from_str(buttons.edit.full.as_str())
            } else {
                fit(buttons.edit.ascii.as_str(), width)
            }
        },
        AnnotationFooterButton::Submit => {
            if width >= buttons.submit.full_width {
                String::from_str(buttons.submit.full.as_str())
            } else {
                fit(buttons.submit.ascii.as_str(), width)
            }
        },
    }
}

/// A column hits a button drawn at the right end of a row `width` columns
/// wide (both taken as 16-bit terminal columns, as the terminal reports them).
pub open spec fn right_button_hit(column: u16, width: usize, button_width: usize) -> bool {
    (width as u16) >= (button_width as u16) && column >= (width as u16) - (button_width as u16)
}

fn right_end_hit(column: u16, width: usize, button_width: usize) -> (r: bool)
    ensures
        r == right_button_hit(column, width, button_width),
{
    let width = width as u16;
    let button = button_width as u16;
    if width < button {
        return false;
    }
    let start = width.saturating_sub(button);
    column >= start
}

/// Whether `column` hits the add button at the end of a row.
pub fn annotation_hit_at_column(column: u16, width: usize, add_width: usize) -> (r: bool)
    ensures
        r == right_button_hit(column, width, add_width),
{
    right_end_hit(column, width, add_width)
}

/// Whether `column` hits the close button at the end of a block's top border.
pub fn annotation_close_hit_at_column(column: u16, width: usize, close_width: usize) -> (r: bool)
    ensures
        r == right_button_hit(column, width, close_width),
{
    right_end_hit(column, width, close_width)
}

/// Whether `column` hits the submit button at the end of a block's bottom border.
pub fn annotation_submit_hit_at_column(column: u16, width: usize, submit_width: usize) -> (r: bool)
    ensures
        r == right_button_hit(column, width, submit_width),
{
    right_end_hit(column, width, submit_width)
}

/// Whether `column` hits the edit button at the end of a block's bottom border.
pub fn annotation_edit_hit_at_column(column: u16, width: usize, edit_width: usize) -> (r: bool)
    ensures
        r == right_button_hit(column, width, edit_width),
{
    right_end_hit(column, width, edit_width)
}

/// A width as terminal columns, at most `u16::MAX`.
pub open spec fn clamp16(width: usize) -> int {
    if width > 65535 { 65535 } else { width as int }
}

/// The side of a split row that a column falls in: the old side is the left
/// half (rounded down), and columns past the row are on no side.
pub open spec fn side_at(column: u16, width: usize) -> Option<AnnotationSide> {
    let w = clamp16(width);
    if w == 0 || column >= w {
        None
    } else if column < w / 2 {
        Some(AnnotationSide::Old)
    } else {
        Some(AnnotationSide::New)
    }
}

/// The side of a split row that `column` falls in.
pub fn split_annotation_side_at_column(column: u16, width: usize) -> (r: Option<AnnotationSide>)
    ensures
        r == side_at(column, width),
{
    let width: u16 = if width > 65535 { 65535 } else { width as u16 };
    if width == 0 || column >= width {
        return None;
    }
    let left_width = width / 2;
    if column < left_width {
        Some(AnnotationSide::Old)
    } else {
        Some(AnnotationSide::New)
    }
}

/// A column hits the add button at the end of its side's half of a split row.
pub open spec fn split_hit(column: u16, width: usize, add_width: usize) -> Option<AnnotationSide> {
    let w = clamp16(width);
    let left = w / 2;
    let bw = (add_width as u16) as int;
    match side_at(column, width) {
        None => None,
        Some(side) => {
            let start = if side == AnnotationSide::Old { 0 } else { left };
            let cell = if side == AnnotationSide::Old { left } else { w - left };
            if cell < bw {
                None
            } else if start + cell - bw <= column < start + cell {
                Some(side)
            } else {
                None
            }
        },
    }
}

/// The side whose add button `column` hits, if any.
pub fn split_annotation_hit_side_at_column(column: u16, width: usize, add_width: usize) -> (r: Option<AnnotationSide>)
    ensures
        r == split_hit(column, width, add_width),
{
    let side = match split_annotation_side_at_column(column, width) {
        Some(side) => side,
        None => return None,
    };
    let width: u16 = if width > 65535 { 65535 } else { width as u16 };
    let left_width = width / 2;
    let right_width = width.saturating_sub(left_width);
    let (cell_start, cell_width) = match side {
        AnnotationSide::Old => (0u16, left_width),
        AnnotationSide::New => (left_width, right_width),
    };
    let button_width = add_width as u16;
    if cell_width < button_width {
        return None;
    }
    let start = cell_start.saturating_add(cell_width.saturating_sub(button_width));
    let end = cell_start.saturating_add(cell_width);
    if column >= start && column < end {
        Some(side)
    } else {
        None
    }
}

/// Lines joined back together.
pub open spec fn joined(ls: Seq<Seq<char>>) -> Seq<char>
    decreases ls.len(),
{
    if ls.len() == 0 {
        Seq::empty()
    } else {
        ls[0] + joined(ls.drop_first())
    }
}

/// Wrapping a paragraph loses and adds nothing: its lines, joined, are the
/// paragraph, and none of them is empty.
pub proof fn wrapped_paragraph_joins_back(t: Seq<char>, width: nat)
    ensures
        joined(wrap_para(t, width)) == t,
        forall|i: int| 0 <= i < wrap_para(t, width).len() ==> (#[trigger] wrap_para(t, width)[i]).len() > 0,
    decreases t.len(),
{
    if t.len() == 0 {
    } else if fits_completely(t, width) {
        let w = wrap_para(t, width);
        assert(w.drop_first() =~= Seq::<Seq<char>>::empty());
        assert(width > 0);
        assert(t.take(fit_count(t, width) as int) =~= t);
        assert(fit_chars(t, width) =~= t);
        assert(w[0] == t);
        assert(joined(w.drop_first()) == Seq::<char>::empty());
        assert(joined(w) == w[0] + joined(w.drop_first()));
        assert(joined(w) =~= t);
    } else {
        lemma_break_len_bounds(t, width);
        let b = break_len(t, width);
        wrapped_paragraph_joins_back(t.skip(b), width);
        let w = wrap_para(t, width);
        assert(w.drop_first() =~= wrap_para(t.skip(b), width));
        assert(t.take(b) + t.skip(b) =~= t);
        assert forall|i: int| 0 <= i < w.len() implies (#[trigger] w[i]).len() > 0 by {
            if i > 0 {
                assert(w[i] == wrap_para(t.skip(b), width)[i - 1]);
            }
        }
    }
}

proof fn lemma_prefix_width(s: Seq<char>, i: int, j: int)
    requires
        0 <= i <= j <= s.len(),
    ensures
        seq_width(s.take(i)) <= seq_width(s.take(j)),
    decreases j - i,
{
    if i < j {
        lemma_prefix_width(s, i, j - 1);
        assert(s.take(j) =~= s.take(j - 1).push(s[j - 1]));
        lemma_seq_width_push(s.take(j - 1), s[j - 1]);
    }
}

/// Every wrapped line of a paragraph fits in the width, except a line of a
/// single character wider than the width.
pub proof fn wrapped_lines_fit(t: Seq<char>, width: nat)
    ensures
        forall|i: int| 0 <= i < wrap_para(t, width).len() ==> seq_width(#[trigger] wrap_para(t, width)[i]) <= width
            || wrap_para(t, width)[i].len() == 1,
    decreases t.len(),
{
    if t.len() == 0 {
    } else if fits_completely(t, width) {
        lemma_fit_count_bound(t, width);
    } else {
        lemma_break_len_bounds(t, width);
        lemma_fit_count_bound(t, width);
        let b = break_len(t, width);
        let k = fit_chars(t, width).len() as int;
        lemma_wrap_boundary_bound(t, k);
        wrapped_lines_fit(t.skip(b), width);
        let w = wrap_para(t, width);
        if b > 1 || k >= 1 {
            if width > 0 && b <= k {
                lemma_prefix_width(t, b, k);
                assert(fit_chars(t, width) == t.take(k));
            }
        }
        assert forall|i: int| 0 <= i < w.len() implies seq_width(#[trigger] w[i]) <= width || w[i].len() == 1 by {
            if i > 0 {
                assert(w[i] == wrap_para(t.skip(b), width)[i - 1]);
            } else {
                assert(w[0] == t.take(b));
            }
        }
    }
}

/// Some character before position `n` of `t` is not whitespace.
pub open spec fn content_before(t: Seq<char>, n: int) -> bool {
    exists|q: int| 0 <= q < n && !unicode_is_whitespace(#[trigger] t[q])
}

/// A line of `t` may end after its first `p` characters: the last of them is
/// whitespace and some earlier one is not.
pub open spec fn is_break(t: Seq<char>, p: int) -> bool {
    0 < p <= t.len() && unicode_is_whitespace(t[p - 1]) && content_before(t, p - 1)
}

/// The first `p` characters of `t` fit in `width` columns (nothing fits in
/// no columns).
pub open spec fn prefix_fits(t: Seq<char>, p: int, width: nat) -> bool {
    p == 0 || (width > 0 && seq_width(t.take(p)) <= width)
}

proof fn lemma_has_content(t: Seq<char>, n: int)
    requires
        0 <= n <= t.len(),
    ensures
        has_content(t, n) == content_before(t, n),
    decreases n,
{
    if n > 0 {
        lemma_has_content(t, n - 1);
        if !unicode_is_whitespace(t[n - 1]) {
            assert(content_before(t, n));
        } else if content_before(t, n) {
            let q = choose|q: int| 0 <= q < n && !unicode_is_whitespace(#[trigger] t[q]);
            assert(q < n - 1);
            assert(content_before(t, n - 1));
        }
    }
}

proof fn lemma_boundary_is_last_break(t: Seq<char>, k: int)
    requires
        0 <= k <= t.len(),
    ensures
        wrap_boundary(t, k) matches Some(b) ==> is_break(t, b) && b <= k && forall|p: int| b < p <= k ==> !is_break(t, p),
        wrap_boundary(t, k) is None ==> forall|p: int| 0 < p <= k ==> !is_break(t, p),
    decreases k,
{
    if k > 0 {
        lemma_has_content(t, k - 1);
        if !(unicode_is_whitespace(t[k - 1]) && has_content(t, k - 1)) {
            lemma_boundary_is_last_break(t, k - 1);
            assert(!is_break(t, k));
        }
    }
}

/// Wrapping is greedy: the first line of a paragraph that does not fit ends
/// at the last break (whitespace after content) among the characters that
/// fit, so no later break fits; and when no break fits, it takes every
/// character that fits, or one character when none does.
pub proof fn wrapped_lines_end_at_the_last_fitting_break(t: Seq<char>, width: nat)
    requires
        t.len() > 0,
        !fits_completely(t, width),
    ensures
        ({
            let l = wrap_para(t, width)[0].len() as int;
            &&& 1 <= l <= t.len()
            &&& wrap_para(t, width)[0] == t.take(l)
            &&& forall|p: int| l < p <= t.len() && prefix_fits(t, p, width) ==> !is_break(t, p)
            &&& is_break(t, l) && prefix_fits(t, l, width)
                || ((forall|p: int| 0 <= p <= t.len() && prefix_fits(t, p, width) ==> !is_break(t, p))
                    && (prefix_fits(t, l, width) || l == 1)
                    && (forall|p: int| l < p <= t.len() ==> !prefix_fits(t, p, width)))
        }),
{
    lemma_break_len_bounds(t, width);
    fit_count_is_the_longest_fitting_prefix(t, width);
    let b = break_len(t, width);
    let k = fit_chars(t, width).len() as int;
    if width == 0 {
        assert(k == 0);
    } else {
        assert(k == fit_count(t, width));
    }
    assert(wrap_para(t, width)[0] == t.take(b));
    lemma_boundary_is_last_break(t, k);
    assert forall|p: int| 0 <= p <= t.len() && prefix_fits(t, p, width) implies p <= k by {
        if p > k && width > 0 {
            assert(seq_width(t.take(p)) > width);
        }
    }
    match wrap_boundary(t, k) {
        Some(x) => {
            assert(x == b);
            if width > 0 {
                lemma_prefix_width(t, b, k);
            }
        },
        None => {
            assert forall|p: int| b < p <= t.len() implies !prefix_fits(t, p, width) by {
                if width > 0 && p > k {
                    assert(seq_width(t.take(p)) > width);
                }
            }
        },
    }
}

/// Each wrapped line is the first line of what remains of the paragraph from
/// where it starts, and every line but the last starts a rest that does not
/// fit; so `wrapped_lines_end_at_the_last_fitting_break` holds of every line
/// but the last.
pub proof fn each_wrapped_line_starts_the_rest(t: Seq<char>, width: nat)
    ensures
        forall|i: int| 0 <= i < wrap_para(t, width).len() ==> exists|off: int|
            0 <= off < t.len()
            && #[trigger] wrap_para(t, width)[i] == wrap_para(t.skip(off), width)[0]
            && (i < wrap_para(t, width).len() - 1 ==> !fits_completely(t.skip(off), width)),
    decreases t.len(),
{
    let w = wrap_para(t, width);
    if t.len() == 0 || fits_completely(t, width) {
        assert forall|i: int| 0 <= i < w.len() implies exists|off: int|
            0 <= off < t.len()
            && #[trigger] w[i] == wrap_para(t.skip(off), width)[0]
            && (i < w.len() - 1 ==> !fits_completely(t.skip(off), width)) by {
            assert(t.skip(0) =~= t);
        }
    } else {
        lemma_break_len_bounds(t, width);
        let b = break_len(t, width);
        let rest = t.skip(b);
        each_wrapped_line_starts_the_rest(rest, width);
        let wr = wrap_para(rest, width);
        assert(w == seq![t.take(b)] + wr);
        assert forall|i: int| 0 <= i < w.len() implies exists|off: int|
            0 <= off < t.len()
            && #[trigger] w[i] == wrap_para(t.skip(off), width)[0]
            && (i < w.len() - 1 ==> !fits_completely(t.skip(off), width)) by {
            if i == 0 {
                assert(t.skip(0) =~= t);
                assert(w[0] == wrap_para(t.skip(0), width)[0]);
            } else {
                assert(w[i] == wr[i - 1]);
                let off2 = choose|off: int| 0 <= off < rest.len()
                    && #[trigger] wr[i - 1] == wrap_para(rest.skip(off), width)[0]
                    && (i - 1 < wr.len() - 1 ==> !fits_completely(rest.skip(off), width));
                assert(rest.skip(off2) =~= t.skip(b + off2));
                assert(w[i] == wrap_para(t.skip(b + off2), width)[0]);
            }
        }
    }
}

} // verus!
