//! Rows of styled text, and the annotation block's rows built from them:
//! its borders, its body and the add button at the end of a diff row.
use vstd::prelude::*;
use vstd::string::StrSliceExecFns;
use vstd::string::StringExecFns;
use crate::annotations::{
    annotation_display_lines, cursor_text, text_with_cursor, views, wrap_text, AnnotationDraft,
    annotation_footer_button_label, footer_label, AnnotationButtons, AnnotationFooterButton, AnnotationSide,
};
use crate::emphasis::DiffLineKind;
use crate::style::{base_bg, base_bg_spec, diff_indicator_style, focused_diff_indicator_style, gutter_bg_spec, indicator_fg_spec, CellStyle};
use crate::text::{
    fit, fit_chars, fit_padded, fit_with_width, padded_fit, push_repeated, repeat_char, seq_width, skip_display_prefix,
    skip_scan, spaces,
};
use crate::menus::{binding_widths, help_menu_binding_widths, help_menu_key_color, help_menu_key_text, help_menu_section_color, key_text_spec, HelpMenuRow};
use crate::statusline::{copy_label_spec, error_log_copy_label};
use crate::text::{error_log_separator, error_separator, format_count, formatted_count};
use crate::theme::{Color, DiffTheme};
use crate::unicode::{str_width, unicode_str_width};

verus! {

/// A piece of text drawn in one style.
pub struct StyledSpan {
    pub text: String,
    pub style: CellStyle,
}

/// The text and style of each span.
pub open spec fn span_views(s: Seq<StyledSpan>) -> Seq<(Seq<char>, CellStyle)> {
    s.map_values(|p: StyledSpan| (p.text@, p.style))
}

/// `a + b`, or `usize::MAX` when the sum does not fit.
pub open spec fn sum_capped(a: int, b: int) -> int {
    if a + b > usize::MAX { usize::MAX as int } else { a + b }
}

/// One span, or none when its text is empty.
pub open spec fn nonempty_span(text: Seq<char>, style: CellStyle) -> Seq<(Seq<char>, CellStyle)> {
    if text.len() > 0 { seq![(text, style)] } else { Seq::empty() }
}

/// The spans of a row cut at column `width`, given that `used` columns
/// (fewer than `width`) are already on the left: spans that fit go left
/// whole, and the first that does not is cut, its head padded to the cut on
/// the left and its tail on the right, followed by the rest.
pub open spec fn split_spans(spans: Seq<(Seq<char>, CellStyle)>, width: nat, used: nat) -> (Seq<(Seq<char>, CellStyle)>, Seq<(Seq<char>, CellStyle)>)
    decreases spans.len(),
{
    if spans.len() == 0 {
        (Seq::empty(), Seq::empty())
    } else {
        let text = spans[0].0;
        let style = spans[0].1;
        let next = sum_capped(used as int, unicode_str_width(text) as int);
        if next <= width {
            if next == width {
                (seq![spans[0]], spans.drop_first())
            } else {
                let rest = split_spans(spans.drop_first(), width, next as nat);
                (seq![spans[0]] + rest.0, rest.1)
            }
        } else {
            let remaining = (width - used) as nat;
            let head = fit_chars(text, remaining);
            let head_width = seq_width(head);
            let pad = if head_width < remaining {
                seq![(repeat_char(' ', (remaining - head_width) as nat), style)]
            } else {
                Seq::empty()
            };
            let tail = text.skip(skip_scan(text, remaining, 0).0 as int);
            (nonempty_span(head, style) + pad, nonempty_span(tail, style) + spans.drop_first())
        }
    }
}

fn copy_span(span: &StyledSpan) -> (r: StyledSpan)
    ensures
        r.text@ == span.text@,
        r.style == span.style,
{
    StyledSpan { text: String::from_str(span.text.as_str()), style: span.style }
}

/// Cuts a row of spans at column `width` (see `split_spans`); a width of
/// zero leaves everything on the right.
pub fn split_line_at_width(spans: Vec<StyledSpan>, width: usize) -> (r: (Vec<StyledSpan>, Vec<StyledSpan>))
    ensures
        width == 0 ==> span_views(r.0@) == Seq::<(Seq<char>, CellStyle)>::empty() && span_views(r.1@) == span_views(spans@),
        width > 0 ==> (span_views(r.0@), span_views(r.1@)) == split_spans(span_views(spans@), width as nat, 0),
{
    if width == 0 {
        return (Vec::new(), spans);
    }
    let ghost all = span_views(spans@);
    let mut left: Vec<StyledSpan> = Vec::new();
    let mut right: Vec<StyledSpan> = Vec::new();
    let mut used: usize = 0;
    let mut i: usize = 0;
    assert(all.skip(0) =~= all);
    assert(span_views(left@) =~= Seq::<(Seq<char>, CellStyle)>::empty());
    while i < spans.len()
        invariant
            width > 0,
            i <= spans@.len(),
            used < width,
            all == span_views(spans@),
            right@.len() == 0,
            split_spans(all, width as nat, 0) == (
                span_views(left@) + split_spans(all.skip(i as int), width as nat, used as nat).0,
                split_spans(all.skip(i as int), width as nat, used as nat).1,
            ),
        decreases spans@.len() - i,
    {
        let ghost rest = all.skip(i as int);
        assert(rest[0] == (spans@[i as int].text@, spans@[i as int].style));
        assert(rest.drop_first() =~= all.skip(i + 1));
        let span_width = str_width(spans[i].text.as_str());
        let next = used.saturating_add(span_width);
        if next <= width {
            let copied = copy_span(&spans[i]);
            let ghost before = span_views(left@);
            left.push(copied);
            proof {
                assert(span_views(left@) =~= before.push(rest[0]));
                assert(before.push(rest[0]) =~= before + seq![rest[0]]);
            }
            if next == width {
                let mut j: usize = i + 1;
                while j < spans.len()
                    invariant
                        i < j <= spans@.len(),
                        all == span_views(spans@),
                        span_views(right@) == all.subrange(i + 1, j as int),
                    decreases spans@.len() - j,
                {
                    let copied = copy_span(&spans[j]);
                    let ghost before_r = span_views(right@);
                    right.push(copied);
                    proof {
                        assert(all[j as int] == (spans@[j as int].text@, spans@[j as int].style));
                        assert(span_views(right@) =~= before_r.push(all[j as int]));
                        assert(span_views(right@) =~= all.subrange(i + 1, j + 1));
                    }
                    j += 1;
                }
                proof {
                    assert(all.subrange(i + 1, spans@.len() as int) =~= all.skip(i + 1));
                }
                return (left, right);
            }
            proof {
                let tail = split_spans(rest.drop_first(), width as nat, next as nat);
                assert(span_views(left@) + tail.0 =~= before + (seq![rest[0]] + tail.0));
            }
            used = next;
        } else {
            let remaining = width - used;
            let text = spans[i].text.as_str();
            let style = spans[i].style;
            let (head, head_width, _) = fit_with_width(text, remaining);
            let ghost l0 = span_views(left@);
            if head.as_str().unicode_len() > 0 {
                left.push(StyledSpan { text: head, style });
            }
            if head_width < remaining {
                left.push(StyledSpan { text: spaces(remaining - head_width), style });
            }
            proof {
                let head_part = nonempty_span(head@, style);
                let pad = if head_width < remaining {
                    seq![(repeat_char(' ', (remaining - head_width) as nat), style)]
                } else {
                    Seq::empty()
                };
                assert(span_views(left@) =~= l0 + (head_part + pad));
            }
            let (tail, _) = skip_display_prefix(text, remaining);
            if tail.unicode_len() > 0 {
                right.push(StyledSpan { text: String::from_str(tail), style });
            }
            let mut j: usize = i + 1;
            let ghost base = span_views(right@);
            assert(base =~= nonempty_span(tail@, style));
            while j < spans.len()
                invariant
                    i < j <= spans@.len(),
                    all == span_views(spans@),
                    span_views(right@) == base + all.subrange(i + 1, j as int),
                decreases spans@.len() - j,
            {
                let copied = copy_span(&spans[j]);
                let ghost before_r = span_views(right@);
                right.push(copied);
                proof {
                    assert(all[j as int] == (spans@[j as int].text@, spans@[j as int].style));
                    assert(span_views(right@) =~= before_r.push(all[j as int]));
                    assert(span_views(right@) =~= base + all.subrange(i + 1, j + 1));
                }
                j += 1;
            }
            proof {
                assert(all.subrange(i + 1, spans@.len() as int) =~= all.skip(i + 1));
            }
            return (left, right);
        }
        i += 1;
    }
    proof {
        assert(all.skip(i as int) =~= Seq::<(Seq<char>, CellStyle)>::empty());
    }
    (left, right)
}

/// The style of an annotation block's border: the hunk color, bold, on the
/// base background.
pub open spec fn border_style(theme: DiffTheme) -> CellStyle {
    CellStyle { fg: Some(theme.hunk), bg: Some(base_bg_spec(theme)), bold: true }
}

/// The style of an annotation block's border.
pub fn annotation_border_style(theme: DiffTheme) -> (r: CellStyle)
    ensures
        r == border_style(theme),
{
    CellStyle { fg: Some(theme.hunk), bg: Some(base_bg(theme)), bold: true }
}

fn rule(width: usize) -> (r: String)
    ensures
        r@ == repeat_char('─', width as nat),
{
    let mut out = String::new();
    push_repeated(&mut out, '─', width);
    assert(out@ =~= repeat_char('─', width as nat));
    out
}

/// The top border of an annotation block `width` columns wide: a rule, led
/// by `label` and a space when there is one, then the close button at the
/// right end; a block narrower than the close button shows only the rule.
pub open spec fn top_border_spec(width: nat, theme: DiffTheme, label: Option<Seq<char>>, buttons: AnnotationButtons) -> Seq<(Seq<char>, CellStyle)> {
    if width < buttons.close_width {
        seq![(fit_chars("─"@, width), border_style(theme))]
    } else {
        let rule_width = (width - buttons.close_width) as nat;
        let close = seq![(buttons.close@, CellStyle { fg: Some(theme.deletion_fg), bg: Some(base_bg_spec(theme)), bold: true })];
        match label {
            Some(l) => {
                let shown = fit_chars(l + " "@, rule_width);
                let shown_width = unicode_str_width(shown) as int;
                let fill = if rule_width > shown_width { rule_width - shown_width } else { 0 };
                (if shown_width > 0 {
                    seq![(shown, CellStyle { fg: Some(theme.foreground), bg: Some(base_bg_spec(theme)), bold: false })]
                } else {
                    Seq::empty()
                }) + (if fill > 0 { seq![(repeat_char('─', fill as nat), border_style(theme))] } else { Seq::empty() }) + close
            },
            None => (if rule_width > 0 {
                seq![(repeat_char('─', rule_width), border_style(theme))]
            } else {
                Seq::empty()
            }) + close,
        }
    }
}

/// The characters of an optional text slice.
pub open spec fn opt_chars(s: Option<&str>) -> Option<Seq<char>> {
    match s {
        Some(t) => Some(t@),
        None => None,
    }
}

/// The top border of an annotation block (see `top_border_spec`).
pub fn annotation_top_border_line(width: usize, theme: DiffTheme, label: Option<&str>, buttons: &AnnotationButtons) -> (r: Vec<StyledSpan>)
    ensures
        span_views(r@) == top_border_spec(width as nat, theme, opt_chars(label), *buttons),
{
    proof {
        reveal_strlit("─");
        reveal_strlit(" ");
    }
    let border = annotation_border_style(theme);
    if width < buttons.close_width {
        let mut out: Vec<StyledSpan> = Vec::new();
        out.push(StyledSpan { text: fit("─", width), style: border });
        assert(span_views(out@) =~= seq![(fit_chars("─"@, width as nat), border)]);
        return out;
    }
    let rule_width = width - buttons.close_width;
    let mut spans: Vec<StyledSpan> = Vec::new();
    match label {
        Some(l) => {
            let mut text = String::from_str(l);
            text.append(" ");
            let shown = fit(text.as_str(), rule_width);
            let shown_width = str_width(shown.as_str());
            let ghost shown_view = shown@;
            if shown_width > 0 {
                spans.push(StyledSpan { text: shown, style: CellStyle { fg: Some(theme.foreground), bg: Some(base_bg(theme)), bold: false } });
            }
            let fill = rule_width.saturating_sub(shown_width);
            if fill > 0 {
                spans.push(StyledSpan { text: rule(fill), style: border });
            }
            assert(span_views(spans@) =~= (if shown_width > 0 {
                seq![(shown_view, CellStyle { fg: Some(theme.foreground), bg: Some(base_bg_spec(theme)), bold: false })]
            } else {
                Seq::empty()
            }) + (if fill > 0 { seq![(repeat_char('─', fill as nat), border_style(theme))] } else { Seq::empty() }));
        },
        None => {
            if rule_width > 0 {
                spans.push(StyledSpan { text: rule(rule_width), style: border });
            }
            assert(span_views(spans@) =~= (if rule_width > 0 {
                seq![(repeat_char('─', rule_width as nat), border_style(theme))]
            } else {
                Seq::empty()
            }));
        },
    }
    let ghost before = span_views(spans@);
    spans.push(StyledSpan {
        text: String::from_str(buttons.close.as_str()),
        style: CellStyle { fg: Some(theme.deletion_fg), bg: Some(base_bg(theme)), bold: true },
    });
    assert(span_views(spans@) =~= before + seq![(buttons.close@, CellStyle { fg: Some(theme.deletion_fg), bg: Some(base_bg_spec(theme)), bold: true })]);
    spans
}

/// The bottom border of an annotation block `width` columns wide: a rule
/// across the block, ending in the footer button's label when there is a
/// button (the edit button in the search color, the submit button in the
/// added color, both bold); a block of no width with a button has no spans.
pub open spec fn bottom_border_spec(width: nat, theme: DiffTheme, button: AnnotationFooterButton, buttons: AnnotationButtons) -> Seq<(Seq<char>, CellStyle)> {
    if button == AnnotationFooterButton::NoButton {
        seq![(repeat_char('─', width), border_style(theme))]
    } else if width == 0 {
        Seq::empty()
    } else {
        let label = footer_label(width, button, buttons);
        let label_width = unicode_str_width(label) as int;
        let left = if width > label_width { width - label_width } else { 0 };
        let fg = if button == AnnotationFooterButton::Edit { theme.search_match_bg } else { theme.addition_fg };
        seq![
            (repeat_char('─', left as nat), border_style(theme)),
            (label, CellStyle { fg: Some(fg), bg: Some(base_bg_spec(theme)), bold: true }),
        ]
    }
}

/// The bottom border of an annotation block (see `bottom_border_spec`).
pub fn annotation_bottom_border_line(width: usize, theme: DiffTheme, button: AnnotationFooterButton, buttons: &AnnotationButtons) -> (r: Vec<StyledSpan>)
    ensures
        span_views(r@) == bottom_border_spec(width as nat, theme, button, *buttons),
{
    let style = annotation_border_style(theme);
    let mut out: Vec<StyledSpan> = Vec::new();
    if button == AnnotationFooterButton::NoButton {
        out.push(StyledSpan { text: rule(width), style });
        assert(span_views(out@) =~= seq![(repeat_char('─', width as nat), border_style(theme))]);
        return out;
    }
    if width == 0 {
        assert(span_views(out@) =~= Seq::<(Seq<char>, CellStyle)>::empty());
        return out;
    }
    let label = annotation_footer_button_label(width, button, buttons);
    let label_width = str_width(label.as_str());
    let left = width.saturating_sub(label_width);
    let fg = match button {
        AnnotationFooterButton::Edit => theme.search_match_bg,
        _ => theme.addition_fg,
    };
    let ghost label_view = label@;
    out.push(StyledSpan { text: rule(left), style });
    out.push(StyledSpan { text: label, style: CellStyle { fg: Some(fg), bg: Some(base_bg(theme)), bold: true } });
    assert(span_views(out@) =~= seq![
        (repeat_char('─', left as nat), border_style(theme)),
        (label_view, CellStyle { fg: Some(fg), bg: Some(base_bg_spec(theme)), bold: true }),
    ]);
    out
}

/// A row of an annotation's body: `text` fitted and padded to the block's
/// width, in `fg` on the base background.
pub fn annotation_body_line(text: &str, width: usize, theme: DiffTheme, fg: Color) -> (r: Vec<StyledSpan>)
    ensures
        span_views(r@) == seq![(padded_fit(text@, width as nat), CellStyle { fg: Some(fg), bg: Some(base_bg_spec(theme)), bold: false })],
{
    let mut out: Vec<StyledSpan> = Vec::new();
    let body = fit_padded(text, width);
    proof {
        if width == 0 {
            assert(padded_fit(text@, 0) =~= Seq::<char>::empty()) by {
                assert(fit_chars(text@, 0) =~= Seq::<char>::empty());
            }
        }
    }
    out.push(StyledSpan { text: body, style: CellStyle { fg: Some(fg), bg: Some(base_bg(theme)), bold: false } });
    assert(span_views(out@) =~= seq![(padded_fit(text@, width as nat), CellStyle { fg: Some(fg), bg: Some(base_bg_spec(theme)), bold: false })]);
    out
}

/// The spans of a row kept before a button that starts at column `content`,
/// given `used` columns already kept: spans that fit are kept whole, and
/// the first that does not is fitted and padded to end at the button. Also
/// gives the columns then used.
pub open spec fn add_button_prefix(spans: Seq<(Seq<char>, CellStyle)>, content: nat, used: nat) -> (Seq<(Seq<char>, CellStyle)>, nat)
    decreases spans.len(),
{
    if spans.len() == 0 || used >= content {
        (Seq::empty(), used)
    } else {
        let w = unicode_str_width(spans[0].0) as nat;
        if used + w <= content {
            let rest = add_button_prefix(spans.drop_first(), content, used + w);
            (seq![spans[0]] + rest.0, rest.1)
        } else {
            (seq![(padded_fit(spans[0].0, (content - used) as nat), spans[0].1)], content)
        }
    }
}

/// A row `width` columns wide with the add button at its right end: the
/// row's spans up to the button, blank cells on the cursor line's
/// background up to it, then the button in the hunk color, bold. A row
/// narrower than the button is left as it is.
pub open spec fn add_button_spec(spans: Seq<(Seq<char>, CellStyle)>, width: nat, theme: DiffTheme, buttons: AnnotationButtons) -> Seq<(Seq<char>, CellStyle)> {
    if width < buttons.add_width {
        spans
    } else {
        let content = (width - buttons.add_width) as nat;
        let prefix = add_button_prefix(spans, content, 0);
        prefix.0 + (if prefix.1 < content {
            seq![(repeat_char(' ', (content - prefix.1) as nat), CellStyle { fg: None, bg: Some(theme.cursor_line_bg), bold: false })]
        } else {
            Seq::empty()
        }) + seq![(buttons.add@, CellStyle { fg: Some(theme.hunk), bg: Some(theme.cursor_line_bg), bold: true })]
    }
}

/// Puts the add button at the right end of a row (see `add_button_spec`).
pub fn append_annotation_add_button(line: Vec<StyledSpan>, width: usize, theme: DiffTheme, buttons: &AnnotationButtons) -> (r: Vec<StyledSpan>)
    ensures
        span_views(r@) == add_button_spec(span_views(line@), width as nat, theme, *buttons),
{
    if width < buttons.add_width {
        return line;
    }
    let content = width - buttons.add_width;
    let ghost all = span_views(line@);
    let mut out: Vec<StyledSpan> = Vec::new();
    let mut used: usize = 0;
    let mut i: usize = 0;
    assert(all.skip(0) =~= all);
    assert(span_views(out@) =~= Seq::<(Seq<char>, CellStyle)>::empty());
    while i < line.len()
        invariant_except_break
            i <= line@.len(),
            used <= content,
            all == span_views(line@),
            add_button_prefix(all, content as nat, 0) == (
                span_views(out@) + add_button_prefix(all.skip(i as int), content as nat, used as nat).0,
                add_button_prefix(all.skip(i as int), content as nat, used as nat).1,
            ),
        ensures
            used <= content,
            add_button_prefix(all, content as nat, 0) == (span_views(out@), used as nat),
        decreases line@.len() - i,
    {
        let ghost rest = all.skip(i as int);
        assert(rest[0] == (line@[i as int].text@, line@[i as int].style));
        assert(rest.drop_first() =~= all.skip(i + 1));
        if used >= content {
            assert(span_views(out@) + Seq::<(Seq<char>, CellStyle)>::empty() =~= span_views(out@));
            break;
        }
        let span_width = str_width(line[i].text.as_str());
        let ghost before = span_views(out@);
        if span_width <= content - used {
            let copied = copy_span(&line[i]);
            out.push(copied);
            proof {
                let tail = add_button_prefix(rest.drop_first(), content as nat, (used + span_width) as nat);
                assert(span_views(out@) =~= before.push(rest[0]));
                assert(span_views(out@) + tail.0 =~= before + (seq![rest[0]] + tail.0));
            }
            used = used + span_width;
        } else {
            let remaining = content - used;
            let text = fit_padded(line[i].text.as_str(), remaining);
            out.push(StyledSpan { text, style: line[i].style });
            proof {
                assert(span_views(out@) =~= before + seq![(padded_fit(rest[0].0, remaining as nat), rest[0].1)]);
            }
            used = content;
            break;
        }
        i += 1;
    }
    proof {
        if i == line@.len() {
            assert(all.skip(i as int) =~= Seq::<(Seq<char>, CellStyle)>::empty());
            assert(span_views(out@) + Seq::<(Seq<char>, CellStyle)>::empty() =~= span_views(out@));
        }
    }
    let ghost prefix = span_views(out@);
    if used < content {
        out.push(StyledSpan { text: spaces(content - used), style: CellStyle { fg: None, bg: Some(theme.cursor_line_bg), bold: false } });
    }
    let ghost padded = span_views(out@);
    proof {
        assert(padded =~= prefix + (if used < content {
            seq![(repeat_char(' ', (content - used) as nat), CellStyle { fg: None, bg: Some(theme.cursor_line_bg), bold: false })]
        } else {
            Seq::empty()
        }));
    }
    out.push(StyledSpan {
        text: String::from_str(buttons.add.as_str()),
        style: CellStyle { fg: Some(theme.hunk), bg: Some(theme.cursor_line_bg), bold: true },
    });
    assert(span_views(out@) =~= padded + seq![(buttons.add@, CellStyle { fg: Some(theme.hunk), bg: Some(theme.cursor_line_bg), bold: true })]);
    out
}

/// A row cut at column `width`; a width of zero leaves it all on the right.
pub open spec fn split_at_spec(spans: Seq<(Seq<char>, CellStyle)>, width: nat) -> (Seq<(Seq<char>, CellStyle)>, Seq<(Seq<char>, CellStyle)>) {
    if width == 0 { (Seq::empty(), spans) } else { split_spans(spans, width, 0) }
}

/// A row with the add button ending at column `end_width`: the row is cut
/// there, the button put at the end of the left part, and the right part
/// kept after it.
pub open spec fn add_button_at_spec(spans: Seq<(Seq<char>, CellStyle)>, end_width: nat, theme: DiffTheme, buttons: AnnotationButtons) -> Seq<(Seq<char>, CellStyle)> {
    let parts = split_at_spec(spans, end_width);
    add_button_spec(parts.0, end_width, theme, buttons) + parts.1
}

/// Puts the add button so that it ends at column `end_width` (see
/// `add_button_at_spec`).
pub fn append_annotation_add_button_ending_at(line: Vec<StyledSpan>, end_width: usize, theme: DiffTheme, buttons: &AnnotationButtons) -> (r: Vec<StyledSpan>)
    ensures
        span_views(r@) == add_button_at_spec(span_views(line@), end_width as nat, theme, *buttons),
{
    let (prefix, suffix) = split_line_at_width(line, end_width);
    let mut spans = append_annotation_add_button(prefix, end_width, theme, buttons);
    let ghost head = span_views(spans@);
    let mut j: usize = 0;
    while j < suffix.len()
        invariant
            j <= suffix@.len(),
            span_views(spans@) == head + span_views(suffix@).subrange(0, j as int),
        decreases suffix@.len() - j,
    {
        let copied = copy_span(&suffix[j]);
        let ghost before = span_views(spans@);
        spans.push(copied);
        proof {
            assert(span_views(spans@) =~= before.push(span_views(suffix@)[j as int]));
            assert(span_views(spans@) =~= head + span_views(suffix@).subrange(0, j + 1));
        }
        j += 1;
    }
    assert(span_views(suffix@).subrange(0, suffix@.len() as int) =~= span_views(suffix@));
    spans
}

/// The add button on one side of a split row `width` columns wide: at the
/// end of the left half for the old side, at the end of the row for the new
/// side, when that half is at least as wide as the button; else the row as
/// it is.
pub open spec fn split_add_button_spec(spans: Seq<(Seq<char>, CellStyle)>, width: nat, side: AnnotationSide, theme: DiffTheme, buttons: AnnotationButtons) -> Seq<(Seq<char>, CellStyle)> {
    let left = width / 2;
    let right = (width - left) as nat;
    match side {
        AnnotationSide::Old => if left >= buttons.add_width { add_button_at_spec(spans, left, theme, buttons) } else { spans },
        AnnotationSide::New => if right >= buttons.add_width { add_button_spec(spans, width, theme, buttons) } else { spans },
    }
}

/// Puts the add button on one side of a split row (see
/// `split_add_button_spec`).
pub fn append_split_annotation_add_button(line: Vec<StyledSpan>, width: usize, side: AnnotationSide, theme: DiffTheme, buttons: &AnnotationButtons) -> (r: Vec<StyledSpan>)
    ensures
        span_views(r@) == split_add_button_spec(span_views(line@), width as nat, side, theme, *buttons),
{
    let left_width = width / 2;
    let right_width = width - left_width;
    match side {
        AnnotationSide::Old => if left_width >= buttons.add_width {
            append_annotation_add_button_ending_at(line, left_width, theme, buttons)
        } else {
            line
        },
        AnnotationSide::New => if right_width >= buttons.add_width {
            append_annotation_add_button(line, width, theme, buttons)
        } else {
            line
        },
    }
}

/// The style of the error log's header: the deleted color, bold, on the
/// base background.
pub open spec fn error_rule_style(theme: DiffTheme) -> CellStyle {
    CellStyle { fg: Some(theme.deletion_fg), bg: Some(base_bg_spec(theme)), bold: true }
}

/// The header row of the error log, `width` columns wide: `error ` and a
/// rule up to the copy hint for the key `key` bound to copying the log;
/// just the separator when there is no hint or no room for it; the title
/// cut to the width when the row is no wider than it.
pub open spec fn error_header_spec(theme: DiffTheme, key: Seq<char>, width: nat) -> Seq<(Seq<char>, CellStyle)> {
    let title = seq!['e', 'r', 'r', 'o', 'r', ' '];
    let copy = copy_label_spec(key);
    let cw = unicode_str_width(copy) as int;
    if width == 0 {
        Seq::empty()
    } else if width <= 6 {
        seq![(fit_chars(title, width), error_rule_style(theme))]
    } else if cw == 0 || 6 + cw >= width {
        seq![(error_separator(width), error_rule_style(theme))]
    } else {
        seq![
            (title, error_rule_style(theme)),
            (repeat_char('─', (width - 6 - cw) as nat), error_rule_style(theme)),
            (copy, error_rule_style(theme)),
        ]
    }
}

/// The header row of the error log (see `error_header_spec`).
pub fn error_log_header_line(theme: DiffTheme, key: &str, width: usize) -> (r: Vec<StyledSpan>)
    ensures
        span_views(r@) == error_header_spec(theme, key@, width as nat),
{
    let mut out: Vec<StyledSpan> = Vec::new();
    if width == 0 {
        assert(span_views(out@) =~= Seq::<(Seq<char>, CellStyle)>::empty());
        return out;
    }
    let title = "error ";
    proof {
        reveal_strlit("error ");
    }
    assert(title@ =~= seq!['e', 'r', 'r', 'o', 'r', ' ']);
    let rule_style = CellStyle { fg: Some(theme.deletion_fg), bg: Some(base_bg(theme)), bold: true };
    let title_width = str_width(title);
    if width <= title_width {
        out.push(StyledSpan { text: fit(title, width), style: rule_style });
        assert(span_views(out@) =~= seq![(fit_chars(title@, width as nat), rule_style)]);
        return out;
    }
    let copy = error_log_copy_label(key);
    let copy_width = str_width(copy.as_str());
    if copy_width == 0 || title_width.saturating_add(copy_width) >= width {
        out.push(StyledSpan { text: error_log_separator(width), style: rule_style });
        assert(span_views(out@) =~= seq![(error_separator(width as nat), rule_style)]);
        return out;
    }
    let rule_width = width - title_width - copy_width;
    let ghost copy_view = copy@;
    out.push(StyledSpan { text: String::from_str(title), style: rule_style });
    out.push(StyledSpan { text: rule(rule_width), style: rule_style });
    out.push(StyledSpan { text: copy, style: rule_style });
    assert(span_views(out@) =~= seq![
        (title@, rule_style),
        (repeat_char('─', rule_width as nat), rule_style),
        (copy_view, rule_style),
    ]);
    out
}

/// The bar drawn at the left edge of a diff row.
pub const DIFF_INDICATOR: &'static str = "▌";

/// A row's diff indicator in the row's indicator style.
pub fn diff_indicator_span(kind: DiffLineKind, theme: DiffTheme, delta_gutter: bool) -> (r: StyledSpan)
    ensures
        r.text@ == DIFF_INDICATOR@,
        r.style == (CellStyle { fg: Some(indicator_fg_spec(kind, theme)), bg: Some(gutter_bg_spec(kind, theme, delta_gutter)), bold: false }),
{
    StyledSpan { text: String::from_str(DIFF_INDICATOR), style: diff_indicator_style(kind, theme, delta_gutter) }
}

/// The focused row's diff indicator: the hunk color, bold.
pub fn focused_diff_indicator_span(kind: DiffLineKind, theme: DiffTheme, delta_gutter: bool) -> (r: StyledSpan)
    ensures
        r.text@ == DIFF_INDICATOR@,
        r.style == (CellStyle { fg: Some(theme.hunk), bg: Some(gutter_bg_spec(kind, theme, delta_gutter)), bold: true }),
{
    StyledSpan { text: String::from_str(DIFF_INDICATOR), style: focused_diff_indicator_style(kind, theme, delta_gutter) }
}

/// A row `width` columns wide that offers an action on hidden context: the
/// meta row's indicator, then `label` fitted and padded into the rest in
/// `text_color` on the base background.
pub open spec fn context_action_spec(label: Seq<char>, width: nat, theme: DiffTheme, text_color: Color) -> Seq<(Seq<char>, CellStyle)> {
    if width == 0 {
        Seq::empty()
    } else {
        let indicator = (DIFF_INDICATOR@, CellStyle {
            fg: Some(indicator_fg_spec(DiffLineKind::Meta, theme)),
            bg: Some(gutter_bg_spec(DiffLineKind::Meta, theme, false)),
            bold: false,
        });
        seq![indicator] + (if width > 1 {
            seq![(padded_fit(label, (width - 1) as nat), CellStyle { fg: Some(text_color), bg: Some(base_bg_spec(theme)), bold: false })]
        } else {
            Seq::empty()
        })
    }
}

/// A row offering an action on hidden context (see `context_action_spec`).
pub fn context_action_line(label: &str, width: usize, theme: DiffTheme, text_color: Color) -> (r: Vec<StyledSpan>)
    ensures
        span_views(r@) == context_action_spec(label@, width as nat, theme, text_color),
{
    let mut out: Vec<StyledSpan> = Vec::new();
    if width == 0 {
        assert(span_views(out@) =~= Seq::<(Seq<char>, CellStyle)>::empty());
        return out;
    }
    out.push(diff_indicator_span(DiffLineKind::Meta, theme, false));
    let content_width = width - 1;
    if content_width > 0 {
        out.push(StyledSpan {
            text: fit_padded(label, content_width),
            style: CellStyle { fg: Some(text_color), bg: Some(base_bg(theme)), bold: false },
        });
    }
    assert(span_views(out@) =~= context_action_spec(label@, width as nat, theme, text_color));
    out
}

/// `line` for one line, `lines` for any other count.
pub open spec fn lines_word(lines: nat) -> Seq<char> {
    if lines == 1 { "line"@ } else { "lines"@ }
}

/// The label of a row that shows `lines` hidden unchanged lines, after
/// `marker`: `show N lines`, or `show N more lines` when some are shown
/// already.
pub open spec fn show_label(lines: nat, more: bool, marker: Seq<char>) -> Seq<char> {
    " "@ + marker + " show "@ + formatted_count(lines) + (if more { " more "@ } else { " "@ }) + lines_word(lines)
}

/// The label of a row that hides `lines` unchanged lines, after `marker`:
/// `hide N lines`.
pub open spec fn hide_label(lines: nat, marker: Seq<char>) -> Seq<char> {
    " "@ + marker + " hide "@ + formatted_count(lines) + " "@ + lines_word(lines)
}

fn lines_word_text(lines: usize) -> (r: &'static str)
    ensures
        r@ == lines_word(lines as nat),
{
    if lines == 1 { "line" } else { "lines" }
}

/// The row that shows hidden unchanged lines, in the muted color.
pub fn context_show_line(lines: usize, more: bool, marker: &str, width: usize, theme: DiffTheme) -> (r: Vec<StyledSpan>)
    ensures
        span_views(r@) == context_action_spec(show_label(lines as nat, more, marker@), width as nat, theme, theme.muted),
{
    if width == 0 {
        let out: Vec<StyledSpan> = Vec::new();
        assert(span_views(out@) =~= Seq::<(Seq<char>, CellStyle)>::empty());
        return out;
    }
    let mut label = String::from_str(" ");
    label.append(marker);
    label.append(" show ");
    let count = format_count(lines);
    label.append(count.as_str());
    if more {
        label.append(" more ");
    } else {
        label.append(" ");
    }
    label.append(lines_word_text(lines));
    assert(label@ =~= show_label(lines as nat, more, marker@));
    context_action_line(label.as_str(), width, theme, theme.muted)
}

/// The row that hides unchanged lines, in the muted color.
pub fn context_hide_line(lines: usize, marker: &str, width: usize, theme: DiffTheme) -> (r: Vec<StyledSpan>)
    ensures
        span_views(r@) == context_action_spec(hide_label(lines as nat, marker@), width as nat, theme, theme.muted),
{
    let mut label = String::from_str(" ");
    label.append(marker);
    label.append(" hide ");
    let count = format_count(lines);
    label.append(count.as_str());
    label.append(" ");
    label.append(lines_word_text(lines));
    assert(label@ =~= hide_label(lines as nat, marker@));
    context_action_line(label.as_str(), width, theme, theme.muted)
}

/// Appends `text` fitted into the `remaining` columns of a filter bar and
/// takes its width from them; nothing when no room is left or nothing fits.
pub fn push_filter_bar_span(spans: &mut Vec<StyledSpan>, text: &str, style: CellStyle, remaining: &mut usize)
    ensures
        ({
            let shown = fit_chars(text@, *old(remaining) as nat);
            if *old(remaining) == 0 || shown.len() == 0 {
                span_views(final(spans)@) == span_views(old(spans)@) && *final(remaining) == *old(remaining)
            } else {
                &&& span_views(final(spans)@) == span_views(old(spans)@).push((shown, style))
                &&& *final(remaining) == if *old(remaining) > unicode_str_width(shown) {
                    (*old(remaining) - unicode_str_width(shown)) as usize
                } else {
                    0usize
                }
            }
        }),
{
    if *remaining == 0 {
        return;
    }
    let fitted = fit(text, *remaining);
    if fitted.as_str().unicode_len() == 0 {
        return;
    }
    *remaining = (*remaining).saturating_sub(str_width(fitted.as_str()));
    let ghost shown = fitted@;
    spans.push(StyledSpan { text: fitted, style });
    assert(span_views(spans@) =~= span_views(old(spans)@).push((shown, style)));
}

/// A help menu row `width` columns wide, with `indent` before a section's
/// title: a section's title in the section color, bold; a binding's keys
/// (`key_label`, as the keymap names them) in the key color, bold, and its
/// description in the foreground color, each in its share of the width.
pub open spec fn help_row_spec(row: HelpMenuRow, key_label: Seq<char>, width: nat, theme: DiffTheme, indent: Seq<char>) -> Seq<(Seq<char>, CellStyle)> {
    let bg = Some(base_bg_spec(theme));
    match row {
        HelpMenuRow::Section(title) => seq![(
            padded_fit(indent + title@, width),
            CellStyle {
                fg: Some(match theme.syntax.keyword { Some(c) => c, None => theme.hunk }),
                bg,
                bold: true,
            },
        )],
        HelpMenuRow::Binding(_, description) => {
            let widths = binding_widths(unicode_str_width(key_label) as nat, unicode_str_width(description@) as nat, width);
            seq![
                (key_text_spec(key_label, widths.0), CellStyle {
                    fg: Some(match theme.syntax.function { Some(c) => c, None => theme.header }),
                    bg,
                    bold: true,
                }),
                (padded_fit(description@, widths.1), CellStyle { fg: Some(theme.foreground), bg, bold: false }),
            ]
        },
    }
}

fn padded(text: &str, width: usize) -> (r: String)
    ensures
        r@ == padded_fit(text@, width as nat),
{
    let out = fit_padded(text, width);
    proof {
        if width == 0 {
            assert(fit_chars(text@, 0) =~= Seq::<char>::empty());
            assert(padded_fit(text@, 0) =~= Seq::<char>::empty());
        }
    }
    out
}

fn help_row(row: HelpMenuRow, key_label: &str, width: usize, theme: DiffTheme, indent: &str) -> (r: Vec<StyledSpan>)
    ensures
        span_views(r@) == help_row_spec(row, key_label@, width as nat, theme, indent@),
{
    let bg = Some(base_bg(theme));
    let mut out: Vec<StyledSpan> = Vec::new();
    match row {
        HelpMenuRow::Section(title) => {
            let mut label = String::from_str(indent);
            label.append(title);
            let style = CellStyle { fg: Some(help_menu_section_color(theme)), bg, bold: true };
            out.push(StyledSpan { text: padded(label.as_str(), width), style });
        },
        HelpMenuRow::Binding(_, description) => {
            let (key_width, description_width) = help_menu_binding_widths(key_label, description, width);
            out.push(StyledSpan {
                text: help_menu_key_text(key_label, key_width),
                style: CellStyle { fg: Some(help_menu_key_color(theme)), bg, bold: true },
            });
            out.push(StyledSpan {
                text: padded(description, description_width),
                style: CellStyle { fg: Some(theme.foreground), bg, bold: false },
            });
        },
    }
    assert(span_views(out@) =~= help_row_spec(row, key_label@, width as nat, theme, indent@));
    out
}

/// A row of the help menu as the menu draws it: a section's title after one
/// space (see `help_row_spec`).
pub fn help_menu_row_line(row: HelpMenuRow, key_label: &str, width: usize, theme: DiffTheme) -> (r: Vec<StyledSpan>)
    ensures
        span_views(r@) == help_row_spec(row, key_label@, width as nat, theme, " "@),
{
    help_row(row, key_label, width, theme, " ")
}

/// A row of the help menu as its listing lays it out: a section's title
/// after two spaces (see `help_row_spec`).
pub fn help_menu_row_spans(row: HelpMenuRow, key_label: &str, width: usize, theme: DiffTheme) -> (r: Vec<StyledSpan>)
    ensures
        span_views(r@) == help_row_spec(row, key_label@, width as nat, theme, "  "@),
{
    help_row(row, key_label, width, theme, "  ")
}

/// The spans of each row.
pub open spec fn row_views(rows: Seq<Vec<StyledSpan>>) -> Seq<Seq<(Seq<char>, CellStyle)>> {
    rows.map_values(|r: Vec<StyledSpan>| span_views(r@))
}

/// An annotation block `width` columns wide: the top border with its label,
/// one body row per wrapped line of `text` in `fg`, and the bottom border
/// with `button`.
pub open spec fn block_spec(text: Seq<char>, width: nat, theme: DiffTheme, label: Option<Seq<char>>, fg: Color, button: AnnotationFooterButton, buttons: AnnotationButtons) -> Seq<Seq<(Seq<char>, CellStyle)>> {
    let body = wrap_text(text, width).map_values(|l: Seq<char>| seq![(padded_fit(l, width), CellStyle { fg: Some(fg), bg: Some(base_bg_spec(theme)), bold: false })]);
    seq![top_border_spec(width, theme, label, buttons)] + body + seq![bottom_border_spec(width, theme, button, buttons)]
}

fn annotation_block(text: &str, width: usize, theme: DiffTheme, label: Option<&str>, fg: Color, button: AnnotationFooterButton, buttons: &AnnotationButtons) -> (r: Vec<Vec<StyledSpan>>)
    ensures
        row_views(r@) == block_spec(text@, width as nat, theme, opt_chars(label), fg, button, *buttons),
{
    let mut rows: Vec<Vec<StyledSpan>> = Vec::new();
    rows.push(annotation_top_border_line(width, theme, label, buttons));
    let lines = annotation_display_lines(text, width);
    let ghost wrapped = wrap_text(text@, width as nat);
    let ghost body = wrapped.map_values(|l: Seq<char>| seq![(padded_fit(l, width as nat), CellStyle { fg: Some(fg), bg: Some(base_bg_spec(theme)), bold: false })]);
    let mut i: usize = 0;
    assert(row_views(rows@) =~= seq![top_border_spec(width as nat, theme, opt_chars(label), *buttons)] + body.take(0));
    while i < lines.len()
        invariant
            i <= lines@.len(),
            views(lines@) == wrapped,
            wrapped == wrap_text(text@, width as nat),
            body == wrapped.map_values(|l: Seq<char>| seq![(padded_fit(l, width as nat), CellStyle { fg: Some(fg), bg: Some(base_bg_spec(theme)), bold: false })]),
            row_views(rows@) == seq![top_border_spec(width as nat, theme, opt_chars(label), *buttons)] + body.take(i as int),
        decreases lines@.len() - i,
    {
        let row = annotation_body_line(lines[i].as_str(), width, theme, fg);
        let ghost before = row_views(rows@);
        rows.push(row);
        proof {
            assert(views(lines@)[i as int] == lines@[i as int]@);
            assert(row_views(rows@) =~= before.push(body[i as int]));
            assert(body.take(i + 1) =~= body.take(i as int).push(body[i as int]));
        }
        i += 1;
    }
    let ghost before = row_views(rows@);
    rows.push(annotation_bottom_border_line(width, theme, button, buttons));
    proof {
        assert(views(lines@).len() == lines@.len());
        assert(body.take(lines@.len() as int) =~= body);
        assert(row_views(rows@) =~= before.push(bottom_border_spec(width as nat, theme, button, *buttons)));
    }
    rows
}

/// The rows of a saved annotation: its text in the muted color, with the
/// edit button at the bottom (see `block_spec`).
pub fn render_annotation_saved_block(text: &str, width: usize, theme: DiffTheme, label: Option<&str>, buttons: &AnnotationButtons) -> (r: Vec<Vec<StyledSpan>>)
    ensures
        row_views(r@) == block_spec(text@, width as nat, theme, opt_chars(label), theme.muted, AnnotationFooterButton::Edit, *buttons),
{
    annotation_block(text, width, theme, label, theme.muted, AnnotationFooterButton::Edit, buttons)
}

/// The rows of an annotation being written: its text with the cursor mark
/// `mark` at the cursor, in the foreground color, with the submit button at
/// the bottom (see `block_spec`).
pub fn render_annotation_compose_block(draft: &AnnotationDraft, width: usize, theme: DiffTheme, label: Option<&str>, mark: &str, buttons: &AnnotationButtons) -> (r: Vec<Vec<StyledSpan>>)
    ensures
        row_views(r@) == block_spec(cursor_text(draft.input@, draft.cursor as int, mark@), width as nat, theme, opt_chars(label),
            theme.foreground, AnnotationFooterButton::Submit, *buttons),
{
    let display = text_with_cursor(draft.input.as_str(), draft.cursor, mark);
    annotation_block(display.as_str(), width, theme, label, theme.foreground, AnnotationFooterButton::Submit, buttons)
}

/// The height the viewport plans for an annotation block is the number of
/// rows the block renders: its wrapped lines and the two borders.
pub proof fn block_height_matches_rendering(text: Seq<char>, width: nat, theme: DiffTheme, label: Option<Seq<char>>, fg: Color, button: AnnotationFooterButton, buttons: AnnotationButtons)
    ensures
        block_spec(text, width, theme, label, fg, button, buttons).len() == wrap_text(text, width).len() + 2,
{
}

} // verus!
