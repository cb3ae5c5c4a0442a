//! The styled spans of file and hunk headers: a prefix and a body on the
//! left, fitted with an ellipsis, and the `+N -M` delta at the right end.
use vstd::prelude::*;
use vstd::string::StrSliceExecFns;
use vstd::string::StringExecFns;
use crate::headers::{delta_parts_width, delta_width, fitted_parts_spec, fitted_prefixed_parts, usize_capped, DeltaKind, DeltaPart, FittedPrefixedParts};
use crate::spans::{nonempty_span, span_views, StyledSpan};
use crate::style::CellStyle;
use crate::text::{ellipsis_fit, fit, fit_chars, fit_with_ellipsis, repeat_char, spaces};
use crate::unicode::{str_width, unicode_str_width};

verus! {

/// A piece of a header's prefix with its own style.
pub struct HeaderSpanPart {
    pub text: String,
    pub style: CellStyle,
}

/// The styles of a header's parts.
#[derive(Debug, Clone, Copy, PartialEq, Eq, Structural)]
pub struct HeaderStyles {
    pub prefix: CellStyle,
    pub body: CellStyle,
    pub fill: CellStyle,
    pub addition: CellStyle,
    pub deletion: CellStyle,
}

/// The style of unstyled text.
pub open spec fn plain_style() -> CellStyle {
    CellStyle { fg: None, bg: None, bold: false }
}

/// The text and style of each header part.
pub open spec fn part_views(parts: Seq<HeaderSpanPart>) -> Seq<(Seq<char>, CellStyle)> {
    parts.map_values(|p: HeaderSpanPart| (p.text@, p.style))
}

/// The style of a delta part.
pub open spec fn delta_style_spec(kind: DeltaKind, styles: HeaderStyles) -> CellStyle {
    match kind {
        DeltaKind::Addition => styles.addition,
        DeltaKind::Deletion => styles.deletion,
    }
}

/// The style of a delta part: the added or the deleted style.
pub fn delta_style(kind: DeltaKind, styles: HeaderStyles) -> (r: CellStyle)
    ensures
        r == delta_style_spec(kind, styles),
{
    match kind {
        DeltaKind::Addition => styles.addition,
        DeltaKind::Deletion => styles.deletion,
    }
}

/// The first `n` delta parts, a space in the fill style between each two.
pub open spec fn delta_spans_spec(parts: Seq<DeltaPart>, styles: HeaderStyles, n: int) -> Seq<(Seq<char>, CellStyle)>
    decreases n,
{
    if n <= 0 {
        Seq::empty()
    } else {
        delta_spans_spec(parts, styles, n - 1) + (if n > 1 { seq![(" "@, styles.fill)] } else { Seq::empty() })
            + seq![(parts[n - 1].text@, delta_style_spec(parts[n - 1].kind, styles))]
    }
}

fn push_span(spans: &mut Vec<StyledSpan>, text: String, style: CellStyle)
    ensures
        span_views(final(spans)@) == span_views(old(spans)@).push((text@, style)),
{
    spans.push(StyledSpan { text, style });
    assert(span_views(spans@) =~= span_views(old(spans)@).push((text@, style)));
}

/// Appends the delta parts, a space between each two.
pub fn push_delta_spans(spans: &mut Vec<StyledSpan>, parts: &[DeltaPart], styles: HeaderStyles)
    ensures
        span_views(final(spans)@) == span_views(old(spans)@) + delta_spans_spec(parts@, styles, parts@.len() as int),
{
    let mut i: usize = 0;
    assert(span_views(spans@) =~= span_views(old(spans)@) + delta_spans_spec(parts@, styles, 0));
    while i < parts.len()
        invariant
            i <= parts@.len(),
            span_views(spans@) == span_views(old(spans)@) + delta_spans_spec(parts@, styles, i as int),
        decreases parts@.len() - i,
    {
        let ghost before = span_views(spans@);
        if i > 0 {
            push_span(spans, String::from_str(" "), styles.fill);
        }
        push_span(spans, String::from_str(parts[i].text.as_str()), delta_style(parts[i].kind, styles));
        proof {
            let n = i + 1;
            assert(span_views(spans@) =~= before + (if n > 1 { seq![(" "@, styles.fill)] } else { Seq::empty() })
                + seq![(parts@[i as int].text@, delta_style_spec(parts@[i as int].kind, styles))]);
        }
        i += 1;
    }
}

/// The delta parts from part `i` on, fitted into `remaining` columns: a
/// space before every part but the first, each part cut to what is left,
/// blank fill after the last part when room is left, and nothing more once
/// the room is used up.
pub open spec fn fitted_delta_spec(parts: Seq<DeltaPart>, styles: HeaderStyles, i: int, remaining: nat) -> Seq<(Seq<char>, CellStyle)>
    decreases parts.len() - i,
{
    if i >= parts.len() || i < 0 {
        if remaining > 0 { seq![(repeat_char(' ', remaining), styles.fill)] } else { Seq::empty() }
    } else if remaining == 0 {
        Seq::empty()
    } else {
        let sep = if i > 0 { seq![(" "@, styles.fill)] } else { Seq::empty() };
        let rem1 = if i > 0 { (remaining - 1) as nat } else { remaining };
        if rem1 == 0 {
            sep
        } else {
            let text = fit_chars(parts[i].text@, rem1);
            let w = unicode_str_width(text) as nat;
            let rem2 = if rem1 > w { (rem1 - w) as nat } else { 0 };
            sep + nonempty_span(text, delta_style_spec(parts[i].kind, styles)) + fitted_delta_spec(parts, styles, i + 1, rem2)
        }
    }
}

/// Appends the delta parts fitted into `width` columns (see
/// `fitted_delta_spec`).
pub fn push_fitted_delta_spans(spans: &mut Vec<StyledSpan>, parts: &[DeltaPart], width: usize, styles: HeaderStyles)
    ensures
        span_views(final(spans)@) == span_views(old(spans)@) + fitted_delta_spec(parts@, styles, 0, width as nat),
{
    let ghost whole = span_views(old(spans)@) + fitted_delta_spec(parts@, styles, 0, width as nat);
    let mut remaining = width;
    let mut i: usize = 0;
    assert(span_views(spans@) + fitted_delta_spec(parts@, styles, 0, width as nat) =~= whole);
    while i < parts.len()
        invariant
            i <= parts@.len(),
            whole == span_views(old(spans)@) + fitted_delta_spec(parts@, styles, 0, width as nat),
            whole == span_views(spans@) + fitted_delta_spec(parts@, styles, i as int, remaining as nat),
        decreases parts@.len() - i,
    {
        let ghost before = span_views(spans@);
        let ghost rem0 = remaining;
        if remaining == 0 {
            assert(whole =~= span_views(spans@));
            return;
        }
        if i > 0 {
            push_span(spans, String::from_str(" "), styles.fill);
            remaining = remaining - 1;
        }
        if remaining == 0 {
            assert(whole =~= span_views(spans@));
            return;
        }
        let text = fit(parts[i].text.as_str(), remaining);
        let w = str_width(text.as_str());
        let ghost text_view = text@;
        remaining = remaining.saturating_sub(w);
        if text.as_str().unicode_len() > 0 {
            push_span(spans, text, delta_style(parts[i].kind, styles));
        }
        proof {
            let sep = if i > 0 { seq![(" "@, styles.fill)] } else { Seq::<(Seq<char>, CellStyle)>::empty() };
            assert(span_views(spans@) =~= before + sep + nonempty_span(text_view, delta_style_spec(parts@[i as int].kind, styles)));
            assert(whole =~= span_views(spans@) + fitted_delta_spec(parts@, styles, i + 1, remaining as nat));
        }
        i += 1;
    }
    if remaining > 0 {
        push_span(spans, spaces(remaining), styles.fill);
    }
    assert(whole =~= span_views(spans@));
}

/// The summed display width of the first `n` parts.
pub open spec fn parts_width_spec(parts: Seq<HeaderSpanPart>, n: int) -> nat
    decreases n,
{
    if n <= 0 { 0 } else { parts_width_spec(parts, n - 1) + unicode_str_width(parts[n - 1].text@) as nat }
}

/// The summed display width of the parts (at most `usize::MAX`).
pub fn header_span_parts_width(parts: &[HeaderSpanPart]) -> (r: usize)
    ensures
        r == usize_capped(parts_width_spec(parts@, parts@.len() as int)),
{
    let mut total: usize = 0;
    let mut i: usize = 0;
    while i < parts.len()
        invariant
            i <= parts@.len(),
            total == usize_capped(parts_width_spec(parts@, i as int)),
        decreases parts@.len() - i,
    {
        total = total.saturating_add(str_width(parts[i].text.as_str()));
        i += 1;
    }
    total
}

/// Appends every part in its own style; gives their summed width.
pub fn push_header_span_parts(spans: &mut Vec<StyledSpan>, parts: &[HeaderSpanPart]) -> (used: usize)
    ensures
        span_views(final(spans)@) == span_views(old(spans)@) + part_views(parts@),
        used == usize_capped(parts_width_spec(parts@, parts@.len() as int)),
{
    let mut used: usize = 0;
    let mut i: usize = 0;
    assert(span_views(spans@) =~= span_views(old(spans)@) + part_views(parts@).take(0));
    while i < parts.len()
        invariant
            i <= parts@.len(),
            used == usize_capped(parts_width_spec(parts@, i as int)),
            span_views(spans@) == span_views(old(spans)@) + part_views(parts@).take(i as int),
        decreases parts@.len() - i,
    {
        used = used.saturating_add(str_width(parts[i].text.as_str()));
        let ghost before = span_views(spans@);
        push_span(spans, String::from_str(parts[i].text.as_str()), parts[i].style);
        assert(part_views(parts@).take(i + 1) =~= part_views(parts@).take(i as int).push(part_views(parts@)[i as int]));
        i += 1;
    }
    assert(part_views(parts@).take(parts@.len() as int) =~= part_views(parts@));
    used
}

/// The parts from part `i` on that fit between `used` and `width` columns:
/// whole parts while they fit, then the next one cut to the room left; also
/// the columns then used.
pub open spec fn prefix_fit_spec(parts: Seq<HeaderSpanPart>, i: int, used: nat, width: nat) -> (Seq<(Seq<char>, CellStyle)>, nat)
    decreases parts.len() - i,
{
    if i >= parts.len() || i < 0 || used >= width {
        (Seq::empty(), used)
    } else {
        let remaining = (width - used) as nat;
        let pw = unicode_str_width(parts[i].text@) as nat;
        if pw <= remaining {
            let rest = prefix_fit_spec(parts, i + 1, used + pw, width);
            (nonempty_span(parts[i].text@, parts[i].style) + rest.0, rest.1)
        } else {
            let t = fit_chars(parts[i].text@, remaining);
            (nonempty_span(t, parts[i].style), usize_capped(used + unicode_str_width(t) as nat))
        }
    }
}

/// Appends the parts that fit into `width` columns (see `prefix_fit_spec`);
/// gives the columns used.
pub fn push_fitted_header_span_part_prefix(spans: &mut Vec<StyledSpan>, parts: &[HeaderSpanPart], width: usize) -> (used: usize)
    ensures
        span_views(final(spans)@) == span_views(old(spans)@) + prefix_fit_spec(parts@, 0, 0, width as nat).0,
        used == prefix_fit_spec(parts@, 0, 0, width as nat).1,
{
    let ghost whole = prefix_fit_spec(parts@, 0, 0, width as nat);
    let mut used: usize = 0;
    let mut i: usize = 0;
    assert(span_views(spans@) + whole.0 =~= span_views(old(spans)@) + whole.0);
    while i < parts.len()
        invariant_except_break
            i <= parts@.len(),
            used <= width,
            whole == prefix_fit_spec(parts@, 0, 0, width as nat),
            span_views(old(spans)@) + whole.0 == span_views(spans@) + prefix_fit_spec(parts@, i as int, used as nat, width as nat).0,
            whole.1 == prefix_fit_spec(parts@, i as int, used as nat, width as nat).1,
        ensures
            span_views(final(spans)@) == span_views(old(spans)@) + whole.0,
            used == whole.1,
        decreases parts@.len() - i,
    {
        let ghost before = span_views(spans@);
        if used >= width {
            assert(span_views(spans@) + Seq::<(Seq<char>, CellStyle)>::empty() =~= span_views(spans@));
            break;
        }
        let remaining = width - used;
        let part_width = str_width(parts[i].text.as_str());
        if part_width <= remaining {
            if parts[i].text.as_str().unicode_len() > 0 {
                push_span(spans, String::from_str(parts[i].text.as_str()), parts[i].style);
            }
            proof {
                let rest = prefix_fit_spec(parts@, i + 1, (used + part_width) as nat, width as nat);
                assert(span_views(spans@) =~= before + nonempty_span(parts@[i as int].text@, parts@[i as int].style));
                assert(span_views(spans@) + rest.0 =~= before + (nonempty_span(parts@[i as int].text@, parts@[i as int].style) + rest.0));
            }
            used = used + part_width;
        } else {
            let text = fit(parts[i].text.as_str(), remaining);
            let ghost text_view = text@;
            used = used.saturating_add(str_width(text.as_str()));
            if text.as_str().unicode_len() > 0 {
                push_span(spans, text, parts[i].style);
            }
            proof {
                assert(span_views(spans@) =~= before + nonempty_span(text_view, parts@[i as int].style));
            }
            break;
        }
        i += 1;
    }
    proof {
        if i == parts@.len() {
            assert(span_views(spans@) + Seq::<(Seq<char>, CellStyle)>::empty() =~= span_views(spans@));
        }
    }
    used
}

/// What appending the parts fitted into `width` columns (with a trailing
/// `...` when `ellipsis` is set and they do not fit) adds after `before`,
/// and the columns used: parts that fit are kept whole; otherwise, a row no
/// wider than the ellipsis shows the ellipsis cut to it (in the first
/// part's style), and a wider one the parts fitted before the ellipsis (in
/// the style of the span before it).
pub open spec fn fitted_parts_spans_spec(before: Seq<(Seq<char>, CellStyle)>, parts: Seq<HeaderSpanPart>, width: nat, ellipsis: bool) -> (Seq<(Seq<char>, CellStyle)>, nat) {
    let first_style = if parts.len() > 0 { parts[0].style } else { plain_style() };
    let ew = unicode_str_width("..."@) as nat;
    if width == 0 {
        (Seq::empty(), 0)
    } else if !ellipsis || usize_capped(parts_width_spec(parts, parts.len() as int)) <= width {
        prefix_fit_spec(parts, 0, 0, width)
    } else if width <= ew {
        let text = fit_chars("..."@, width);
        (nonempty_span(text, first_style), unicode_str_width(text) as nat)
    } else {
        let pre = prefix_fit_spec(parts, 0, 0, (width - ew) as nat);
        let all = before + pre.0;
        let style = if all.len() > 0 { all.last().1 } else { first_style };
        (pre.0 + seq![("..."@, style)], usize_capped(pre.1 + ew))
    }
}

/// Appends the parts fitted into `width` columns, ending in `...` when they
/// do not fit and `ellipsis` is set (see `fitted_parts_spans_spec`); gives
/// the columns used.
pub fn push_fitted_header_span_parts(spans: &mut Vec<StyledSpan>, parts: &[HeaderSpanPart], width: usize, ellipsis: bool) -> (used: usize)
    ensures
        span_views(final(spans)@) == span_views(old(spans)@) + fitted_parts_spans_spec(span_views(old(spans)@), parts@, width as nat, ellipsis).0,
        used == fitted_parts_spans_spec(span_views(old(spans)@), parts@, width as nat, ellipsis).1,
{
    if width == 0 {
        assert(span_views(spans@) =~= span_views(old(spans)@) + Seq::<(Seq<char>, CellStyle)>::empty());
        return 0;
    }
    let source_width = header_span_parts_width(parts);
    if !ellipsis || source_width <= width {
        return push_fitted_header_span_part_prefix(spans, parts, width);
    }
    let ellipsis_width = str_width("...");
    let first_style = if parts.len() > 0 { parts[0].style } else { CellStyle { fg: None, bg: None, bold: false } };
    if width <= ellipsis_width {
        let text = fit("...", width);
        let used = str_width(text.as_str());
        let ghost text_view = text@;
        if text.as_str().unicode_len() > 0 {
            push_span(spans, text, first_style);
        }
        assert(span_views(spans@) =~= span_views(old(spans)@) + nonempty_span(text_view, first_style));
        return used;
    }
    let prefix_width = width - ellipsis_width;
    let used = push_fitted_header_span_part_prefix(spans, parts, prefix_width);
    let style = if spans.len() > 0 { spans[spans.len() - 1].style } else { first_style };
    proof {
        let pre = prefix_fit_spec(parts@, 0, 0, prefix_width as nat);
        let all = span_views(old(spans)@) + pre.0;
        assert(all =~= span_views(spans@));
        if spans@.len() > 0 {
            assert(all.last().1 == spans@[spans@.len() - 1].style);
        }
    }
    let ghost mid = span_views(spans@);
    push_span(spans, String::from_str("..."), style);
    assert(span_views(spans@) =~= mid + seq![("..."@, style)]);
    used.saturating_add(ellipsis_width)
}

/// The spans of fitted prefixed parts and the columns they use: the prefix
/// in the prefix style, a space and the body in the body style, each only
/// when present.
pub open spec fn prefixed_spans_spec(prefix: Seq<char>, gap: bool, body: Seq<char>, styles: HeaderStyles) -> (Seq<(Seq<char>, CellStyle)>, nat) {
    let pw = if prefix.len() > 0 { unicode_str_width(prefix) as nat } else { 0 };
    let gw: nat = if gap { 1 } else { 0 };
    let bw = if body.len() > 0 { unicode_str_width(body) as nat } else { 0 };
    (
        nonempty_span(prefix, styles.prefix) + (if gap { seq![(" "@, styles.body)] } else { Seq::empty() }) + nonempty_span(body, styles.body),
        usize_capped(usize_capped(pw + gw) + bw),
    )
}

/// Appends a header's fitted prefix, gap and body (see
/// `prefixed_spans_spec`); gives the columns used.
pub fn push_prefixed_spans(spans: &mut Vec<StyledSpan>, fitted: FittedPrefixedParts, styles: HeaderStyles) -> (used: usize)
    ensures
        span_views(final(spans)@) == span_views(old(spans)@) + prefixed_spans_spec(fitted.prefix@, fitted.gap, fitted.body@, styles).0,
        used == prefixed_spans_spec(fitted.prefix@, fitted.gap, fitted.body@, styles).1,
{
    let ghost g_prefix = fitted.prefix@;
    let ghost g_body = fitted.body@;
    let mut used: usize = 0;
    if fitted.prefix.as_str().unicode_len() > 0 {
        used = str_width(fitted.prefix.as_str());
        push_span(spans, fitted.prefix, styles.prefix);
    }
    let ghost after_prefix = span_views(spans@);
    if fitted.gap {
        used = used.saturating_add(1);
        push_span(spans, String::from_str(" "), styles.body);
    }
    let ghost after_gap = span_views(spans@);
    if fitted.body.as_str().unicode_len() > 0 {
        used = used.saturating_add(str_width(fitted.body.as_str()));
        push_span(spans, fitted.body, styles.body);
    }
    assert(span_views(spans@) =~= span_views(old(spans)@) + (nonempty_span(g_prefix, styles.prefix)
        + (if fitted.gap { seq![(" "@, styles.body)] } else { Seq::empty() }) + nonempty_span(g_body, styles.body)));
    used
}

/// What appending a hunk header's prefix parts and body into `width`
/// columns adds after `before`, and the columns used: prefix parts as wide
/// as the row are fitted with an ellipsis alone; else all of them, then,
/// when there is a body and room for more than the space before it, a space
/// and the body fitted with an ellipsis.
pub open spec fn prefix_and_body_spec(before: Seq<(Seq<char>, CellStyle)>, parts: Seq<HeaderSpanPart>, body: Seq<char>, width: nat, styles: HeaderStyles) -> (Seq<(Seq<char>, CellStyle)>, nat) {
    let pw = usize_capped(parts_width_spec(parts, parts.len() as int));
    if width == 0 {
        (Seq::empty(), 0)
    } else if pw >= width {
        fitted_parts_spans_spec(before, parts, width, true)
    } else if body.len() == 0 {
        (part_views(parts), pw)
    } else if width - pw - 1 <= 0 {
        (part_views(parts), pw)
    } else {
        let b = ellipsis_fit(body, (width - pw - 1) as nat);
        (part_views(parts) + seq![(" "@, styles.body), (b, styles.body)], usize_capped(pw + 1 + unicode_str_width(b) as nat))
    }
}

/// Appends a hunk header's prefix parts and body fitted into `width`
/// columns (see `prefix_and_body_spec`); gives the columns used.
pub fn push_header_prefix_and_body_spans(spans: &mut Vec<StyledSpan>, parts: &[HeaderSpanPart], body: &str, width: usize, styles: HeaderStyles) -> (used: usize)
    ensures
        span_views(final(spans)@) == span_views(old(spans)@) + prefix_and_body_spec(span_views(old(spans)@), parts@, body@, width as nat, styles).0,
        used == prefix_and_body_spec(span_views(old(spans)@), parts@, body@, width as nat, styles).1,
{
    if width == 0 {
        assert(span_views(spans@) =~= span_views(old(spans)@) + Seq::<(Seq<char>, CellStyle)>::empty());
        return 0;
    }
    let prefix_width = header_span_parts_width(parts);
    if prefix_width >= width {
        return push_fitted_header_span_parts(spans, parts, width, true);
    }
    let used = push_header_span_parts(spans, parts);
    if body.unicode_len() == 0 {
        return used;
    }
    let body_width = width.saturating_sub(used).saturating_sub(1);
    if body_width == 0 {
        return used;
    }
    let ghost mid = span_views(spans@);
    push_span(spans, String::from_str(" "), styles.body);
    let fitted = fit_with_ellipsis(body, body_width);
    let total = used + 1;
    let total = total.saturating_add(str_width(fitted.as_str()));
    let ghost fitted_view = fitted@;
    push_span(spans, fitted, styles.body);
    assert(span_views(spans@) =~= mid + seq![(" "@, styles.body), (fitted_view, styles.body)]);
    total
}

/// A header row `width` columns wide: a delta as wide as the row is fitted
/// alone; else the prefix and body fitted into what the delta and the space
/// before it leave, blank fill, and the delta at the right end.
pub open spec fn header_spans_spec(prefix: Seq<char>, body: Seq<char>, parts: Seq<DeltaPart>, width: nat, styles: HeaderStyles) -> Seq<(Seq<char>, CellStyle)> {
    let dw = delta_width(parts);
    if width == 0 {
        Seq::empty()
    } else if dw >= width {
        fitted_delta_spec(parts, styles, 0, width)
    } else {
        let gap: int = if dw > 0 { 1 } else { 0 };
        let left = if width - dw - gap > 0 { (width - dw - gap) as nat } else { 0 };
        let f = fitted_parts_spec(prefix, body, left);
        let p = prefixed_spans_spec(f.0, f.1, f.2, styles);
        let fill = width - p.1 - dw;
        p.0 + (if fill > 0 { seq![(repeat_char(' ', fill as nat), styles.fill)] } else { Seq::empty() })
            + delta_spans_spec(parts, styles, parts.len() as int)
    }
}

/// The spans of a file header (see `header_spans_spec`).
pub fn header_spans(prefix: &str, body: &str, parts: &[DeltaPart], width: usize, styles: HeaderStyles) -> (r: Vec<StyledSpan>)
    ensures
        span_views(r@) == header_spans_spec(prefix@, body@, parts@, width as nat, styles),
{
    let mut spans: Vec<StyledSpan> = Vec::new();
    if width == 0 {
        assert(span_views(spans@) =~= Seq::<(Seq<char>, CellStyle)>::empty());
        return spans;
    }
    let delta = delta_parts_width(parts);
    if delta >= width {
        push_fitted_delta_spans(&mut spans, parts, width, styles);
        assert(span_views(spans@) =~= fitted_delta_spec(parts@, styles, 0, width as nat));
        return spans;
    }
    let delta_gap: usize = if delta > 0 { 1 } else { 0 };
    let left_width = width.saturating_sub(delta).saturating_sub(delta_gap);
    let fitted = fitted_prefixed_parts(prefix, body, left_width);
    let left_used = push_prefixed_spans(&mut spans, fitted, styles);
    let ghost after_left = span_views(spans@);
    let gap = width.saturating_sub(left_used).saturating_sub(delta);
    if gap > 0 {
        push_span(&mut spans, spaces(gap), styles.fill);
    }
    let ghost after_gap = span_views(spans@);
    push_delta_spans(&mut spans, parts, styles);
    proof {
        let fill = width - left_used - delta;
        assert(after_gap =~= after_left + (if fill > 0 { seq![(repeat_char(' ', fill as nat), styles.fill)] } else { Seq::empty() }));
        assert(span_views(spans@) =~= after_left + (if fill > 0 { seq![(repeat_char(' ', fill as nat), styles.fill)] } else { Seq::empty() })
            + delta_spans_spec(parts@, styles, parts@.len() as int));
    }
    spans
}

/// A hunk header row `width` columns wide: like a file header, with prefix
/// parts of their own styles before the body.
pub open spec fn hunk_header_spec(parts: Seq<HeaderSpanPart>, body: Seq<char>, delta: Seq<DeltaPart>, width: nat, styles: HeaderStyles) -> Seq<(Seq<char>, CellStyle)> {
    let dw = delta_width(delta);
    if width == 0 {
        Seq::empty()
    } else if dw >= width {
        fitted_delta_spec(delta, styles, 0, width)
    } else {
        let gap: int = if dw > 0 { 1 } else { 0 };
        let left = if width - dw - gap > 0 { (width - dw - gap) as nat } else { 0 };
        let p = prefix_and_body_spec(Seq::empty(), parts, body, left, styles);
        let fill = width - p.1 - dw;
        p.0 + (if fill > 0 { seq![(repeat_char(' ', fill as nat), styles.fill)] } else { Seq::empty() })
            + delta_spans_spec(delta, styles, delta.len() as int)
    }
}

/// The spans of a hunk header (see `hunk_header_spec`).
pub fn hunk_header_spans_with_delta(parts: &[HeaderSpanPart], body: &str, delta_parts: &[DeltaPart], width: usize, styles: HeaderStyles) -> (r: Vec<StyledSpan>)
    ensures
        span_views(r@) == hunk_header_spec(parts@, body@, delta_parts@, width as nat, styles),
{
    let mut spans: Vec<StyledSpan> = Vec::new();
    if width == 0 {
        assert(span_views(spans@) =~= Seq::<(Seq<char>, CellStyle)>::empty());
        return spans;
    }
    let delta = delta_parts_width(delta_parts);
    if delta >= width {
        push_fitted_delta_spans(&mut spans, delta_parts, width, styles);
        assert(span_views(spans@) =~= fitted_delta_spec(delta_parts@, styles, 0, width as nat));
        return spans;
    }
    let delta_gap: usize = if delta > 0 { 1 } else { 0 };
    let left_width = width.saturating_sub(delta).saturating_sub(delta_gap);
    assert(span_views(spans@) =~= Seq::<(Seq<char>, CellStyle)>::empty());
    let left_used = push_header_prefix_and_body_spans(&mut spans, parts, body, left_width, styles);
    let ghost after_left = span_views(spans@);
    let gap = width.saturating_sub(left_used).saturating_sub(delta);
    if gap > 0 {
        push_span(&mut spans, spaces(gap), styles.fill);
    }
    let ghost after_gap = span_views(spans@);
    push_delta_spans(&mut spans, delta_parts, styles);
    proof {
        let fill = width - left_used - delta;
        assert(after_gap =~= after_left + (if fill > 0 { seq![(repeat_char(' ', fill as nat), styles.fill)] } else { Seq::empty() }));
        assert(span_views(spans@) =~= after_left + (if fill > 0 { seq![(repeat_char(' ', fill as nat), styles.fill)] } else { Seq::empty() })
            + delta_spans_spec(delta_parts@, styles, delta_parts@.len() as int));
    }
    spans
}

} // verus!
