//! File and hunk header text: the `+N -M` delta and the fitted prefix and
//! body of a header.
use vstd::prelude::*;
use vstd::string::StringExecFns;
use vstd::string::StrSliceExecFns;
use crate::text::{ellipsis_fit, fit, fit_chars, fit_with_ellipsis};
use crate::unicode::{decimal, str_width, unicode_str_width, usize_to_decimal};

verus! {

broadcast use vstd::string::group_string_axioms;

/// Whether a delta counts added or deleted lines.
#[derive(Debug, Clone, Copy, PartialEq, Eq, Structural)]
pub enum DeltaKind {
    Addition,
    Deletion,
}

/// One part of a header's delta, such as `+3`.
pub struct DeltaPart {
    pub text: String,
    pub kind: DeltaKind,
}

/// A header's prefix and body as they fit, and whether a space separates them.
pub struct FittedPrefixedParts {
    pub prefix: String,
    pub gap: bool,
    pub body: String,
}

/// The text of a delta: its sign and the decimal count.
pub open spec fn delta_text(sign: char, count: nat) -> Seq<char> {
    seq![sign] + decimal(count)
}

/// A delta part with its sign and count.
fn delta_part(count: usize, kind: DeltaKind) -> (r: DeltaPart)
    ensures
        r.kind == kind,
        r.text@ == delta_text(if kind == DeltaKind::Addition { '+' } else { '-' }, count as nat),
{
    let mut text = String::from_str(if kind == DeltaKind::Addition { "+" } else { "-" });
    proof {
        reveal_strlit("+");
        reveal_strlit("-");
    }
    let digits = usize_to_decimal(count);
    text.append(digits.as_str());
    DeltaPart { text, kind }
}

/// The delta of a file header: its additions and its deletions, both shown
/// even when zero.
pub fn file_delta_parts(additions: usize, deletions: usize) -> (r: Vec<DeltaPart>)
    ensures
        r@.len() == 2,
        r@[0].kind == DeltaKind::Addition,
        r@[0].text@ == delta_text('+', additions as nat),
        r@[1].kind == DeltaKind::Deletion,
        r@[1].text@ == delta_text('-', deletions as nat),
{
    let mut parts: Vec<DeltaPart> = Vec::new();
    parts.push(delta_part(additions, DeltaKind::Addition));
    parts.push(delta_part(deletions, DeltaKind::Deletion));
    parts
}

/// The delta of a compact header: the additions and the deletions that are
/// not zero, in that order.
pub fn compact_delta_parts(additions: usize, deletions: usize) -> (r: Vec<DeltaPart>)
    ensures
        r@.len() == (if additions > 0 { 1int } else { 0 }) + (if deletions > 0 { 1int } else { 0 }),
        additions > 0 ==> r@[0].kind == DeltaKind::Addition && r@[0].text@ == delta_text('+', additions as nat),
        deletions > 0 ==> r@[r@.len() - 1].kind == DeltaKind::Deletion && r@[r@.len() - 1].text@ == delta_text(
            '-',
            deletions as nat,
        ),
{
    let mut parts: Vec<DeltaPart> = Vec::new();
    if additions > 0 {
        parts.push(delta_part(additions, DeltaKind::Addition));
    }
    if deletions > 0 {
        parts.push(delta_part(deletions, DeltaKind::Deletion));
    }
    parts
}

/// The summed display width of the first `n` parts' texts.
pub open spec fn parts_text_width(parts: Seq<DeltaPart>, n: int) -> nat
    decreases n,
{
    if n <= 0 {
        0
    } else {
        parts_text_width(parts, n - 1) + unicode_str_width(parts[n - 1].text@) as nat
    }
}

/// The width of a delta: its parts' texts and one space between each two.
pub open spec fn delta_width(parts: Seq<DeltaPart>) -> int {
    let text = parts_text_width(parts, parts.len() as int);
    let gaps = if parts.len() > 0 { parts.len() - 1 } else { 0 };
    if text + gaps > usize::MAX {
        usize::MAX as int
    } else {
        text + gaps
    }
}

/// `n` kept at most `usize::MAX`.
pub open spec fn usize_capped(n: nat) -> nat {
    if n > usize::MAX { usize::MAX as nat } else { n }
}

/// The display width of a delta, with a space between parts.
pub fn delta_parts_width(parts: &[DeltaPart]) -> (r: usize)
    ensures
        r == delta_width(parts@),
{
    let mut total: usize = 0;
    let mut i: usize = 0;
    while i < parts.len()
        invariant
            i <= parts@.len(),
            total == usize_capped(parts_text_width(parts@, i as int)),
        decreases parts@.len() - i,
    {
        total = total.saturating_add(str_width(parts[i].text.as_str()));
        i += 1;
    }
    let gaps = parts.len().saturating_sub(1);
    total.saturating_add(gaps)
}

/// How a header's prefix and body share `width` columns: nothing when there
/// is no room; a lone prefix or body fitted with an ellipsis; a prefix too
/// wide for the row fitted with an ellipsis alone; a prefix with no room
/// left for a body cut plainly; else the whole prefix, a space, and the body
/// fitted with an ellipsis into the rest.
pub open spec fn fitted_parts_spec(prefix: Seq<char>, body: Seq<char>, width: nat) -> (Seq<char>, bool, Seq<char>) {
    let pw = unicode_str_width(prefix) as nat;
    if width == 0 {
        (Seq::empty(), false, Seq::empty())
    } else if prefix.len() == 0 {
        (Seq::empty(), false, ellipsis_fit(body, width))
    } else if body.len() == 0 {
        (ellipsis_fit(prefix, width), false, Seq::empty())
    } else if pw >= width {
        (ellipsis_fit(prefix, width), false, Seq::empty())
    } else if width - pw - 1 <= 0 {
        (fit_chars(prefix, width), false, Seq::empty())
    } else {
        (prefix, true, ellipsis_fit(body, (width - pw - 1) as nat))
    }
}

/// Fits a header's prefix and body into `width` columns.
pub fn fitted_prefixed_parts(prefix: &str, body: &str, width: usize) -> (r: FittedPrefixedParts)
    ensures
        (r.prefix@, r.gap, r.body@) == fitted_parts_spec(prefix@, body@, width as nat),
{
    if width == 0 {
        return FittedPrefixedParts { prefix: String::new(), gap: false, body: String::new() };
    }
    if prefix.unicode_len() == 0 {
        return FittedPrefixedParts { prefix: String::new(), gap: false, body: fit_with_ellipsis(body, width) };
    }
    if body.unicode_len() == 0 {
        return FittedPrefixedParts { prefix: fit_with_ellipsis(prefix, width), gap: false, body: String::new() };
    }
    let prefix_width = str_width(prefix);
    if prefix_width >= width {
        return FittedPrefixedParts { prefix: fit_with_ellipsis(prefix, width), gap: false, body: String::new() };
    }
    let body_width = width.saturating_sub(prefix_width).saturating_sub(1);
    if body_width == 0 {
        return FittedPrefixedParts { prefix: fit(prefix, width), gap: false, body: String::new() };
    }
    FittedPrefixedParts { prefix: String::from_str(prefix), gap: true, body: fit_with_ellipsis(body, body_width) }
}

/// The marker of a hidden-context row that expands more context: up for the
/// first hunk, down for the others.
pub fn context_expand_marker(hunk: usize) -> (r: &'static str)
    ensures
        r@ == (if hunk == 0 { "▴"@ } else { "▾"@ }),
{
    if hunk == 0 {
        "▴"
    } else {
        "▾"
    }
}

/// The marker of a row that hides expanded context again.
pub fn context_hide_marker(hunk: usize) -> (r: &'static str)
    ensures
        r@ == (if hunk == 0 { "▾"@ } else { "▴"@ }),
{
    if hunk == 0 {
        "▾"
    } else {
        "▴"
    }
}

} // verus!
