//! What the status line and the filter bar show, from the state they read,
//! and which component draws each overlay.
use vstd::prelude::*;
use vstd::string::StringExecFns;
use crate::inline::{byte_pos, char_byte_offsets, lemma_byte_pos_mono};
use crate::scan::is_text;
use crate::text::{chars_vec, format_count, formatted_count};

verus! {

broadcast use vstd::string::group_string_axioms;

/// Which filter a query belongs to.
#[derive(Debug, Clone, Copy, PartialEq, Eq, Structural)]
pub enum DiffFilterKind {
    File,
    Grep,
}

/// The floating overlays, each drawn on its own layer.
#[derive(Debug, Clone, Copy, PartialEq, Eq, Structural)]
pub enum OverlayLayer {
    DiffMenu,
    ReviewInput,
    OptionsMenu,
    ColorSchemePicker,
    BranchMenu,
    CommitMenu,
    HelpMenu,
}

/// The components of the screen that take input or draw.
#[derive(Debug, Clone, Copy, PartialEq, Eq, Structural)]
pub enum ComponentId {
    Header,
    FileSidebar,
    FilterBar,
    ErrorLogPanel,
    Toasts,
    AnnotationDraftBindings,
    QuitKey,
    MouseScrollReset,
    FilterInput,
    AnnotationInput,
    HelpMenu,
    BranchMenu,
    CommitMenu,
    ReviewInput,
    DiffMenu,
    ColorSchemePicker,
    OptionsMenu,
    ErrorLog,
    Prefix,
    GlobalAction,
    ErrorLogResize,
    Navigation,
    OpenMenuScroll,
    FileSidebarResize,
    DiffView,
}

/// The component that draws an overlay: the one of the same name.
pub fn overlay_component_id(layer: OverlayLayer) -> (r: ComponentId)
    ensures
        r == match layer {
            OverlayLayer::DiffMenu => ComponentId::DiffMenu,
            OverlayLayer::ReviewInput => ComponentId::ReviewInput,
            OverlayLayer::OptionsMenu => ComponentId::OptionsMenu,
            OverlayLayer::ColorSchemePicker => ComponentId::ColorSchemePicker,
            OverlayLayer::BranchMenu => ComponentId::BranchMenu,
            OverlayLayer::CommitMenu => ComponentId::CommitMenu,
            OverlayLayer::HelpMenu => ComponentId::HelpMenu,
        },
{
    match layer {
        OverlayLayer::DiffMenu => ComponentId::DiffMenu,
        OverlayLayer::ReviewInput => ComponentId::ReviewInput,
        OverlayLayer::OptionsMenu => ComponentId::OptionsMenu,
        OverlayLayer::ColorSchemePicker => ComponentId::ColorSchemePicker,
        OverlayLayer::BranchMenu => ComponentId::BranchMenu,
        OverlayLayer::CommitMenu => ComponentId::CommitMenu,
        OverlayLayer::HelpMenu => ComponentId::HelpMenu,
    }
}

/// The filter bar shows while a filter is being typed or one is active.
pub fn filter_bar_visible(filter_input: Option<DiffFilterKind>, filters_active: bool) -> (r: bool)
    ensures
        r == (filter_input is Some || filters_active),
{
    filter_input.is_some() || filters_active
}

/// The query the filter bar shows for a filter: the one being typed when
/// that filter is being edited, else the applied one.
pub fn filter_bar_query<'a>(filter_input: Option<DiffFilterKind>, kind: DiffFilterKind, input_query: &'a str, applied_query: &'a str) -> (r: &'a str)
    ensures
        r == (if filter_input == Some(kind) { input_query } else { applied_query }),
{
    if filter_input == Some(kind) {
        input_query
    } else {
        applied_query
    }
}

/// The grep position shown: the selected match (counted from one, at most
/// the total), or the first.
pub open spec fn grep_position(selected: Option<usize>, total: nat) -> nat {
    match selected {
        Some(index) => {
            let next = if index + 1 > usize::MAX { usize::MAX as nat } else { (index + 1) as nat };
            if next < total { next } else { total }
        },
        None => 1,
    }
}

/// What the right end of the filter bar shows: an ellipsis while a filter
/// runs; with a grep filter, the selected match and the total (`10k+` when
/// the matches were cut off, `0` when there are none); with a file filter,
/// how many files are shown of all; else nothing.
pub open spec fn right_label_spec(
    busy: bool,
    grep_active: bool,
    grep_total: nat,
    selected: Option<usize>,
    truncated: bool,
    file_active: bool,
    shown_files: nat,
    total_files: nat,
) -> Option<Seq<char>> {
    if busy {
        Some("…"@)
    } else if grep_active {
        if grep_total == 0 {
            Some("0"@)
        } else {
            let total = if truncated { "10k+"@ } else { formatted_count(grep_total) };
            Some(formatted_count(grep_position(selected, grep_total)) + "/"@ + total)
        }
    } else if file_active {
        Some(formatted_count(shown_files) + "/"@ + formatted_count(total_files) + " files"@)
    } else {
        None
    }
}

/// The optional text of a label.
pub open spec fn opt_chars(r: Option<String>) -> Option<Seq<char>> {
    match r {
        Some(s) => Some(s@),
        None => None,
    }
}

/// The label at the right end of the filter bar.
pub fn filter_status_right_label(
    busy: bool,
    grep_filter: &str,
    grep_match_count: usize,
    selected_grep_match: Option<usize>,
    grep_matches_truncated: bool,
    file_filter: &str,
    shown_files: usize,
    total_files: usize,
) -> (r: Option<String>)
    ensures
        opt_chars(r) == right_label_spec(
            busy,
            grep_filter@.len() > 0,
            grep_match_count as nat,
            selected_grep_match,
            grep_matches_truncated,
            file_filter@.len() > 0,
            shown_files as nat,
            total_files as nat,
        ),
{
    if busy {
        return Some(String::from_str("…"));
    }
    if grep_filter.unicode_len() > 0 {
        let total = grep_match_count;
        if total == 0 {
            return Some(String::from_str("0"));
        }
        let current = match selected_grep_match {
            Some(index) => {
                let next = index.saturating_add(1);
                if next < total { next } else { total }
            },
            None => 1,
        };
        let total_text = if grep_matches_truncated { String::from_str("10k+") } else { format_count(total) };
        let mut label = format_count(current);
        label.append("/");
        label.append(total_text.as_str());
        return Some(label);
    }
    if file_filter.unicode_len() > 0 {
        let mut label = format_count(shown_files);
        label.append("/");
        let total_text = format_count(total_files);
        label.append(total_text.as_str());
        label.append(" files");
        return Some(label);
    }
    None
}

/// A query split at its cursor (a byte offset clamped to the end); a cursor
/// inside a character splits nothing off.
pub open spec fn query_parts_spec(q: Seq<char>, cursor: int) -> (Seq<char>, Seq<char>) {
    let end = byte_pos(q, q.len() as int);
    let c = if cursor < end { cursor } else { end };
    if exists|k: int| 0 <= k <= q.len() && byte_pos(q, k) == c {
        let k = choose|k: int| 0 <= k <= q.len() && byte_pos(q, k) == c;
        (q.take(k), q.skip(k))
    } else {
        (q, Seq::empty())
    }
}

/// The parts of a filter query before and after its cursor.
pub fn active_filter_query_parts<'a>(query: &'a str, cursor: usize) -> (r: (&'a str, &'a str))
    ensures
        (r.0@, r.1@) == query_parts_spec(query@, cursor as int),
{
    let ghost s = query@;
    let chars = chars_vec(query);
    let offs = char_byte_offsets(query, &chars);
    let end = offs[chars.len()];
    let c = if cursor < end { cursor } else { end };
    let mut i: usize = 0;
    while i < chars.len() && offs[i] < c
        invariant
            i <= chars@.len(),
            chars@ == s,
            offs@.len() == chars@.len() + 1,
            forall|j: int| 0 <= j <= chars@.len() ==> offs@[j] as int == byte_pos(s, j),
            c <= offs@[chars@.len() as int],
            forall|j: int| 0 <= j < i ==> offs@[j] < c,
        decreases chars@.len() - i,
    {
        i += 1;
    }
    if offs[i] == c {
        proof {
            assert forall|k: int| 0 <= k <= s.len() && byte_pos(s, k) == c implies k == i by {
                if k < i {
                    assert(offs@[k] < c);
                }
                if k > i {
                    lemma_byte_pos_mono(s, i as int, k);
                }
            }
        }
        let n = chars.len();
        let before = query.substring_char(0, i);
        let after = query.substring_char(i, n);
        proof {
            assert(before@ =~= s.take(i as int));
            assert(after@ =~= s.skip(i as int));
        }
        (before, after)
    } else {
        proof {
            assert forall|k: int| 0 <= k <= s.len() implies byte_pos(s, k) != c by {
                if k < i {
                    assert(offs@[k] < c);
                } else if k > i {
                    lemma_byte_pos_mono(s, i as int, k);
                }
            }
        }
        proof {
            reveal_strlit("");
            assert(""@ =~= Seq::<char>::empty());
        }
        (query, "")
    }
}

/// The error log's copy hint for the key bound to copying it: nothing when
/// the action is unbound, else `[Copy All (key)]` after a space.
pub open spec fn copy_label_spec(key: Seq<char>) -> Seq<char> {
    if key == "unbound"@ {
        Seq::empty()
    } else {
        " [Copy All ("@ + key + ")]"@
    }
}

/// The copy hint of the error log.
pub fn error_log_copy_label(key: &str) -> (r: String)
    ensures
        r@ == copy_label_spec(key@),
{
    let k = chars_vec(key);
    if is_text(&k, "unbound") {
        return String::new();
    }
    let mut label = String::from_str(" [Copy All (");
    label.append(key);
    label.append(")]");
    label
}

/// Rows the error log takes: none without a log or room, else its height
/// kept between the bounds and within the room.
pub fn error_log_height(has_log: bool, log_height: u16, available_height: u16, min_height: u16, max_height: u16) -> (r: u16)
    requires
        min_height <= max_height,
    ensures
        r == if !has_log || available_height == 0 {
            0
        } else {
            let clamped = if log_height < min_height { min_height } else if log_height > max_height { max_height } else { log_height };
            if clamped < available_height { clamped } else { available_height }
        },
{
    if !has_log || available_height == 0 {
        return 0;
    }
    let clamped = if log_height < min_height {
        min_height
    } else if log_height > max_height {
        max_height
    } else {
        log_height
    };
    if clamped < available_height {
        clamped
    } else {
        available_height
    }
}

} // verus!
