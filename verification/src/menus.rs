//! The keybindings menu: its rows and the widths of its columns, and the
//! width of the branch menu.
use vstd::prelude::*;
use vstd::string::StringExecFns;
use crate::text::{ellipsis_fit, fit_padded, fit_with_ellipsis, padded_fit};
use crate::source::{DiffScope, DiffSource, PatchSource};
use crate::theme::{Color, DiffTheme};
use crate::unicode::{str_width, unicode_str_width};

verus! {

broadcast use vstd::string::group_string_axioms;

/// The width of the keybindings menu's key column.
pub const HELP_KEY_COLUMN_WIDTH: usize = 17;

/// The width kept for a description when the menu is narrow.
pub const HELP_DESCRIPTION_MIN_WIDTH: usize = 24;

/// The key of a keybindings menu row: fixed text, or the keys bound to one
/// or two global actions.
#[derive(Debug, Clone, Copy, PartialEq, Eq)]
pub enum HelpMenuKey {
    Static(&'static str),
    Global(GlobalAction),
    GlobalPair(GlobalAction, GlobalAction),
}

/// A keybindings menu row: a section title or a key with its description.
#[derive(Debug, Clone, Copy, PartialEq, Eq)]
pub enum HelpMenuRow {
    Section(&'static str),
    Binding(HelpMenuKey, &'static str),
}

/// The global actions that the keybindings menu lists.
#[derive(Debug, Clone, Copy, PartialEq, Eq, Structural)]
pub enum GlobalAction {
    BaseBranch,
    CancelMark,
    ClearFilters,
    CollapseContextAll,
    CommitPicker,
    CopyErrorLog,
    CopyMarks,
    DiffMenu,
    EditHunk,
    ExpandContextDown,
    ExpandContextUp,
    FileBrowser,
    FileFilter,
    Grep,
    HeadBranch,
    Help,
    Layout,
    NextAnnotation,
    NextDiffType,
    NextFile,
    NextHunk,
    OptionsMenu,
    PreviousAnnotation,
    PreviousDiffType,
    PreviousFile,
    PreviousHunk,
    Quit,
    Reload,
    SaveMark,
}

/// The keybindings menu rows, in order.
pub open spec fn help_rows_table() -> Seq<HelpMenuRow> {
    seq![
        HelpMenuRow::Section("Global"),
        HelpMenuRow::Binding(HelpMenuKey::Global(GlobalAction::Help), "open keybindings"),
        HelpMenuRow::Binding(HelpMenuKey::Global(GlobalAction::Quit), "quit"),
        HelpMenuRow::Binding(HelpMenuKey::Static("Ctrl-C"), "force quit"),
        HelpMenuRow::Binding(HelpMenuKey::Static("Esc"), "close"),
        HelpMenuRow::Section("Navigate"),
        HelpMenuRow::Binding(HelpMenuKey::Static("j/k, ↑/↓"), "scroll"),
        HelpMenuRow::Binding(HelpMenuKey::Static("d/Ctrl-D/PgDn, u/PgUp"), "page"),
        HelpMenuRow::Binding(HelpMenuKey::Static("g/G, Home/End"), "top / bottom"),
        HelpMenuRow::Binding(HelpMenuKey::Static("h/l, ←/→"), "horizontal"),
        HelpMenuRow::Binding(HelpMenuKey::GlobalPair(GlobalAction::PreviousFile, GlobalAction::NextFile), "file"),
        HelpMenuRow::Binding(HelpMenuKey::GlobalPair(GlobalAction::PreviousHunk, GlobalAction::NextHunk), "hunk"),
        HelpMenuRow::Binding(HelpMenuKey::GlobalPair(GlobalAction::ExpandContextUp, GlobalAction::ExpandContextDown), "expand context"),
        HelpMenuRow::Binding(HelpMenuKey::Global(GlobalAction::CollapseContextAll), "collapse context"),
        HelpMenuRow::Binding(HelpMenuKey::Global(GlobalAction::EditHunk), "edit focused hunk"),
        HelpMenuRow::Binding(HelpMenuKey::GlobalPair(GlobalAction::NextDiffType, GlobalAction::PreviousDiffType), "cycle diff type"),
        HelpMenuRow::Section("Actions"),
        HelpMenuRow::Binding(HelpMenuKey::Global(GlobalAction::FileFilter), "filter files"),
        HelpMenuRow::Binding(HelpMenuKey::Global(GlobalAction::Grep), "grep diff"),
        HelpMenuRow::Binding(HelpMenuKey::Static("n/p"), "next / previous grep match"),
        HelpMenuRow::Binding(HelpMenuKey::Global(GlobalAction::CopyErrorLog), "copy error log"),
        HelpMenuRow::Binding(HelpMenuKey::Global(GlobalAction::CopyMarks), "copy marks"),
        HelpMenuRow::Binding(HelpMenuKey::Global(GlobalAction::FileBrowser), "toggle file sidebar"),
        HelpMenuRow::Binding(HelpMenuKey::Global(GlobalAction::Layout), "split / unified"),
        HelpMenuRow::Binding(HelpMenuKey::Global(GlobalAction::Reload), "reload diff"),
        HelpMenuRow::Binding(HelpMenuKey::Global(GlobalAction::DiffMenu), "diff selector"),
        HelpMenuRow::Binding(HelpMenuKey::Global(GlobalAction::HeadBranch), "select head branch"),
        HelpMenuRow::Binding(HelpMenuKey::Global(GlobalAction::BaseBranch), "select base branch"),
        HelpMenuRow::Binding(HelpMenuKey::Global(GlobalAction::CommitPicker), "select commit"),
        HelpMenuRow::Binding(HelpMenuKey::Global(GlobalAction::OptionsMenu), "settings menu"),
        HelpMenuRow::Binding(HelpMenuKey::Global(GlobalAction::ClearFilters), "clear filters"),
        HelpMenuRow::Binding(HelpMenuKey::GlobalPair(GlobalAction::PreviousAnnotation, GlobalAction::NextAnnotation), "previous / next annotation"),
        HelpMenuRow::Section("Annotations"),
        HelpMenuRow::Binding(HelpMenuKey::Static("hover [+]"), "add / edit annotation"),
        HelpMenuRow::Binding(HelpMenuKey::Global(GlobalAction::SaveMark), "save mark"),
        HelpMenuRow::Binding(HelpMenuKey::Global(GlobalAction::CancelMark), "cancel mark"),
        HelpMenuRow::Binding(HelpMenuKey::Static("Enter"), "new annotation line"),
        HelpMenuRow::Binding(HelpMenuKey::Static("Cmd-←/→, Ctrl-A/E"), "line start / end"),
        HelpMenuRow::Binding(HelpMenuKey::Static("Alt-←/→"), "word left / right"),
        HelpMenuRow::Binding(HelpMenuKey::Static("Cmd-Delete"), "delete to line start"),
        HelpMenuRow::Section("Keybindings menu"),
        HelpMenuRow::Binding(HelpMenuKey::Static("type"), "filter keybindings"),
        HelpMenuRow::Binding(HelpMenuKey::Static("Backspace"), "delete char"),
        HelpMenuRow::Binding(HelpMenuKey::Static("Ctrl-U"), "clear filter"),
        HelpMenuRow::Binding(HelpMenuKey::Static("↑/↓"), "scroll list"),
        HelpMenuRow::Binding(HelpMenuKey::Static("Ctrl-N/Ctrl-P"), "scroll list"),
        HelpMenuRow::Binding(HelpMenuKey::Static("PgUp/PgDn"), "page list"),
        HelpMenuRow::Binding(HelpMenuKey::Static("Home/End"), "top / bottom"),
        HelpMenuRow::Binding(HelpMenuKey::Static("Esc"), "close"),
        HelpMenuRow::Section("Filter input"),
        HelpMenuRow::Binding(HelpMenuKey::Static("Enter"), "keep filter"),
        HelpMenuRow::Binding(HelpMenuKey::Static("Esc"), "clear active filters"),
        HelpMenuRow::Binding(HelpMenuKey::Static("Backspace"), "delete char"),
        HelpMenuRow::Binding(HelpMenuKey::Static("Cmd-←/→, Ctrl-A/E"), "line start / end"),
        HelpMenuRow::Binding(HelpMenuKey::Static("Alt-←/→"), "word left / right"),
        HelpMenuRow::Binding(HelpMenuKey::Static("Ctrl-U"), "clear input"),
        HelpMenuRow::Section("Branch filter"),
        HelpMenuRow::Binding(HelpMenuKey::Static("type"), "filter branches"),
        HelpMenuRow::Binding(HelpMenuKey::Static("Enter"), "select branch"),
        HelpMenuRow::Binding(HelpMenuKey::Static("Tab/Shift-Tab"), "cycle matches"),
        HelpMenuRow::Binding(HelpMenuKey::Static("Ctrl-N/Ctrl-P"), "cycle matches"),
        HelpMenuRow::Binding(HelpMenuKey::Static("Backspace"), "delete char"),
        HelpMenuRow::Binding(HelpMenuKey::Static("Ctrl-U"), "clear filter"),
        HelpMenuRow::Binding(HelpMenuKey::Static("↑/↓, PgUp/PgDn"), "move"),
        HelpMenuRow::Binding(HelpMenuKey::Static("Home/End"), "first / last match"),
    ]
}

/// The keybindings menu rows, in order (see `help_rows_table`).
pub fn help_menu_rows() -> (r: Vec<HelpMenuRow>)
    ensures
        r@ == help_rows_table(),
        r@.len() == 65,
{
    let rows = vec![
        HelpMenuRow::Section("Global"),
        HelpMenuRow::Binding(HelpMenuKey::Global(GlobalAction::Help), "open keybindings"),
        HelpMenuRow::Binding(HelpMenuKey::Global(GlobalAction::Quit), "quit"),
        HelpMenuRow::Binding(HelpMenuKey::Static("Ctrl-C"), "force quit"),
        HelpMenuRow::Binding(HelpMenuKey::Static("Esc"), "close"),
        HelpMenuRow::Section("Navigate"),
        HelpMenuRow::Binding(HelpMenuKey::Static("j/k, ↑/↓"), "scroll"),
        HelpMenuRow::Binding(HelpMenuKey::Static("d/Ctrl-D/PgDn, u/PgUp"), "page"),
        HelpMenuRow::Binding(HelpMenuKey::Static("g/G, Home/End"), "top / bottom"),
        HelpMenuRow::Binding(HelpMenuKey::Static("h/l, ←/→"), "horizontal"),
        HelpMenuRow::Binding(HelpMenuKey::GlobalPair(GlobalAction::PreviousFile, GlobalAction::NextFile), "file"),
        HelpMenuRow::Binding(HelpMenuKey::GlobalPair(GlobalAction::PreviousHunk, GlobalAction::NextHunk), "hunk"),
        HelpMenuRow::Binding(HelpMenuKey::GlobalPair(GlobalAction::ExpandContextUp, GlobalAction::ExpandContextDown), "expand context"),
        HelpMenuRow::Binding(HelpMenuKey::Global(GlobalAction::CollapseContextAll), "collapse context"),
        HelpMenuRow::Binding(HelpMenuKey::Global(GlobalAction::EditHunk), "edit focused hunk"),
        HelpMenuRow::Binding(HelpMenuKey::GlobalPair(GlobalAction::NextDiffType, GlobalAction::PreviousDiffType), "cycle diff type"),
        HelpMenuRow::Section("Actions"),
        HelpMenuRow::Binding(HelpMenuKey::Global(GlobalAction::FileFilter), "filter files"),
        HelpMenuRow::Binding(HelpMenuKey::Global(GlobalAction::Grep), "grep diff"),
        HelpMenuRow::Binding(HelpMenuKey::Static("n/p"), "next / previous grep match"),
        HelpMenuRow::Binding(HelpMenuKey::Global(GlobalAction::CopyErrorLog), "copy error log"),
        HelpMenuRow::Binding(HelpMenuKey::Global(GlobalAction::CopyMarks), "copy marks"),
        HelpMenuRow::Binding(HelpMenuKey::Global(GlobalAction::FileBrowser), "toggle file sidebar"),
        HelpMenuRow::Binding(HelpMenuKey::Global(GlobalAction::Layout), "split / unified"),
        HelpMenuRow::Binding(HelpMenuKey::Global(GlobalAction::Reload), "reload diff"),
        HelpMenuRow::Binding(HelpMenuKey::Global(GlobalAction::DiffMenu), "diff selector"),
        HelpMenuRow::Binding(HelpMenuKey::Global(GlobalAction::HeadBranch), "select head branch"),
        HelpMenuRow::Binding(HelpMenuKey::Global(GlobalAction::BaseBranch), "select base branch"),
        HelpMenuRow::Binding(HelpMenuKey::Global(GlobalAction::CommitPicker), "select commit"),
        HelpMenuRow::Binding(HelpMenuKey::Global(GlobalAction::OptionsMenu), "settings menu"),
        HelpMenuRow::Binding(HelpMenuKey::Global(GlobalAction::ClearFilters), "clear filters"),
        HelpMenuRow::Binding(HelpMenuKey::GlobalPair(GlobalAction::PreviousAnnotation, GlobalAction::NextAnnotation), "previous / next annotation"),
        HelpMenuRow::Section("Annotations"),
        HelpMenuRow::Binding(HelpMenuKey::Static("hover [+]"), "add / edit annotation"),
        HelpMenuRow::Binding(HelpMenuKey::Global(GlobalAction::SaveMark), "save mark"),
        HelpMenuRow::Binding(HelpMenuKey::Global(GlobalAction::CancelMark), "cancel mark"),
        HelpMenuRow::Binding(HelpMenuKey::Static("Enter"), "new annotation line"),
        HelpMenuRow::Binding(HelpMenuKey::Static("Cmd-←/→, Ctrl-A/E"), "line start / end"),
        HelpMenuRow::Binding(HelpMenuKey::Static("Alt-←/→"), "word left / right"),
        HelpMenuRow::Binding(HelpMenuKey::Static("Cmd-Delete"), "delete to line start"),
        HelpMenuRow::Section("Keybindings menu"),
        HelpMenuRow::Binding(HelpMenuKey::Static("type"), "filter keybindings"),
        HelpMenuRow::Binding(HelpMenuKey::Static("Backspace"), "delete char"),
        HelpMenuRow::Binding(HelpMenuKey::Static("Ctrl-U"), "clear filter"),
        HelpMenuRow::Binding(HelpMenuKey::Static("↑/↓"), "scroll list"),
        HelpMenuRow::Binding(HelpMenuKey::Static("Ctrl-N/Ctrl-P"), "scroll list"),
        HelpMenuRow::Binding(HelpMenuKey::Static("PgUp/PgDn"), "page list"),
        HelpMenuRow::Binding(HelpMenuKey::Static("Home/End"), "top / bottom"),
        HelpMenuRow::Binding(HelpMenuKey::Static("Esc"), "close"),
        HelpMenuRow::Section("Filter input"),
        HelpMenuRow::Binding(HelpMenuKey::Static("Enter"), "keep filter"),
        HelpMenuRow::Binding(HelpMenuKey::Static("Esc"), "clear active filters"),
        HelpMenuRow::Binding(HelpMenuKey::Static("Backspace"), "delete char"),
        HelpMenuRow::Binding(HelpMenuKey::Static("Cmd-←/→, Ctrl-A/E"), "line start / end"),
        HelpMenuRow::Binding(HelpMenuKey::Static("Alt-←/→"), "word left / right"),
        HelpMenuRow::Binding(HelpMenuKey::Static("Ctrl-U"), "clear input"),
        HelpMenuRow::Section("Branch filter"),
        HelpMenuRow::Binding(HelpMenuKey::Static("type"), "filter branches"),
        HelpMenuRow::Binding(HelpMenuKey::Static("Enter"), "select branch"),
        HelpMenuRow::Binding(HelpMenuKey::Static("Tab/Shift-Tab"), "cycle matches"),
        HelpMenuRow::Binding(HelpMenuKey::Static("Ctrl-N/Ctrl-P"), "cycle matches"),
        HelpMenuRow::Binding(HelpMenuKey::Static("Backspace"), "delete char"),
        HelpMenuRow::Binding(HelpMenuKey::Static("Ctrl-U"), "clear filter"),
        HelpMenuRow::Binding(HelpMenuKey::Static("↑/↓, PgUp/PgDn"), "move"),
        HelpMenuRow::Binding(HelpMenuKey::Static("Home/End"), "first / last match"),
    ];
    assert(rows@ =~= help_rows_table());
    rows
}

/// The number of rows the keybindings menu has, whatever its width.
pub fn help_menu_content_rows(width: usize) -> (r: usize)
    ensures
        r == 65,
{
    let rows = help_menu_rows();
    rows.len()
}

/// `a + b`, or `usize::MAX` when that does not fit.
pub open spec fn sat_sum2(a: int, b: int) -> int {
    if a + b > usize::MAX { usize::MAX as int } else { a + b }
}

/// The columns a keybindings menu row wants: a section's title after one
/// space; for a binding, the key column (at least its fixed width, and the
/// label with a margin of three) followed by the description. Sums stop at
/// `usize::MAX`.
pub open spec fn help_row_width_spec(row: HelpMenuRow, key_label: Seq<char>) -> int {
    match row {
        HelpMenuRow::Section(section) => unicode_str_width(" "@ + section@) as int,
        HelpMenuRow::Binding(_, description) => {
            let label = sat_sum2(unicode_str_width(key_label) as int, 3);
            let key = if HELP_KEY_COLUMN_WIDTH > label { HELP_KEY_COLUMN_WIDTH as int } else { label };
            sat_sum2(key, unicode_str_width(description@) as int)
        },
    }
}

/// The columns a keybindings menu row wants, with `key_label` the label of
/// its keys (see `help_row_width_spec`).
pub fn help_menu_row_width(row: HelpMenuRow, key_label: &str) -> (r: usize)
    ensures
        r as int == help_row_width_spec(row, key_label@),
{
    match row {
        HelpMenuRow::Section(section) => {
            let mut title = String::from_str(" ");
            title.append(section);
            str_width(title.as_str())
        },
        HelpMenuRow::Binding(_, description) => {
            let label = str_width(key_label).saturating_add(3);
            let key = if HELP_KEY_COLUMN_WIDTH > label { HELP_KEY_COLUMN_WIDTH } else { label };
            key.saturating_add(str_width(description))
        },
    }
}

/// How a binding row splits `width` columns between its key and its
/// description.
pub open spec fn binding_widths(label_width: nat, description_width: nat, width: nat) -> (nat, nat) {
    if width <= HELP_DESCRIPTION_MIN_WIDTH {
        (
            if HELP_KEY_COLUMN_WIDTH < width { HELP_KEY_COLUMN_WIDTH as nat } else { width },
            if width > HELP_KEY_COLUMN_WIDTH { (width - HELP_KEY_COLUMN_WIDTH) as nat } else { 0 },
        )
    } else {
        let margin = if label_width + 3 > usize::MAX { usize::MAX as nat } else { label_width + 3 };
        let desired = if HELP_KEY_COLUMN_WIDTH > margin { HELP_KEY_COLUMN_WIDTH as nat } else { margin };
        let total = if desired + description_width > usize::MAX { usize::MAX as nat } else { desired + description_width };
        if total <= width {
            (desired, (width - desired) as nat)
        } else {
            let reserved = if description_width < HELP_DESCRIPTION_MIN_WIDTH { description_width } else { HELP_DESCRIPTION_MIN_WIDTH as nat };
            let key = if desired < width - reserved { desired } else { (width - reserved) as nat };
            (key, (width - key) as nat)
        }
    }
}

/// The widths of a binding row's key and description columns: the key
/// column is at least its fixed width and fits the label with a margin, and
/// a narrow menu keeps room for part of the description.
pub fn help_menu_binding_widths(key_label: &str, description: &str, width: usize) -> (r: (usize, usize))
    ensures
        (r.0 as nat, r.1 as nat) == binding_widths(
            unicode_str_width(key_label@) as nat,
            unicode_str_width(description@) as nat,
            width as nat,
        ),
{
    if width <= HELP_DESCRIPTION_MIN_WIDTH {
        let key = if HELP_KEY_COLUMN_WIDTH < width { HELP_KEY_COLUMN_WIDTH } else { width };
        return (key, width.saturating_sub(HELP_KEY_COLUMN_WIDTH));
    }
    let label_width = str_width(key_label).saturating_add(3);
    let desired_key_width = if HELP_KEY_COLUMN_WIDTH > label_width { HELP_KEY_COLUMN_WIDTH } else { label_width };
    let description_width = str_width(description);
    if desired_key_width.saturating_add(description_width) <= width {
        return (desired_key_width, width - desired_key_width);
    }
    let reserved = if description_width < HELP_DESCRIPTION_MIN_WIDTH { description_width } else { HELP_DESCRIPTION_MIN_WIDTH };
    let room = width - reserved;
    let key_width = if desired_key_width < room { desired_key_width } else { room };
    (key_width, width - key_width)
}

/// The text of a binding's key column: a space and the label, fitted with an
/// ellipsis into the width less a margin, padded to the width.
pub open spec fn key_text_spec(label: Seq<char>, width: nat) -> Seq<char> {
    if width == 0 {
        Seq::empty()
    } else {
        padded_fit(seq![' '] + ellipsis_fit(label, if width >= 3 { (width - 3) as nat } else { 0 }), width)
    }
}

/// The key column text of a binding row.
pub fn help_menu_key_text(key_label: &str, width: usize) -> (r: String)
    ensures
        r@ == key_text_spec(key_label@, width as nat),
{
    if width == 0 {
        return String::new();
    }
    let available = width.saturating_sub(3);
    let key = fit_with_ellipsis(key_label, available);
    let mut text = String::from_str(" ");
    proof {
        reveal_strlit(" ");
        assert(" "@ =~= seq![' ']);
    }
    text.append(key.as_str());
    fit_padded(text.as_str(), width)
}

/// The widest branch name plus its margin, as terminal columns.
pub open spec fn branch_menu_columns(branches: Seq<String>, n: int) -> nat
    decreases n,
{
    if n <= 0 {
        0
    } else {
        let w = unicode_str_width(branches[n - 1]@) + 8;
        let rest = branch_menu_columns(branches, n - 1);
        if w > rest { w as nat } else { rest }
    }
}

/// The width of the branch menu: the widest branch name plus a margin of
/// eight columns, as a 16-bit column count.
pub fn branch_menu_width(branches: &[String]) -> (r: u16)
    requires
        forall|i: int| 0 <= i < branches@.len() ==> unicode_str_width(#[trigger] branches@[i]@) + 8 <= usize::MAX,
    ensures
        r == branch_menu_columns(branches@, branches@.len() as int) as u16,
{
    let mut widest: usize = 0;
    let mut i: usize = 0;
    while i < branches.len()
        invariant
            i <= branches@.len(),
            widest == branch_menu_columns(branches@, i as int),
            forall|j: int| 0 <= j < branches@.len() ==> unicode_str_width(#[trigger] branches@[j]@) + 8 <= usize::MAX,
        decreases branches@.len() - i,
    {
        let w = str_width(branches[i].as_str()) + 8;
        if w > widest {
            widest = w;
        }
        i += 1;
    }
    widest as u16
}

/// Whether every branch name's width leaves room for the menu's margin.
pub open spec fn branch_widths_fit(branches: Seq<String>) -> bool {
    forall|i: int| 0 <= i < branches.len() ==> unicode_str_width(#[trigger] branches[i]@) + 8 <= usize::MAX
}

/// The branch menu's width, or nothing when a name is too wide to add the
/// margin to.
pub fn branch_menu_width_checked(branches: &[String]) -> (r: Option<u16>)
    ensures
        branch_widths_fit(branches@) ==> r == Some(branch_menu_columns(branches@, branches@.len() as int) as u16),
        !branch_widths_fit(branches@) ==> r is None,
{
    let mut i: usize = 0;
    while i < branches.len()
        invariant
            i <= branches@.len(),
            forall|j: int| 0 <= j < i ==> unicode_str_width(#[trigger] branches@[j]@) + 8 <= usize::MAX,
        decreases branches@.len() - i,
    {
        let w = str_width(branches[i].as_str());
        if w > usize::MAX - 8 {
            return None;
        }
        i += 1;
    }
    Some(branch_menu_width(branches))
}

/// The color of a keybindings section title: the keyword color, or the hunk
/// color when the palette has none.
pub fn help_menu_section_color(theme: DiffTheme) -> (r: Color)
    ensures
        r == match theme.syntax.keyword {
            Some(c) => c,
            None => theme.hunk,
        },
{
    match theme.syntax.keyword {
        Some(c) => c,
        None => theme.hunk,
    }
}

/// The color of a keybinding's keys: the function color, or the header
/// color when the palette has none.
pub fn help_menu_key_color(theme: DiffTheme) -> (r: Color)
    ensures
        r == match theme.syntax.function {
            Some(c) => c,
            None => theme.header,
        },
{
    match theme.syntax.function {
        Some(c) => c,
        None => theme.header,
    }
}

/// What a diff compares, as the diff selector describes it.
pub open spec fn comparison_label_spec(source: DiffSource, scope: DiffScope) -> Seq<char> {
    match source {
        DiffSource::Worktree => match scope {
            DiffScope::All => "HEAD → working tree"@,
            DiffScope::Staged => "HEAD → index"@,
            DiffScope::Unstaged => "index → working tree"@,
        },
        DiffSource::Show(rev) => "show "@ + rev@,
        DiffSource::Base(base) => "HEAD → "@ + base@,
        DiffSource::Branch { base, head } => head@ + " → "@ + base@,
        DiffSource::Range { left, right } => left@ + " → "@ + right@,
        DiffSource::Difftool { left: _, right, path } => "git difftool "@ + match path {
            Some(p) => p@,
            None => right@,
        },
        DiffSource::Patch(PatchSource::File(path)) => "patch "@ + path@,
        DiffSource::Patch(PatchSource::Stdin) => "patch stdin"@,
        DiffSource::Patch(PatchSource::Text { label }) => label@,
    }
}

fn joined(first: &str, second: &str) -> (r: String)
    ensures
        r@ == first@ + second@,
{
    let mut s = String::from_str(first);
    s.append(second);
    s
}

fn joined3(first: &str, second: &str, third: &str) -> (r: String)
    ensures
        r@ == first@ + second@ + third@,
{
    let mut s = joined(first, second);
    s.append(third);
    s
}

/// What a diff compares: the two sides of a worktree diff, the shown
/// revision, the two ends of a comparison, the difftool path or the patch's
/// origin.
pub fn diff_comparison_label(source: &DiffSource, scope: DiffScope) -> (r: String)
    ensures
        r@ == comparison_label_spec(*source, scope),
{
    match source {
        DiffSource::Worktree => match scope {
            DiffScope::All => String::from_str("HEAD → working tree"),
            DiffScope::Staged => String::from_str("HEAD → index"),
            DiffScope::Unstaged => String::from_str("index → working tree"),
        },
        DiffSource::Show(rev) => joined("show ", rev.as_str()),
        DiffSource::Base(base) => joined("HEAD → ", base.as_str()),
        DiffSource::Branch { base, head } => joined3(head.as_str(), " → ", base.as_str()),
        DiffSource::Range { left, right } => joined3(left.as_str(), " → ", right.as_str()),
        DiffSource::Difftool { left: _, right, path } => match path {
            Some(p) => joined("git difftool ", p.as_str()),
            None => joined("git difftool ", right.as_str()),
        },
        DiffSource::Patch(PatchSource::File(path)) => joined("patch ", path.as_str()),
        DiffSource::Patch(PatchSource::Stdin) => String::from_str("patch stdin"),
        DiffSource::Patch(PatchSource::Text { label }) => String::from_str(label.as_str()),
    }
}

} // verus!
