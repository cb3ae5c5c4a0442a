//! The colors and emphasis of diff rows, gutters, signs and a few widgets,
//! picked from a colorscheme and the diff settings.
use vstd::prelude::*;
use crate::emphasis::DiffLineKind;
use crate::theme::{Color, DiffTheme};

verus! {

/// How strongly changed rows are tinted.
#[derive(Debug, Clone, Copy, PartialEq, Eq, Structural)]
pub enum DiffBackground {
    NoBackground,
    Subtle,
    Strong,
}

/// The colors and emphasis of a piece of text; a color that is not set is
/// left to what lies below.
#[derive(Debug, Clone, Copy, PartialEq, Eq, Structural)]
pub struct CellStyle {
    pub fg: Option<Color>,
    pub bg: Option<Color>,
    pub bold: bool,
}

/// How a file changed.
#[derive(Debug, Clone, Copy, PartialEq, Eq, Structural)]
pub enum FileStatus {
    Added,
    Copied,
    Deleted,
    Modified,
    Renamed,
    TypeChanged,
    Unknown,
}

/// How important a toast is.
#[derive(Debug, Clone, Copy, PartialEq, Eq, Structural)]
pub enum ToastLevel {
    Info,
    Success,
    Warning,
    Error,
    Debug,
}

/// The background behind everything.
pub open spec fn base_bg_spec(theme: DiffTheme) -> Color {
    if theme.transparent_background { Color::Reset } else { theme.background }
}

/// The background of headers.
pub open spec fn header_bg_spec(theme: DiffTheme) -> Color {
    if theme.transparent_background { Color::Reset } else { theme.gutter_bg }
}

/// The color of a row's sign and indicator.
pub open spec fn indicator_fg_spec(kind: DiffLineKind, theme: DiffTheme) -> Color {
    match kind {
        DiffLineKind::Addition => theme.addition_fg,
        DiffLineKind::Deletion => theme.deletion_fg,
        _ => theme.muted,
    }
}

/// The background of a row's gutter.
pub open spec fn gutter_bg_spec(kind: DiffLineKind, theme: DiffTheme, delta_gutter: bool) -> Color {
    if theme.transparent_background {
        Color::Reset
    } else if delta_gutter && kind == DiffLineKind::Addition {
        theme.addition_gutter_bg
    } else if delta_gutter && kind == DiffLineKind::Deletion {
        theme.deletion_gutter_bg
    } else {
        theme.gutter_bg
    }
}

/// The background of a row.
pub open spec fn row_bg_spec(kind: DiffLineKind, theme: DiffTheme, line_background: DiffBackground) -> Color {
    if theme.transparent_background {
        Color::Reset
    } else {
        match (line_background, kind) {
            (DiffBackground::Subtle, DiffLineKind::Addition) => theme.addition_bg,
            (DiffBackground::Subtle, DiffLineKind::Deletion) => theme.deletion_bg,
            (DiffBackground::Strong, DiffLineKind::Addition) => theme.addition_inline_bg,
            (DiffBackground::Strong, DiffLineKind::Deletion) => theme.deletion_inline_bg,
            _ => theme.background,
        }
    }
}

/// The background behind everything: none with a transparent background,
/// else the colorscheme's.
pub fn base_bg(theme: DiffTheme) -> (r: Color)
    ensures
        r == base_bg_spec(theme),
{
    if theme.transparent_background {
        Color::Reset
    } else {
        theme.background
    }
}

/// The background of headers: none with a transparent background, else the
/// gutter's.
pub fn header_bg(theme: DiffTheme) -> (r: Color)
    ensures
        r == header_bg_spec(theme),
{
    if theme.transparent_background {
        Color::Reset
    } else {
        theme.gutter_bg
    }
}

/// The color of the sign and indicator of a row: the added or deleted color
/// on changed rows, muted elsewhere.
pub fn diff_indicator_fg(kind: DiffLineKind, theme: DiffTheme) -> (r: Color)
    ensures
        r == indicator_fg_spec(kind, theme),
{
    match kind {
        DiffLineKind::Addition => theme.addition_fg,
        DiffLineKind::Deletion => theme.deletion_fg,
        DiffLineKind::Context | DiffLineKind::Meta => theme.muted,
    }
}

/// The background of a row's gutter: none with a transparent background;
/// the added or deleted gutter color on changed rows when gutters follow
/// the change (`delta_gutter`); else the plain gutter color.
pub fn line_gutter_bg(kind: DiffLineKind, theme: DiffTheme, delta_gutter: bool) -> (r: Color)
    ensures
        r == gutter_bg_spec(kind, theme, delta_gutter),
{
    if theme.transparent_background {
        return Color::Reset;
    }
    match (delta_gutter, kind) {
        (true, DiffLineKind::Addition) => theme.addition_gutter_bg,
        (true, DiffLineKind::Deletion) => theme.deletion_gutter_bg,
        _ => theme.gutter_bg,
    }
}

/// The background of a row: none with a transparent background; on changed
/// rows the subtle or strong tint that `line_background` asks for; else the
/// colorscheme's background.
pub fn row_bg(kind: DiffLineKind, theme: DiffTheme, line_background: DiffBackground) -> (r: Color)
    ensures
        r == row_bg_spec(kind, theme, line_background),
{
    if theme.transparent_background {
        return Color::Reset;
    }
    match (line_background, kind) {
        (DiffBackground::NoBackground, _) => theme.background,
        (DiffBackground::Subtle, DiffLineKind::Addition) => theme.addition_bg,
        (DiffBackground::Subtle, DiffLineKind::Deletion) => theme.deletion_bg,
        (DiffBackground::Strong, DiffLineKind::Addition) => theme.addition_inline_bg,
        (DiffBackground::Strong, DiffLineKind::Deletion) => theme.deletion_inline_bg,
        _ => theme.background,
    }
}

/// The style of a row's text: the foreground on the row's background for
/// changes and context (context on the base background), muted for meta
/// rows.
pub fn line_style(kind: DiffLineKind, theme: DiffTheme, line_background: DiffBackground) -> (r: CellStyle)
    ensures
        r == match kind {
            DiffLineKind::Addition | DiffLineKind::Deletion => CellStyle {
                fg: Some(theme.foreground),
                bg: Some(row_bg_spec(kind, theme, line_background)),
                bold: false,
            },
            DiffLineKind::Meta => CellStyle {
                fg: Some(theme.muted),
                bg: Some(base_bg_spec(theme)),
                bold: false,
            },
            DiffLineKind::Context => CellStyle {
                fg: Some(theme.foreground),
                bg: Some(base_bg_spec(theme)),
                bold: false,
            },
        },
{
    match kind {
        DiffLineKind::Addition | DiffLineKind::Deletion => CellStyle {
            fg: Some(theme.foreground),
            bg: Some(row_bg(kind, theme, line_background)),
            bold: false,
        },
        DiffLineKind::Meta => CellStyle { fg: Some(theme.muted), bg: Some(base_bg(theme)), bold: false },
        DiffLineKind::Context => CellStyle { fg: Some(theme.foreground), bg: Some(base_bg(theme)), bold: false },
    }
}

/// The style of a row's diff indicator.
pub fn diff_indicator_style(kind: DiffLineKind, theme: DiffTheme, delta_gutter: bool) -> (r: CellStyle)
    ensures
        r == (CellStyle {
            fg: Some(indicator_fg_spec(kind, theme)),
            bg: Some(gutter_bg_spec(kind, theme, delta_gutter)),
            bold: false,
        }),
{
    CellStyle {
        fg: Some(diff_indicator_fg(kind, theme)),
        bg: Some(line_gutter_bg(kind, theme, delta_gutter)),
        bold: false,
    }
}

/// The style of the focused row's diff indicator: the hunk color, bold.
pub fn focused_diff_indicator_style(kind: DiffLineKind, theme: DiffTheme, delta_gutter: bool) -> (r: CellStyle)
    ensures
        r == (CellStyle { fg: Some(theme.hunk), bg: Some(gutter_bg_spec(kind, theme, delta_gutter)), bold: true }),
{
    let style = diff_indicator_style(kind, theme, delta_gutter);
    CellStyle { fg: Some(theme.hunk), bg: style.bg, bold: true }
}

/// The style of a row's sign: the indicator's colors, bold on changed rows
/// when signs are set to be bold.
pub fn diff_sign_style(kind: DiffLineKind, theme: DiffTheme, delta_gutter: bool, bold_signs: bool) -> (r: CellStyle)
    ensures
        r == (CellStyle {
            fg: Some(indicator_fg_spec(kind, theme)),
            bg: Some(gutter_bg_spec(kind, theme, delta_gutter)),
            bold: bold_signs && (kind == DiffLineKind::Addition || kind == DiffLineKind::Deletion),
        }),
{
    let bold = bold_signs && match kind {
        DiffLineKind::Addition | DiffLineKind::Deletion => true,
        _ => false,
    };
    CellStyle {
        fg: Some(diff_indicator_fg(kind, theme)),
        bg: Some(line_gutter_bg(kind, theme, delta_gutter)),
        bold,
    }
}

/// The color of a file in the sidebar: added or copied files in the added
/// color, deleted ones in the deleted color, other changes in the hunk
/// color, unknown ones muted.
pub fn file_sidebar_style(status: FileStatus, theme: DiffTheme) -> (r: CellStyle)
    ensures
        r == (CellStyle {
            fg: Some(match status {
                FileStatus::Added | FileStatus::Copied => theme.addition_fg,
                FileStatus::Deleted => theme.deletion_fg,
                FileStatus::Unknown => theme.muted,
                _ => theme.hunk,
            }),
            bg: None,
            bold: false,
        }),
{
    let color = match status {
        FileStatus::Added | FileStatus::Copied => theme.addition_fg,
        FileStatus::Deleted => theme.deletion_fg,
        FileStatus::Modified | FileStatus::Renamed | FileStatus::TypeChanged => theme.hunk,
        FileStatus::Unknown => theme.muted,
    };
    CellStyle { fg: Some(color), bg: None, bold: false }
}

/// The background of a commit menu row: the header background when it is
/// highlighted, else the base background.
pub fn commit_menu_row_bg(theme: DiffTheme, highlighted: bool) -> (r: Color)
    ensures
        r == if highlighted { header_bg_spec(theme) } else { base_bg_spec(theme) },
{
    if highlighted {
        header_bg(theme)
    } else {
        base_bg(theme)
    }
}

/// The background of the help menu.
pub fn help_menu_bg(theme: DiffTheme) -> (r: Color)
    ensures
        r == base_bg_spec(theme),
{
    base_bg(theme)
}

/// The color of a key binding's description in the help menu.
pub fn help_menu_description_color(theme: DiffTheme) -> (r: Color)
    ensures
        r == theme.foreground,
{
    theme.foreground
}

/// The accent of a toast: the foreground for information, the added color
/// for success, yellow for warnings, the deleted color for errors and muted
/// for debugging output.
pub fn toast_accent_color(theme: DiffTheme, level: ToastLevel) -> (r: Color)
    ensures
        r == match level {
            ToastLevel::Info => theme.foreground,
            ToastLevel::Success => theme.addition_fg,
            ToastLevel::Warning => Color::Yellow,
            ToastLevel::Error => theme.deletion_fg,
            ToastLevel::Debug => theme.muted,
        },
{
    match level {
        ToastLevel::Info => theme.foreground,
        ToastLevel::Success => theme.addition_fg,
        ToastLevel::Warning => Color::Yellow,
        ToastLevel::Error => theme.deletion_fg,
        ToastLevel::Debug => theme.muted,
    }
}

/// The one-letter code of a file status, as git prints it.
pub open spec fn status_code_spec(status: FileStatus) -> Seq<char> {
    match status {
        FileStatus::Modified => "M"@,
        FileStatus::Added => "A"@,
        FileStatus::Deleted => "D"@,
        FileStatus::Renamed => "R"@,
        FileStatus::Copied => "C"@,
        FileStatus::TypeChanged => "T"@,
        FileStatus::Unknown => "?"@,
    }
}

/// The one-letter code of a file status.
pub fn status_code(status: FileStatus) -> (r: &'static str)
    ensures
        r@ == status_code_spec(status),
{
    match status {
        FileStatus::Modified => "M",
        FileStatus::Added => "A",
        FileStatus::Deleted => "D",
        FileStatus::Renamed => "R",
        FileStatus::Copied => "C",
        FileStatus::TypeChanged => "T",
        FileStatus::Unknown => "?",
    }
}

/// Rows take the colors of their change: with an opaque theme, an added row
/// lies on the theme's addition background (its tint for subtle
/// backgrounds, its stronger tint for strong ones) and a deleted row on the
/// deletion background likewise; rows without a change, and every row when
/// backgrounds are off, lie on the theme's background; a transparent theme
/// paints none. The sign gutter follows the same rule with the gutter colors.
pub proof fn rows_take_the_colors_of_their_change(theme: DiffTheme, line_background: DiffBackground, kind: DiffLineKind, delta_gutter: bool)
    ensures
        theme.transparent_background ==> row_bg_spec(kind, theme, line_background) == Color::Reset,
        !theme.transparent_background ==> row_bg_spec(DiffLineKind::Addition, theme, DiffBackground::Subtle) == theme.addition_bg,
        !theme.transparent_background ==> row_bg_spec(DiffLineKind::Addition, theme, DiffBackground::Strong) == theme.addition_inline_bg,
        !theme.transparent_background ==> row_bg_spec(DiffLineKind::Deletion, theme, DiffBackground::Subtle) == theme.deletion_bg,
        !theme.transparent_background ==> row_bg_spec(DiffLineKind::Deletion, theme, DiffBackground::Strong) == theme.deletion_inline_bg,
        !theme.transparent_background && (line_background == DiffBackground::NoBackground
            || kind == DiffLineKind::Context || kind == DiffLineKind::Meta)
            ==> row_bg_spec(kind, theme, line_background) == theme.background,
        !theme.transparent_background && delta_gutter ==> gutter_bg_spec(DiffLineKind::Addition, theme, delta_gutter) == theme.addition_gutter_bg,
        !theme.transparent_background && delta_gutter ==> gutter_bg_spec(DiffLineKind::Deletion, theme, delta_gutter) == theme.deletion_gutter_bg,
        !theme.transparent_background && (!delta_gutter || kind == DiffLineKind::Context || kind == DiffLineKind::Meta)
            ==> gutter_bg_spec(kind, theme, delta_gutter) == theme.gutter_bg,
{
}

} // verus!
