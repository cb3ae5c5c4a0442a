use mark_tui::annotations::{
    annotation_compose_block_height, annotation_saved_block_height, AnnotationButtons, AnnotationDraft, AnnotationFooterButton,
    AnnotationSide, ButtonText,
};
use mark_tui::emphasis::DiffLineKind;
use mark_tui::menus::{diff_comparison_label, help_menu_key_text, HelpMenuKey, HelpMenuRow};
use mark_tui::screen::{toast_area, Rect, ScreenLayout, ToastCorner};
use mark_tui::source::{DiffScope, DiffSource, PatchSource};
use mark_tui::spans::{
    annotation_body_line, annotation_bottom_border_line, context_hide_line, context_show_line, error_log_header_line,
    help_menu_row_line, help_menu_row_spans, push_filter_bar_span, render_annotation_compose_block,
    render_annotation_saved_block, annotation_top_border_line, append_annotation_add_button,
    append_split_annotation_add_button, split_line_at_width, StyledSpan, DIFF_INDICATOR,
};
use mark_tui::style::{
    base_bg, diff_sign_style, file_sidebar_style, line_gutter_bg, row_bg, toast_accent_color, CellStyle, DiffBackground,
    FileStatus, ToastLevel,
};
use mark_tui::theme::{Color, DiffTheme};
use unicode_width::UnicodeWidthStr;

fn buttons() -> AnnotationButtons {
    AnnotationButtons {
        add: " + ".to_owned(),
        add_width: 3,
        close: " x ".to_owned(),
        close_width: 3,
        edit: ButtonText { full: "[edit]".to_owned(), full_width: 6, ascii: "edit".to_owned() },
        submit: ButtonText { full: "[save]".to_owned(), full_width: 6, ascii: "save".to_owned() },
    }
}

fn plain() -> CellStyle {
    CellStyle { fg: None, bg: None, bold: false }
}

fn span(text: &str) -> StyledSpan {
    StyledSpan { text: text.to_owned(), style: plain() }
}

fn line_text(spans: &[StyledSpan]) -> String {
    spans.iter().map(|span| span.text.as_str()).collect()
}

fn texts(spans: &[StyledSpan]) -> Vec<String> {
    spans.iter().map(|s| s.text.clone()).collect()
}

#[test]
fn screen_layout_stacks_header_body_filter_and_error_log() {
    let area = Rect { x: 0, y: 0, width: 100, height: 30 };
    let layout = ScreenLayout::build(area, true, true, 5, 3, 12, 20);
    assert_eq!(layout.header, Rect { x: 0, y: 0, width: 100, height: 1 });
    assert_eq!(layout.body, Rect { x: 0, y: 1, width: 100, height: 23 });
    assert_eq!(layout.filter_bar, Some(Rect { x: 0, y: 24, width: 100, height: 1 }));
    assert_eq!(layout.error_log, Some(Rect { x: 0, y: 25, width: 100, height: 5 }));
    assert_eq!(layout.sidebar, Some(Rect { x: 0, y: 1, width: 20, height: 23 }));
    assert_eq!(layout.diff, Rect { x: 20, y: 1, width: 80, height: 23 });
}

#[test]
fn screen_layout_without_bars_gives_the_body_every_row_but_the_header() {
    let area = Rect { x: 2, y: 3, width: 40, height: 10 };
    let layout = ScreenLayout::build(area, false, false, 5, 3, 12, 0);
    assert_eq!(layout.body, Rect { x: 2, y: 4, width: 40, height: 9 });
    assert_eq!(layout.filter_bar, None);
    assert_eq!(layout.error_log, None);
    assert_eq!(layout.sidebar, None);
    assert_eq!(layout.diff, layout.body);

    let one_row = ScreenLayout::build(Rect { x: 0, y: 0, width: 40, height: 1 }, true, false, 5, 3, 12, 0);
    assert_eq!(one_row.filter_bar, None);
    assert_eq!(one_row.body.height, 0);
}

#[test]
fn toasts_stack_from_their_corner() {
    let area = Rect { x: 0, y: 0, width: 80, height: 20 };
    assert_eq!(toast_area("saved", area, ToastCorner::TopRight, 0), Some(Rect { x: 67, y: 1, width: 11, height: 3 }));
    assert_eq!(toast_area("saved", area, ToastCorner::TopLeft, 1), Some(Rect { x: 2, y: 5, width: 11, height: 3 }));
    assert_eq!(toast_area("saved", area, ToastCorner::BottomLeft, 0), Some(Rect { x: 2, y: 16, width: 11, height: 3 }));
    assert_eq!(toast_area("saved", area, ToastCorner::TopRight, 5), None);
    let long = "x".repeat(100);
    assert_eq!(toast_area(&long, area, ToastCorner::TopLeft, 0).map(|r| r.width), Some(48));
}

#[test]
fn comparison_labels_name_both_sides() {
    assert_eq!(diff_comparison_label(&DiffSource::Worktree, DiffScope::All), "HEAD → working tree");
    assert_eq!(diff_comparison_label(&DiffSource::Worktree, DiffScope::Unstaged), "index → working tree");
    assert_eq!(
        diff_comparison_label(&DiffSource::Branch { base: "main".to_owned(), head: "topic".to_owned() }, DiffScope::All),
        "topic → main"
    );
    assert_eq!(diff_comparison_label(&DiffSource::Show("abc123".to_owned()), DiffScope::All), "show abc123");
    assert_eq!(diff_comparison_label(&DiffSource::Patch(PatchSource::Stdin), DiffScope::All), "patch stdin");
    assert_eq!(
        diff_comparison_label(
            &DiffSource::Difftool { left: "/tmp/a".to_owned(), right: "/tmp/b".to_owned(), path: None },
            DiffScope::All
        ),
        "git difftool /tmp/b"
    );
}

#[test]
fn transparent_background_resets_row_and_gutter_backgrounds() {
    let theme = DiffTheme::ansi().with_transparent_background(true);
    assert_eq!(row_bg(DiffLineKind::Addition, theme, DiffBackground::Subtle), Color::Reset);
    assert_eq!(line_gutter_bg(DiffLineKind::Addition, theme, true), Color::Reset);
    assert_eq!(base_bg(theme), Color::Reset);
}

#[test]
fn row_backgrounds_follow_the_diff_settings() {
    let theme = DiffTheme::ansi();
    assert_eq!(row_bg(DiffLineKind::Addition, theme, DiffBackground::Subtle), theme.addition_bg);
    assert_eq!(row_bg(DiffLineKind::Deletion, theme, DiffBackground::Strong), theme.deletion_inline_bg);
    assert_eq!(row_bg(DiffLineKind::Addition, theme, DiffBackground::NoBackground), theme.background);
    assert_eq!(row_bg(DiffLineKind::Context, theme, DiffBackground::Strong), theme.background);
    assert_eq!(line_gutter_bg(DiffLineKind::Deletion, theme, true), theme.deletion_gutter_bg);
    assert_eq!(line_gutter_bg(DiffLineKind::Deletion, theme, false), theme.gutter_bg);
    assert!(diff_sign_style(DiffLineKind::Addition, theme, false, true).bold);
    assert!(!diff_sign_style(DiffLineKind::Context, theme, false, true).bold);
    assert_eq!(file_sidebar_style(FileStatus::Renamed, theme).fg, Some(theme.hunk));
    assert_eq!(toast_accent_color(theme, ToastLevel::Warning), Color::Yellow);
}

#[test]
fn rows_split_at_a_column() {
    let (left, right) = split_line_at_width(vec![span("abc"), span("defg"), span("h")], 5);
    assert_eq!(texts(&left), vec!["abc", "de"]);
    assert_eq!(texts(&right), vec!["fg", "h"]);

    let (left, right) = split_line_at_width(vec![span("abc"), span("de"), span("f")], 5);
    assert_eq!(texts(&left), vec!["abc", "de"]);
    assert_eq!(texts(&right), vec!["f"]);

    let (left, right) = split_line_at_width(vec![span("ab")], 0);
    assert!(left.is_empty());
    assert_eq!(texts(&right), vec!["ab"]);

    let (left, right) = split_line_at_width(vec![span("a界b")], 2);
    assert_eq!(texts(&left), vec!["a", " "]);
    assert_eq!(texts(&right), vec!["b"]);
}

#[test]
fn add_button_goes_at_the_end_of_the_row() {
    let theme = DiffTheme::ansi();
    let row = append_annotation_add_button(vec![span("abcdef")], 8, theme, &buttons());
    assert_eq!(texts(&row), vec!["abcde", " + "]);

    let short = append_annotation_add_button(vec![span("ab")], 8, theme, &buttons());
    assert_eq!(texts(&short), vec!["ab", "   ", " + "]);
    assert_eq!(short[1].style.bg, Some(theme.cursor_line_bg));
    assert!(short[2].style.bold);

    let narrow = append_annotation_add_button(vec![span("ab")], 2, theme, &buttons());
    assert_eq!(texts(&narrow), vec!["ab"]);

    let old_side = append_split_annotation_add_button(vec![span("abcdef"), span("ghij")], 10, AnnotationSide::Old, theme, &buttons());
    assert_eq!(texts(&old_side), vec!["ab", " + ", "f", "ghij"]);
}

#[test]
fn annotation_borders_end_in_their_buttons() {
    let theme = DiffTheme::ansi();
    let top = annotation_top_border_line(10, theme, Some("note"), &buttons());
    assert_eq!(texts(&top), vec!["note ", "──", " x "]);
    assert_eq!(top[2].style.fg, Some(theme.deletion_fg));

    let bare = annotation_top_border_line(5, theme, None, &buttons());
    assert_eq!(texts(&bare), vec!["──", " x "]);

    let tiny = annotation_top_border_line(2, theme, None, &buttons());
    assert_eq!(texts(&tiny), vec!["─"]);

    let bottom = annotation_bottom_border_line(10, theme, AnnotationFooterButton::Submit, &buttons());
    assert_eq!(texts(&bottom), vec!["────", "[save]"]);
    assert_eq!(bottom[1].style.fg, Some(theme.addition_fg));

    let narrow = annotation_bottom_border_line(4, theme, AnnotationFooterButton::Edit, &buttons());
    assert_eq!(texts(&narrow), vec!["", "edit"]);

    let plain_rule = annotation_bottom_border_line(3, theme, AnnotationFooterButton::NoButton, &buttons());
    assert_eq!(texts(&plain_rule), vec!["───"]);

    assert!(annotation_bottom_border_line(0, theme, AnnotationFooterButton::Edit, &buttons()).is_empty());

    let body = annotation_body_line("hi", 5, theme, Color::Red);
    assert_eq!(texts(&body), vec!["hi   "]);
    assert_eq!(body[0].style.fg, Some(Color::Red));
}

#[test]
fn error_log_header_ends_in_the_copy_hint() {
    let theme = DiffTheme::ansi();
    let header = error_log_header_line(theme, "y", 40);
    assert_eq!(texts(&header), vec!["error ".to_owned(), "─".repeat(19), " [Copy All (y)]".to_owned()]);
    assert_eq!(header[2].style.fg, Some(theme.deletion_fg));

    let unbound = error_log_header_line(theme, "unbound", 10);
    assert_eq!(texts(&unbound), vec!["error ────".to_owned()]);

    let narrow = error_log_header_line(theme, "y", 4);
    assert_eq!(texts(&narrow), vec!["erro"]);

    let crowded = error_log_header_line(theme, "y", 21);
    assert_eq!(texts(&crowded), vec![format!("error {}", "─".repeat(15))]);
    assert!(error_log_header_line(theme, "y", 0).is_empty());
}

#[test]
fn context_rows_label_the_hidden_lines() {
    let theme = DiffTheme::ansi();
    let show = context_show_line(3, false, "▴", 30, theme);
    assert_eq!(texts(&show), vec!["▌".to_owned(), format!(" ▴ show 3 lines{}", " ".repeat(14))]);
    assert_eq!(show[1].style.fg, Some(theme.muted));

    let more = context_show_line(1200, true, "▾", 40, theme);
    assert_eq!(more[1].text.trim_end(), " ▾ show 1,200 more lines");

    let hide = context_hide_line(1, "▾", 20, theme);
    assert_eq!(texts(&hide), vec!["▌", " ▾ hide 1 line     "]);

    assert_eq!(texts(&context_hide_line(1, "▾", 1, theme)), vec!["▌"]);
    assert!(context_show_line(1, false, "▾", 0, theme).is_empty());
}

#[test]
fn collapsed_context_control_is_minimal_and_readable() {
    let theme = DiffTheme::ansi();
    let line = context_show_line(20, false, "▾", 72, theme);
    let text = line_text(&line);

    assert_eq!(text.width(), 72);
    assert!(text.starts_with(DIFF_INDICATOR));
    assert!(text.contains("▾ show 20 lines"));
    assert_eq!(line[1].style.fg, Some(theme.muted));
    assert_eq!(line[0].style.bg, Some(line_gutter_bg(DiffLineKind::Meta, theme, false)));

    let hide = context_hide_line(20, "▴", 24, theme);
    let hide_text = line_text(&hide);
    assert!(hide_text.contains("▴ hide 20 lines"));
    assert_eq!(hide[1].style.fg, Some(theme.muted));
}

#[test]
fn filter_bar_spans_use_up_the_room() {
    let mut spans = Vec::new();
    let mut remaining = 5;
    push_filter_bar_span(&mut spans, "abcdefg", plain(), &mut remaining);
    assert_eq!(texts(&spans), vec!["abcde"]);
    assert_eq!(remaining, 0);
    push_filter_bar_span(&mut spans, "more", plain(), &mut remaining);
    assert_eq!(spans.len(), 1);
}

#[test]
fn help_rows_show_sections_and_bindings() {
    let theme = DiffTheme::ansi();
    let section = help_menu_row_line(HelpMenuRow::Section("Navigation"), "", 16, theme);
    assert_eq!(texts(&section), vec![" Navigation     "]);
    assert!(section[0].style.bold);
    let listed = help_menu_row_spans(HelpMenuRow::Section("Navigation"), "", 16, theme);
    assert_eq!(texts(&listed), vec!["  Navigation    "]);

    let binding = help_menu_row_line(HelpMenuRow::Binding(HelpMenuKey::Static("j"), "Move down"), "j", 40, theme);
    assert_eq!(binding.len(), 2);
    assert_eq!(binding[0].text, help_menu_key_text("j", 17));
    assert_eq!(binding[1].text, format!("Move down{}", " ".repeat(14)));
    assert_eq!(binding[1].style.fg, Some(theme.foreground));
}

#[test]
fn annotation_blocks_render_as_many_rows_as_planned() {
    let theme = DiffTheme::ansi();
    let rows = render_annotation_saved_block("hello world", 8, theme, Some("me"), &buttons());
    assert_eq!(rows.len(), annotation_saved_block_height("hello world", 8));
    assert_eq!(texts(&rows[0]), vec!["me ", "──", " x "]);
    assert_eq!(texts(&rows[rows.len() - 1]), vec!["──", "[edit]"]);
    for row in &rows[1..rows.len() - 1] {
        assert_eq!(row.len(), 1);
        assert_eq!(row[0].text.chars().count(), 8);
        assert_eq!(row[0].style.fg, Some(theme.muted));
    }

    let draft = AnnotationDraft { input: "note".to_owned(), cursor: 2 };
    let compose = render_annotation_compose_block(&draft, 10, theme, None, "|", &buttons());
    assert_eq!(compose.len(), annotation_compose_block_height(&draft, 10, "|"));
    assert_eq!(texts(&compose[1]), vec!["no|te     "]);
    assert_eq!(texts(&compose[compose.len() - 1]), vec!["────", "[save]"]);
}
