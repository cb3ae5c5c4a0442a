use mark_tui::menus::{
    branch_menu_width, help_menu_binding_widths, help_menu_content_rows, help_menu_key_text,
    help_menu_row_width, help_menu_rows, GlobalAction, HelpMenuKey, HelpMenuRow,
};
use mark_tui::statusline::{
    active_filter_query_parts, error_log_copy_label, error_log_height, filter_bar_query,
    filter_bar_visible, filter_status_right_label, overlay_component_id, ComponentId,
    DiffFilterKind, OverlayLayer,
};

#[test]
fn help_menu_lists_every_row() {
    assert_eq!(help_menu_content_rows(80), help_menu_rows().len());
    assert!(matches!(help_menu_rows()[0], HelpMenuRow::Section("Global")));
}

#[test]
fn binding_widths_keep_room_for_descriptions() {
    assert_eq!(help_menu_binding_widths("q", "quit", 20), (17, 3));
    assert_eq!(help_menu_binding_widths("q", "quit", 60), (17, 43));
    assert_eq!(help_menu_binding_widths("a-very-long-key-label", "describe", 30), (22, 8));
    assert_eq!(help_menu_binding_widths("a-very-long-key-label-indeed", "a long description of it", 40), (16, 24));
}

#[test]
fn key_text_is_indented_and_padded() {
    assert_eq!(help_menu_key_text("j/k", 8), " j/k    ");
    assert_eq!(help_menu_key_text("abcdefgh", 8), " ab...  ");
    assert_eq!(help_menu_key_text("x", 0), "");
}

#[test]
fn branch_menu_fits_the_widest_branch() {
    assert_eq!(branch_menu_width(&["main".to_owned(), "feature/x".to_owned()]), 17);
    assert_eq!(branch_menu_width(&[]), 0);
}

#[test]
fn filter_bar_shows_matches_and_files() {
    assert!(filter_bar_visible(Some(DiffFilterKind::File), false));
    assert!(!filter_bar_visible(None, false));
    assert_eq!(filter_bar_query(Some(DiffFilterKind::Grep), DiffFilterKind::Grep, "typed", "applied"), "typed");
    assert_eq!(filter_bar_query(None, DiffFilterKind::Grep, "typed", "applied"), "applied");
    assert_eq!(filter_status_right_label(true, "x", 3, None, false, "", 0, 0).as_deref(), Some("…"));
    assert_eq!(filter_status_right_label(false, "x", 0, None, false, "", 0, 0).as_deref(), Some("0"));
    assert_eq!(filter_status_right_label(false, "x", 1500, Some(9), false, "", 0, 0).as_deref(), Some("10/1,500"));
    assert_eq!(filter_status_right_label(false, "x", 5, Some(99), true, "", 0, 0).as_deref(), Some("5/10k+"));
    assert_eq!(filter_status_right_label(false, "", 0, None, false, "src", 3, 1200).as_deref(), Some("3/1,200 files"));
    assert_eq!(filter_status_right_label(false, "", 0, None, false, "", 3, 12), None);
}

#[test]
fn query_splits_at_the_cursor() {
    assert_eq!(active_filter_query_parts("abc", 1), ("a", "bc"));
    assert_eq!(active_filter_query_parts("abc", 7), ("abc", ""));
    assert_eq!(active_filter_query_parts("éa", 1), ("éa", ""));
}

#[test]
fn error_log_copy_hint_and_height() {
    assert_eq!(error_log_copy_label("unbound"), "");
    assert_eq!(error_log_copy_label("y"), " [Copy All (y)]");
    assert_eq!(error_log_height(true, 30, 10, 3, 20), 10);
    assert_eq!(error_log_height(true, 1, 10, 3, 20), 3);
    assert_eq!(error_log_height(false, 5, 10, 3, 20), 0);
}

#[test]
fn overlays_map_to_their_components() {
    assert_eq!(overlay_component_id(OverlayLayer::HelpMenu), ComponentId::HelpMenu);
    assert_eq!(overlay_component_id(OverlayLayer::DiffMenu), ComponentId::DiffMenu);
}

#[test]
fn help_rows_want_their_title_or_key_and_description() {
    assert_eq!(help_menu_row_width(HelpMenuRow::Section("Global"), ""), 7);
    let quit = HelpMenuRow::Binding(HelpMenuKey::Global(GlobalAction::Quit), "quit");
    assert_eq!(help_menu_row_width(quit, "q"), 21);
    assert_eq!(help_menu_row_width(quit, "ctrl-shift-alt-q, x"), 26);
}
