use mark_tui::layout::{
    default_layout_for_width, empty_diff_fill_from, max_scroll_for_viewport, DiffLayoutMode,
    MIN_SPLIT_WIDTH,
};

#[test]
fn default_layout_uses_split_only_when_terminal_is_wide_enough() {
    assert_eq!(
        default_layout_for_width(MIN_SPLIT_WIDTH - 1),
        DiffLayoutMode::Unified
    );
    assert_eq!(
        default_layout_for_width(MIN_SPLIT_WIDTH),
        DiffLayoutMode::Split
    );
}

#[test]
fn max_scroll_stops_at_last_full_viewport() {
    assert_eq!(max_scroll_for_viewport(10, 1), 9);
    assert_eq!(max_scroll_for_viewport(10, 4), 6);
    assert_eq!(max_scroll_for_viewport(3, 10), 0);
    assert_eq!(max_scroll_for_viewport(10, 10), 0);
    assert_eq!(max_scroll_for_viewport(10, 0), 9);
}

#[test]
fn empty_diff_fill_draws_shifted_diagonal_pattern() {
    assert_eq!(empty_diff_fill_from(8, 0, 0), "╱  ╱  ╱ ");
    assert_eq!(empty_diff_fill_from(8, 1, 0), "  ╱  ╱  ");
    assert_eq!(empty_diff_fill_from(8, 2, 0), " ╱  ╱  ╱");
}

#[test]
fn empty_fill_counts_from_the_screen_column() {
    assert_eq!(empty_diff_fill_from(4, 0, 1), "  ╱ ");
    assert_eq!(empty_diff_fill_from(0, 5, 5), "");
    assert_eq!(empty_diff_fill_from(3, usize::MAX, usize::MAX), "╱  ");
}
