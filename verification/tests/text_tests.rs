use mark_tui::unicode::{char_is_whitespace, char_len_utf8, usize_to_decimal};
use mark_tui::text::{
    error_log_separator, fit, fit_padded, fit_padded_from, fit_with_ellipsis, fit_with_width,
    format_count, progress_label, skip_display_prefix, spaces,
};
use unicode_width::UnicodeWidthStr;

#[test]
fn error_log_separator_fills_width() {
    assert_eq!(error_log_separator(0), "");
    assert_eq!(error_log_separator(4), "erro");
    assert_eq!(error_log_separator(12), "error ──────");
    assert_eq!(error_log_separator(12).width(), 12);
}

#[test]
fn progress_label_is_bounded() {
    assert_eq!(progress_label(0, 0), "100%");
    assert_eq!(progress_label(0, 20), "0%");
    assert_eq!(progress_label(10, 20), "50%");
    assert_eq!(progress_label(100, 20), "100%");
}

#[test]
fn format_count_groups_thousands() {
    assert_eq!(format_count(0), "0");
    assert_eq!(format_count(42), "42");
    assert_eq!(format_count(999), "999");
    assert_eq!(format_count(1_000), "1,000");
    assert_eq!(format_count(1_009_257), "1,009,257");
}

#[test]
fn fit_helpers_use_terminal_display_width() {
    assert_eq!(fit("界a", 2), "界");
    assert_eq!(fit_padded("e\u{301}", 2), "e\u{301} ");
    assert_eq!(fit_padded_from("abcdef", 2, 3), "cde");
    assert_eq!(skip_display_prefix("abcdef", 2), ("cdef", 2));
    assert_eq!(skip_display_prefix("e\u{301}f", 1), ("f", 1));
    assert_eq!(fit_with_ellipsis("abcdef", 5), "ab...");
}

#[test]
fn fit_keeps_characters_while_they_fit() {
    assert_eq!(fit("hello", 3), "hel");
    assert_eq!(fit("hello", 0), "");
    assert_eq!(fit("界界", 3), "界");
    assert_eq!(fit_with_width("界a", 3), ("界a".to_owned(), 3, true));
    assert_eq!(fit_with_width("界ab", 3), ("界a".to_owned(), 3, false));
}

#[test]
fn ellipsis_appears_only_when_text_is_cut() {
    assert_eq!(fit_with_ellipsis("abc", 3), "abc");
    assert_eq!(fit_with_ellipsis("abcd", 3), "...");
    assert_eq!(fit_with_ellipsis("abcd", 2), "..");
    assert_eq!(fit_with_ellipsis("abcd", 0), "");
}

#[test]
fn padding_and_spaces_fill_the_width() {
    assert_eq!(spaces(3), "   ");
    assert_eq!(fit_padded("ab", 4), "ab  ");
    assert_eq!(fit_padded("abcdef", 4), "abcd");
    assert_eq!(fit_padded_from("ab", 5, 3), "   ");
}

#[test]
fn format_count_handles_large_values() {
    assert_eq!(format_count(1_000_000), "1,000,000");
    assert_eq!(format_count(12_345), "12,345");
    assert_eq!(format_count(100), "100");
}

#[test]
fn progress_label_rounds_down() {
    assert_eq!(progress_label(1, 3), "33%");
    assert_eq!(progress_label(2, 3), "66%");
}

#[test]
fn error_log_separator_exact_title_width() {
    assert_eq!(error_log_separator(6), "error ");
    assert_eq!(error_log_separator(7), "error ─");
}

#[test]
fn decimal_digits_and_utf8_lengths() {
    assert_eq!(usize_to_decimal(0), "0");
    assert_eq!(usize_to_decimal(1234567), "1234567");
    assert_eq!(usize_to_decimal(usize::MAX), usize::MAX.to_string());
    for c in ['a', 'é', '─', '😀', '\u{7f}', '\u{80}', '\u{7ff}', '\u{800}', '\u{ffff}', '\u{10000}'] {
        assert_eq!(char_len_utf8(c), c.len_utf8(), "{c:?}");
    }
    for c in [' ', '\t', '\n', '\u{0b}', '\u{85}', '\u{a0}', '\u{1680}', '\u{2007}', '\u{2028}', '\u{3000}', 'a', '\u{180e}', '\u{200b}', '\u{feff}'] {
        assert_eq!(char_is_whitespace(c), c.is_whitespace(), "{c:?}");
    }
}
