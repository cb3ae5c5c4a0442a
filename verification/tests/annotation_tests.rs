use mark_tui::annotations::{
    annotation_body_width, annotation_close_hit_at_column, annotation_compose_block_height,
    annotation_display_lines, annotation_edit_hit_at_column, annotation_footer_button_label,
    annotation_hit_at_column, annotation_saved_block_height, annotation_submit_hit_at_column,
    annotation_wrap_boundary, split_annotation_hit_side_at_column, split_annotation_side_at_column,
    text_with_cursor, wrap_annotation_paragraph, wrap_annotation_text, AnnotationButtons,
    AnnotationDraft, AnnotationFooterButton, AnnotationSide, ButtonText,
};

fn buttons() -> AnnotationButtons {
    AnnotationButtons {
        add: " + ".to_owned(),
        add_width: 3,
        close: " x ".to_owned(),
        close_width: 3,
        edit: ButtonText { full: "[edit]".to_owned(), full_width: 6, ascii: "edit".to_owned() },
        submit: ButtonText { full: "[save]".to_owned(), full_width: 6, ascii: "save".to_owned() },
    }
}

#[test]
fn wrap_breaks_after_whitespace_that_follows_content() {
    assert_eq!(wrap_annotation_text("hello world", 8), vec!["hello ", "world"]);
    assert_eq!(wrap_annotation_text("abcdefghij", 4), vec!["abcd", "efgh", "ij"]);
}

#[test]
fn wrap_keeps_line_feeds_and_empty_paragraphs() {
    assert_eq!(wrap_annotation_text("a\n\nb", 10), vec!["a", "", "b"]);
    assert_eq!(wrap_annotation_text("", 10), vec![""]);
    assert_eq!(wrap_annotation_text("anything", 0), vec![""]);
}

#[test]
fn wrap_puts_a_too_wide_character_on_its_own_line() {
    assert_eq!(wrap_annotation_text("界界", 1), vec!["界", "界"]);
}

#[test]
fn wrapped_lines_join_back_to_the_paragraph() {
    let text = "the quick brown fox jumps over the lazy dog";
    let mut lines = Vec::new();
    wrap_annotation_paragraph(text, 7, &mut lines);
    assert_eq!(lines.concat(), text);
    assert!(lines.iter().all(|l| !l.is_empty()));
}

#[test]
fn wrap_boundary_is_a_byte_offset() {
    assert_eq!(annotation_wrap_boundary("ab cd", 5), Some(3));
    assert_eq!(annotation_wrap_boundary("  ab", 4), None);
    assert_eq!(annotation_wrap_boundary("é b", 3), Some(3));
}

#[test]
fn block_heights_add_two_borders() {
    assert_eq!(annotation_body_width(9), 9);
    assert_eq!(annotation_display_lines("one two", 4), vec!["one ", "two"]);
    assert_eq!(annotation_saved_block_height("one two", 4), 4);
    let draft = AnnotationDraft { input: "ab".to_owned(), cursor: 1 };
    assert_eq!(annotation_compose_block_height(&draft, 10, "|"), 3);
}

#[test]
fn cursor_is_inserted_at_a_character_boundary() {
    assert_eq!(text_with_cursor("abc", 1, "|"), "a|bc");
    assert_eq!(text_with_cursor("abc", 9, "|"), "abc|");
    assert_eq!(text_with_cursor("é", 1, "|"), "é|");
    assert_eq!(text_with_cursor("éa", 2, "|"), "é|a");
}

#[test]
fn footer_label_falls_back_to_plain_text() {
    let b = buttons();
    assert_eq!(annotation_footer_button_label(10, AnnotationFooterButton::Edit, &b), "[edit]");
    assert_eq!(annotation_footer_button_label(3, AnnotationFooterButton::Submit, &b), "sav");
    assert_eq!(annotation_footer_button_label(10, AnnotationFooterButton::NoButton, &b), "");
}

#[test]
fn buttons_are_hit_at_the_right_end() {
    assert!(annotation_hit_at_column(17, 20, 3));
    assert!(!annotation_hit_at_column(16, 20, 3));
    assert!(!annotation_hit_at_column(0, 2, 3));
    assert!(annotation_close_hit_at_column(19, 20, 3));
    assert!(annotation_submit_hit_at_column(14, 20, 6));
    assert!(!annotation_edit_hit_at_column(13, 20, 6));
}

#[test]
fn split_rows_have_old_left_and_new_right() {
    assert_eq!(split_annotation_side_at_column(4, 10), Some(AnnotationSide::Old));
    assert_eq!(split_annotation_side_at_column(5, 10), Some(AnnotationSide::New));
    assert_eq!(split_annotation_side_at_column(10, 10), None);
    assert_eq!(split_annotation_hit_side_at_column(4, 10, 2), Some(AnnotationSide::Old));
    assert_eq!(split_annotation_hit_side_at_column(2, 10, 2), None);
    assert_eq!(split_annotation_hit_side_at_column(9, 10, 2), Some(AnnotationSide::New));
    assert_eq!(split_annotation_hit_side_at_column(9, 10, 6), None);
}
