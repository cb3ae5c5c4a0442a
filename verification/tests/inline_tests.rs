use mark_tui::emphasis::{compute_hunk_inline_emphasis, DiffLine, DiffLineKind, InlineHunkEmphasisCache};
use mark_tui::inline::{
    changed_token_ranges, inline_ascii_class, inline_char_class, inline_ranges_from_tokens, inline_tokens,
    range_texts, InlineCharClass, InlineRange, InlineToken, MAX_INLINE_DIFF_LINE_BYTES,
};

fn line(kind: DiffLineKind, old_line: Option<usize>, new_line: Option<usize>, text: &str) -> DiffLine {
    DiffLine { kind, old_line, new_line, text: text.to_owned() }
}

#[test]
fn inline_ascii_tokenizer_treats_vertical_tab_as_whitespace() {
    let tokens = inline_tokens("a \x0B\tb");

    assert_eq!(tokens.len(), 3);
    assert_eq!(tokens[1].byte_start, 1);
    assert_eq!(tokens[1].byte_end, 4);
    assert_eq!(inline_ascii_class(0x0B), InlineCharClass::Whitespace);
}

#[test]
fn inline_emphasis_marks_changed_tokens_in_paired_lines() {
    let lines = vec![
        line(DiffLineKind::Deletion, Some(1), None, "let count = 1;"),
        line(DiffLineKind::Addition, None, Some(1), "let total = 2;"),
    ];

    let emphasis = compute_hunk_inline_emphasis(&lines);

    assert_eq!(range_texts(&lines[0].text, &emphasis[0].ranges), ["count", "1"]);
    assert_eq!(range_texts(&lines[1].text, &emphasis[1].ranges), ["total", "2"]);
}

#[test]
fn inline_emphasis_leaves_unpaired_changed_lines_to_line_style() {
    let lines = vec![line(DiffLineKind::Deletion, Some(1), None, "removed line")];

    let emphasis = compute_hunk_inline_emphasis(&lines);

    assert!(emphasis[0].ranges.is_empty());
}

#[test]
fn lazy_inline_emphasis_matches_eager_emphasis() {
    let lines = vec![
        line(DiffLineKind::Deletion, Some(1), None, "let count = 1;"),
        line(DiffLineKind::Addition, None, Some(1), "let total = 2;"),
        line(DiffLineKind::Deletion, Some(2), None, "removed only"),
        line(DiffLineKind::Context, Some(3), Some(2), "context"),
        line(DiffLineKind::Addition, None, Some(3), "added only"),
        line(DiffLineKind::Deletion, Some(4), None, "alpha beta"),
        line(DiffLineKind::Deletion, Some(5), None, "gamma"),
        line(DiffLineKind::Addition, None, Some(4), "alpha zeta"),
        line(DiffLineKind::Addition, None, Some(5), "delta"),
    ];
    let expected = compute_hunk_inline_emphasis(&lines);
    let mut cache = InlineHunkEmphasisCache::new(&lines);

    for index in [7, 5, 2, 4, 0, 1, 8, 6, 3] {
        assert_eq!(
            cache.ranges_for_line(&lines, index),
            expected[index].ranges,
            "lazy emphasis should match eager emphasis for line {index}"
        );
        assert_eq!(
            cache.ranges_for_line(&lines, index),
            expected[index].ranges,
            "cached emphasis should be stable for line {index}"
        );
    }
}

#[test]
fn inline_diff_skips_expensive_long_line_pairs() {
    let lines = vec![
        DiffLine {
            kind: DiffLineKind::Deletion,
            old_line: Some(1),
            new_line: None,
            text: "a".repeat(MAX_INLINE_DIFF_LINE_BYTES + 1),
        },
        DiffLine {
            kind: DiffLineKind::Addition,
            old_line: None,
            new_line: Some(1),
            text: "b".repeat(MAX_INLINE_DIFF_LINE_BYTES + 1),
        },
    ];

    let emphasis = compute_hunk_inline_emphasis(&lines);

    assert!(emphasis[0].ranges.is_empty());
    assert!(emphasis[1].ranges.is_empty());
}

#[test]
fn identical_lines_have_no_changed_tokens() {
    let (old, new) = changed_token_ranges("same text", "same text");
    assert!(old.is_empty());
    assert!(new.is_empty());
}

#[test]
fn changed_tokens_merge_adjacent_ranges() {
    let (old, new) = changed_token_ranges("a+b", "a-c");
    assert_eq!(old, vec![InlineRange { byte_start: 1, byte_end: 3 }]);
    assert_eq!(new, vec![InlineRange { byte_start: 1, byte_end: 3 }]);
}

#[test]
fn tokens_group_words_and_whitespace_but_not_punctuation() {
    let tokens = inline_tokens("foo_bar  ++x");
    let spans: Vec<(usize, usize)> = tokens.iter().map(|t| (t.byte_start, t.byte_end)).collect();
    assert_eq!(spans, vec![(0, 7), (7, 9), (9, 10), (10, 11), (11, 12)]);
}

#[test]
fn non_ascii_tokens_use_byte_offsets() {
    let tokens = inline_tokens("é b");
    let spans: Vec<(usize, usize)> = tokens.iter().map(|t| (t.byte_start, t.byte_end)).collect();
    assert_eq!(spans, vec![(0, 2), (2, 3), (3, 4)]);
    assert_eq!(inline_char_class('é'), InlineCharClass::Word);
    assert_eq!(inline_char_class('\u{3000}'), InlineCharClass::Whitespace);
}

#[test]
fn lazy_cache_pairs_second_deletion_with_second_addition() {
    let lines = vec![
        line(DiffLineKind::Deletion, Some(1), None, "one"),
        line(DiffLineKind::Deletion, Some(2), None, "two x"),
        line(DiffLineKind::Addition, None, Some(1), "uno"),
        line(DiffLineKind::Addition, None, Some(2), "two y"),
    ];
    let mut cache = InlineHunkEmphasisCache::new(&lines);
    let ranges = cache.ranges_for_line(&lines, 3);
    assert_eq!(range_texts(&lines[3].text, &ranges), ["y"]);
    let ranges = cache.ranges_for_line(&lines, 1);
    assert_eq!(range_texts(&lines[1].text, &ranges), ["x"]);
    assert!(cache.ranges_for_line(&lines, 9).is_empty());
}

#[test]
fn byte_and_character_classes_agree_on_ascii() {
    for byte in 0u8..0x80 {
        assert_eq!(inline_ascii_class(byte), inline_char_class(byte as char), "byte {byte:#x}");
    }
    assert_eq!(inline_char_class('\u{0b}'), InlineCharClass::Whitespace);
    assert_eq!(inline_char_class('\u{85}'), InlineCharClass::Whitespace);
    assert_eq!(inline_char_class('\u{200b}'), InlineCharClass::Other);
}

#[test]
fn touching_changed_tokens_share_one_range() {
    let tokens = [
        InlineToken { byte_start: 0, byte_end: 2 },
        InlineToken { byte_start: 2, byte_end: 3 },
        InlineToken { byte_start: 3, byte_end: 5 },
        InlineToken { byte_start: 5, byte_end: 6 },
        InlineToken { byte_start: 6, byte_end: 9 },
    ];
    let changed = [true, true, false, true, true];
    assert_eq!(
        inline_ranges_from_tokens(&tokens, &changed),
        vec![InlineRange { byte_start: 0, byte_end: 3 }, InlineRange { byte_start: 5, byte_end: 9 }]
    );
    assert!(inline_ranges_from_tokens(&tokens, &[false; 5]).is_empty());
}
