use mark_tui::headers::{
    compact_delta_parts, context_expand_marker, context_hide_marker, delta_parts_width,
    file_delta_parts, fitted_prefixed_parts, DeltaKind,
};

#[test]
fn file_delta_always_shows_both_counts() {
    let parts = file_delta_parts(12, 0);
    assert_eq!(parts.len(), 2);
    assert_eq!(parts[0].text, "+12");
    assert_eq!(parts[0].kind, DeltaKind::Addition);
    assert_eq!(parts[1].text, "-0");
    assert_eq!(parts[1].kind, DeltaKind::Deletion);
    assert_eq!(delta_parts_width(&parts), 6);
}

#[test]
fn compact_delta_skips_zero_counts() {
    let parts = compact_delta_parts(0, 7);
    assert_eq!(parts.len(), 1);
    assert_eq!(parts[0].text, "-7");
    assert!(compact_delta_parts(0, 0).is_empty());
    assert_eq!(delta_parts_width(&compact_delta_parts(0, 0)), 0);
}

#[test]
fn prefix_and_body_share_the_width() {
    let fitted = fitted_prefixed_parts("src/main.rs", "fn main", 20);
    assert_eq!((fitted.prefix.as_str(), fitted.gap, fitted.body.as_str()), ("src/main.rs", true, "fn main"));
    let fitted = fitted_prefixed_parts("src/main.rs", "a long body text", 16);
    assert_eq!((fitted.prefix.as_str(), fitted.gap, fitted.body.as_str()), ("src/main.rs", true, "a..."));
    let fitted = fitted_prefixed_parts("src/main.rs", "body", 8);
    assert_eq!((fitted.prefix.as_str(), fitted.gap, fitted.body.as_str()), ("src/m...", false, ""));
    let fitted = fitted_prefixed_parts("abc", "body", 4);
    assert_eq!((fitted.prefix.as_str(), fitted.gap, fitted.body.as_str()), ("abc", false, ""));
    let fitted = fitted_prefixed_parts("", "body text", 6);
    assert_eq!((fitted.prefix.as_str(), fitted.gap, fitted.body.as_str()), ("", false, "bod..."));
}

#[test]
fn context_markers_point_away_from_the_hunk() {
    assert_eq!(context_expand_marker(0), "▴");
    assert_eq!(context_expand_marker(3), "▾");
    assert_eq!(context_hide_marker(0), "▾");
    assert_eq!(context_hide_marker(1), "▴");
}
