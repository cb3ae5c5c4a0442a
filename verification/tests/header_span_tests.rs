use mark_tui::header_spans::{header_spans, hunk_header_spans_with_delta, push_fitted_header_span_parts, HeaderSpanPart, HeaderStyles};
use mark_tui::headers::file_delta_parts;
use mark_tui::spans::StyledSpan;
use mark_tui::style::CellStyle;
use mark_tui::theme::Color;

fn style(color: Color) -> CellStyle {
    CellStyle { fg: Some(color), bg: None, bold: false }
}

fn styles() -> HeaderStyles {
    HeaderStyles {
        prefix: style(Color::Blue),
        body: style(Color::White),
        fill: style(Color::Black),
        addition: style(Color::Green),
        deletion: style(Color::Red),
    }
}

fn texts(spans: &[StyledSpan]) -> Vec<String> {
    spans.iter().map(|s| s.text.clone()).collect()
}

#[test]
fn file_headers_put_the_delta_at_the_right_end() {
    let spans = header_spans("M", "src/lib.rs", &file_delta_parts(3, 1), 20, styles());
    assert_eq!(texts(&spans), vec!["M", " ", "src/lib.rs", "   ", "+3", " ", "-1"]);
    assert_eq!(spans[4].style, style(Color::Green));
    assert_eq!(spans[6].style, style(Color::Red));
    assert_eq!(spans[3].style, style(Color::Black));
}

#[test]
fn narrow_file_headers_show_only_the_fitted_delta() {
    let spans = header_spans("M", "src/lib.rs", &file_delta_parts(3, 1), 4, styles());
    assert_eq!(texts(&spans), vec!["+3", " ", "-"]);
    let wide_delta = header_spans("M", "src/lib.rs", &file_delta_parts(3, 1), 5, styles());
    assert_eq!(texts(&wide_delta), vec!["+3", " ", "-1"]);
    assert!(header_spans("M", "x", &file_delta_parts(3, 1), 0, styles()).is_empty());
}

#[test]
fn hunk_headers_keep_prefix_parts_and_fit_the_body() {
    let parts = vec![HeaderSpanPart { text: "@@ -1,2 +1,3 @@".to_owned(), style: style(Color::Magenta) }];
    let spans = hunk_header_spans_with_delta(&parts, "fn main", &file_delta_parts(3, 1), 30, styles());
    assert_eq!(texts(&spans), vec!["@@ -1,2 +1,3 @@", " ", "fn main", "  ", "+3", " ", "-1"]);
    assert_eq!(spans[0].style, style(Color::Magenta));
}

#[test]
fn prefix_parts_too_wide_end_in_an_ellipsis() {
    let parts = vec![HeaderSpanPart { text: "@@ -1,2 +1,3 @@".to_owned(), style: style(Color::Magenta) }];
    let spans = hunk_header_spans_with_delta(&parts, "fn main", &[], 10, styles());
    assert_eq!(texts(&spans), vec!["@@ -1,2", "..."]);
    assert_eq!(spans[1].style, style(Color::Magenta));

    let mut out = Vec::new();
    let used = push_fitted_header_span_parts(&mut out, &parts, 2, true);
    assert_eq!(used, 2);
    assert_eq!(texts(&out), vec![".."]);

    let mut whole = Vec::new();
    assert_eq!(push_fitted_header_span_parts(&mut whole, &parts, 10, false), 10);
    assert_eq!(texts(&whole), vec!["@@ -1,2 +1"]);
}
