use mark_tui::annotations::AnnotationDraft;
use mark_tui::viewport::{
    annotation_saved_model_at_top_border, compose_block_bottom_viewport_row,
    compose_block_top_viewport_row, model_row_for_viewport_row, plan_diff_viewport_rows,
    saved_block_bottom_viewport_row, saved_block_top_viewport_row, visual_scroll_for_viewport_row,
    ViewportDraft, ViewportRow, ViewportSlotKind, ViewportState,
};

fn row(wrap_height: usize) -> ViewportRow {
    ViewportRow { wrap_height, annotation_key: None, saved_text: None }
}

fn state(wrapping: bool) -> ViewportState {
    let mut rows = vec![row(1), row(2), row(1), row(1)];
    rows[1].annotation_key = Some(7);
    rows[1].saved_text = Some("note".to_owned());
    ViewportState {
        rows,
        scroll: 0,
        scroll_start: Some((0, 0)),
        viewport_width: 20,
        viewport_rows: 8,
        line_wrapping: wrapping,
        draft: None,
        cursor_mark: "|".to_owned(),
    }
}

fn kinds(s: &ViewportState, visible: usize) -> Vec<ViewportSlotKind> {
    plan_diff_viewport_rows(s, visible).iter().map(|slot| slot.kind).collect()
}

#[test]
fn unwrapped_plan_puts_saved_blocks_under_their_rows() {
    let s = state(false);
    assert_eq!(
        kinds(&s, 6),
        vec![
            ViewportSlotKind::DiffVisual { visual_scroll: 0, model_row: 0 },
            ViewportSlotKind::DiffVisual { visual_scroll: 1, model_row: 1 },
            ViewportSlotKind::AnnotationSaved { model_row: 1 },
            ViewportSlotKind::AnnotationSaved { model_row: 1 },
            ViewportSlotKind::AnnotationSaved { model_row: 1 },
            ViewportSlotKind::DiffVisual { visual_scroll: 2, model_row: 2 },
        ]
    );
    assert_eq!(kinds(&s, 2).len(), 2);
}

#[test]
fn wrapped_plan_numbers_visual_rows() {
    let mut s = state(true);
    s.scroll = 1;
    s.scroll_start = Some((1, 0));
    assert_eq!(
        kinds(&s, 4),
        vec![
            ViewportSlotKind::DiffVisual { visual_scroll: 1, model_row: 1 },
            ViewportSlotKind::DiffVisual { visual_scroll: 2, model_row: 1 },
            ViewportSlotKind::AnnotationSaved { model_row: 1 },
            ViewportSlotKind::AnnotationSaved { model_row: 1 },
        ]
    );
    s.scroll_start = None;
    assert!(kinds(&s, 4).is_empty());
}

#[test]
fn draft_block_replaces_saved_block_of_its_key() {
    let mut s = state(false);
    s.draft = Some(ViewportDraft {
        model_row_index: 1,
        key: 7,
        draft: AnnotationDraft { input: "hi".to_owned(), cursor: 2 },
    });
    assert_eq!(compose_block_top_viewport_row(&s, 1), Some(2));
    assert_eq!(compose_block_bottom_viewport_row(&s, 1), Some(4));
    assert_eq!(saved_block_top_viewport_row(&s, 1), None);
    assert_eq!(model_row_for_viewport_row(&s, 3), Some(1));
    assert_eq!(visual_scroll_for_viewport_row(&s, 3), None);
}

#[test]
fn saved_block_rows_are_found() {
    let s = state(false);
    assert_eq!(saved_block_top_viewport_row(&s, 1), Some(2));
    assert_eq!(saved_block_bottom_viewport_row(&s, 1), Some(4));
    assert_eq!(annotation_saved_model_at_top_border(&s, 2), Some(1));
    assert_eq!(annotation_saved_model_at_top_border(&s, 3), None);
    assert_eq!(visual_scroll_for_viewport_row(&s, 5), Some(2));
    assert_eq!(model_row_for_viewport_row(&s, 40), None);
}
