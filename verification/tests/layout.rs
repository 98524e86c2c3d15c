use baryon::coords::{DocLine, VisualCol};
use baryon::folding::{
    doc_line_for_visual_index, is_folded_visible_line, snap_line_to_visible_boundary,
    visual_line_index_for_doc_line, LineView, ViewUnit,
};
use baryon::layout::{
    clamp_cursor_to_viewport_anchor, collect_visible_rows, cursor_view_metrics,
    pan_viewport_anchor_to_keep_cursor_visible, scroll_viewport_anchor, ViewportAnchor, VisibleRow,
};

fn build_document(text: &str) -> LineView {
    LineView::from_text(text.as_bytes())
}

#[test]
fn collect_visible_rows_can_start_mid_wrapped_line() {
    let view = build_document("abcdefghij\nz\n");
    let rows = collect_visible_rows(
        &view,
        ViewportAnchor { line: DocLine::new(0), row_offset: 1 },
        view.total_newlines,
        4,
        true,
        4,
    );

    assert_eq!(
        rows,
        vec![
            VisibleRow { line: DocLine::new(0), start_col: VisualCol::new(4) },
            VisibleRow { line: DocLine::new(0), start_col: VisualCol::new(8) },
            VisibleRow { line: DocLine::new(1), start_col: VisualCol::new(0) },
            VisibleRow { line: DocLine::new(2), start_col: VisualCol::new(0) },
        ]
    );
}

#[test]
fn cursor_metrics_and_clamp_respect_wrapped_offsets() {
    let view = build_document("abcdefghij\nz\n");
    let total_lines = view.total_newlines;
    let anchor = ViewportAnchor { line: DocLine::new(0), row_offset: 1 };

    let (cursor_row, screen_col) =
        cursor_view_metrics(&view, anchor, DocLine::new(0), VisualCol::new(9), total_lines, true, 4);
    assert_eq!(cursor_row, 1);
    assert_eq!(screen_col, VisualCol::new(1));

    let clamped = clamp_cursor_to_viewport_anchor(
        &view,
        anchor,
        DocLine::new(0),
        VisualCol::new(0),
        total_lines,
        2,
        true,
        4,
    );
    assert_eq!(clamped, (DocLine::new(0), VisualCol::new(4)));

    let panned = pan_viewport_anchor_to_keep_cursor_visible(
        &view,
        ViewportAnchor { line: DocLine::new(0), row_offset: 0 },
        DocLine::new(0),
        VisualCol::new(9),
        total_lines,
        2,
        true,
        4,
    );
    assert_eq!(panned, ViewportAnchor { line: DocLine::new(0), row_offset: 1 });
}

fn folded_view() -> LineView {
    // Lines 0 and 1 open, lines 2..=4 folded behind one placeholder, lines 5 and 6 open.
    LineView {
        units: vec![
            ViewUnit { newlines: 2, folded: false, tail_line: Some(2) },
            ViewUnit { newlines: 3, folded: true, tail_line: None },
            ViewUnit { newlines: 1, folded: false, tail_line: Some(1) },
        ],
        total_newlines: 6,
        line_widths: vec![Some(3); 7],
    }
}

#[test]
fn folded_blocks_count_as_one_visual_line() {
    let view = folded_view();
    let index: Vec<u32> =
        (0..=6).map(|line| visual_line_index_for_doc_line(&view, DocLine::new(line))).collect();
    assert_eq!(index, vec![0, 1, 2, 2, 2, 3, 4]);
    assert_eq!(doc_line_for_visual_index(&view, 3, 6), DocLine::new(5));
    assert_eq!(snap_line_to_visible_boundary(&view, DocLine::new(4)), DocLine::new(2));
    assert!(is_folded_visible_line(&view, DocLine::new(2)));
    assert!(!is_folded_visible_line(&view, DocLine::new(1)));
}

#[test]
fn visible_rows_skip_folded_lines() {
    let view = folded_view();
    let rows = collect_visible_rows(
        &view,
        ViewportAnchor { line: DocLine::new(0), row_offset: 0 },
        6,
        10,
        false,
        80,
    );
    let lines: Vec<u32> = rows.iter().map(|row| row.line.get()).collect();
    assert_eq!(lines, vec![0, 1, 2, 5, 6]);
}

#[test]
fn scrolling_by_rows_crosses_wrapped_and_folded_lines() {
    let view = folded_view();
    let down = scroll_viewport_anchor(&view, ViewportAnchor { line: DocLine::new(0), row_offset: 0 }, 3, 6, false, 80);
    assert_eq!(down, ViewportAnchor { line: DocLine::new(5), row_offset: 0 });
    let up = scroll_viewport_anchor(&view, down, -2, 6, false, 80);
    assert_eq!(up, ViewportAnchor { line: DocLine::new(1), row_offset: 0 });
    let top = scroll_viewport_anchor(&view, up, -100, 6, false, 80);
    assert_eq!(top, ViewportAnchor { line: DocLine::new(0), row_offset: 0 });

    let wrapped = build_document("abcdefghij\nz\n");
    let down = scroll_viewport_anchor(&wrapped, ViewportAnchor { line: DocLine::new(0), row_offset: 0 }, 2, 2, true, 4);
    assert_eq!(down, ViewportAnchor { line: DocLine::new(0), row_offset: 2 });
    let down = scroll_viewport_anchor(&wrapped, down, 1, 2, true, 4);
    assert_eq!(down, ViewportAnchor { line: DocLine::new(1), row_offset: 0 });
    let end = scroll_viewport_anchor(&wrapped, down, 50, 2, true, 4);
    assert_eq!(end, ViewportAnchor { line: DocLine::new(2), row_offset: 0 });
}
