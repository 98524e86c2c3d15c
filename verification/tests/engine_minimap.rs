use baryon::coords::{DocByte, DocLine, VisualCol};
use baryon::highlight::{HighlightSpan, TokenCategory};
use baryon::minimap::{
    build_preview_row, build_search_minimap_bands, build_text_minimap_snapshot, MinimapOverlay,
    MinimapSnapshot, SearchMatch, EMPTY_PREVIEW_BIN, MAX_PREVIEW_MINIMAP_LINES, MINIMAP_BANDS,
    PREVIEW_BIN_COLUMNS,
};

#[test]
fn search_bands_mark_active_result() {
    let matches = vec![
        SearchMatch { line: DocLine::new(10), col: VisualCol::new(0), byte_len: 1 },
        SearchMatch { line: DocLine::new(90), col: VisualCol::new(0), byte_len: 1 },
    ];
    let (bands, active) = build_search_minimap_bands(&matches, Some(1), 100);
    assert!(bands.iter().any(|&band| band > 0));
    assert_eq!(active, Some((90usize * MINIMAP_BANDS) / 100usize));
}

#[test]
fn small_rust_documents_use_preview_snapshot() {
    let overlay = MinimapOverlay::new(DocLine::new(0), 20, DocLine::new(0));
    let snapshot = build_text_minimap_snapshot(b"fn main() {\n\tlet value = 1;\n}\n", &[], overlay);

    let MinimapSnapshot::Preview(preview) = snapshot else {
        panic!("expected preview minimap");
    };
    assert_eq!(preview.rows.len(), 4);
    assert!(preview.max_columns >= 10);
    assert!(preview.rows[0].bins.iter().any(|&bin| bin == TokenCategory::Keyword as u8));
    assert!(preview.rows[1].bins.iter().any(|&bin| bin != EMPTY_PREVIEW_BIN));
}

#[test]
fn large_documents_fall_back_to_overview_snapshot() {
    let mut bytes = Vec::new();
    for _ in 0..=MAX_PREVIEW_MINIMAP_LINES {
        bytes.extend_from_slice(b"line\n");
    }

    let overlay = MinimapOverlay::new(DocLine::new(0), 20, DocLine::new(0));
    let snapshot = build_text_minimap_snapshot(&bytes, &[], overlay);

    assert!(matches!(snapshot, MinimapSnapshot::Overview(_)));
}

#[test]
fn preview_rows_use_fixed_bin_budget() {
    let overlay = MinimapOverlay::new(DocLine::new(0), 20, DocLine::new(0));
    let snapshot = build_text_minimap_snapshot(b"abc\n", &[], overlay);
    let MinimapSnapshot::Preview(preview) = snapshot else {
        panic!("expected preview minimap");
    };

    assert_eq!(preview.rows[0].bins.len(), PREVIEW_BIN_COLUMNS);
}

#[test]
fn preview_row_paints_tabs_as_gaps_and_chars_by_category() {
    let highlights = [HighlightSpan::new(DocByte::new(10), DocByte::new(12), TokenCategory::Keyword)];
    let row = build_preview_row(b"\tab  \r", 10, &highlights);
    assert_eq!(row.logical_width, 6);
    assert_eq!(row.bins.len(), PREVIEW_BIN_COLUMNS);
    // Columns 0..4 are the tab: untouched.
    assert!(row.bins[..128].iter().all(|&b| b == EMPTY_PREVIEW_BIN));
    // Column 4 is `a` at byte 11 (keyword), column 5 is `b` at byte 12 (unclassified).
    assert!(row.bins[128..160].iter().all(|&b| b == TokenCategory::Keyword as u8));
    assert!(row.bins[160..].iter().all(|&b| b == TokenCategory::Unclassified as u8));
}

#[test]
fn preview_snapshot_counts_a_row_per_line_and_overlay_lines() {
    let overlay = MinimapOverlay::new(DocLine::new(0), 20, DocLine::new(0));
    let snapshot = build_text_minimap_snapshot(b"", &[], overlay);
    let MinimapSnapshot::Preview(preview) = snapshot else {
        panic!("expected preview minimap");
    };
    assert_eq!(preview.rows.len(), 1);
    assert_eq!(preview.max_columns, 1);
    assert_eq!(preview.overlay.total_lines, 1);
    assert!(preview.rows[0].bins.iter().all(|&b| b == EMPTY_PREVIEW_BIN));

    let overlay = MinimapOverlay::new(DocLine::new(0), 20, DocLine::new(0));
    let snapshot = build_text_minimap_snapshot(b"a\nbb\nccc", &[], overlay);
    let MinimapSnapshot::Preview(preview) = snapshot else {
        panic!("expected preview minimap");
    };
    assert_eq!(preview.rows.len(), 3);
    assert_eq!(preview.max_columns, 3);
    assert_eq!(preview.overlay.total_lines, 3);
}
