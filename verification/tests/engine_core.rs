use baryon::coords::{DocByte, DocLine, StateId, VisualCol};
use baryon::edits::{delete_to_line_end_delta, document_rewrite_delta, linewise_put_insertion};
use baryon::highlight::{rebase_semantic_highlights_after_delta, HighlightSpan, TokenCategory};
use baryon::minimap::{build_search_minimap_bands, SearchMatch, MINIMAP_BANDS};
use baryon::lines::{
    first_non_whitespace_visual_col, line_end_visual_col, smart_home_visual_col,
    step_left_visual_col, step_right_visual_col,
};
use baryon::scroll::{clamp_cursor_line_to_viewport, pan_scroll_y_to_keep_cursor_visible, scroll_viewport};
use baryon::selection::{resolve_visual_ranges, VisualKind};
use baryon::undo::TextDelta;
use baryon::words::{next_word_end, next_word_start, prev_word_start};

#[test]
fn rewrite_delta_tracks_changed_middle_span() {
    let delta = document_rewrite_delta("fn main() {}\n", "fn demo() {}\n").expect("expected a delta");
    assert_eq!(delta.0, 3);
    assert_eq!(delta.1, "main");
    assert_eq!(delta.2, "demo");
}

#[test]
fn linewise_put_adds_newline_at_eof_without_trailing_break() {
    let (insert_offset, inserted_text, target_cursor_line) =
        linewise_put_insertion(b"alpha", DocLine::new(0), "beta");
    assert_eq!(insert_offset, 5);
    assert_eq!(inserted_text, "\nbeta");
    assert_eq!(target_cursor_line, DocLine::new(1));
}

#[test]
fn linewise_put_stays_on_first_line_for_empty_docs() {
    let (insert_offset, inserted_text, target_cursor_line) =
        linewise_put_insertion(b"", DocLine::new(0), "beta\n");
    assert_eq!(insert_offset, 0);
    assert_eq!(inserted_text, "beta\n");
    assert_eq!(target_cursor_line, DocLine::new(0));
}

#[test]
fn line_end_visual_col_expands_tabs() {
    assert_eq!(line_end_visual_col(b"\tfoo\n", DocLine::new(0)), VisualCol::new(7));
    assert_eq!(line_end_visual_col(b"\t\tlet x = 1;\n", DocLine::new(0)), VisualCol::new(18));
}

#[test]
fn first_non_whitespace_visual_col_is_tab_aware() {
    assert_eq!(first_non_whitespace_visual_col(b" \t\tfoo\n", DocLine::new(0)), VisualCol::new(8));
    assert_eq!(first_non_whitespace_visual_col(b"    \n", DocLine::new(0)), VisualCol::new(0));
}

#[test]
fn smart_home_toggles_between_indent_and_line_start() {
    let doc = b"\t  foo\n";
    assert_eq!(smart_home_visual_col(doc, DocLine::new(0), VisualCol::new(10)), VisualCol::new(6));
    assert_eq!(smart_home_visual_col(doc, DocLine::new(0), VisualCol::new(6)), VisualCol::new(0));
    assert_eq!(smart_home_visual_col(doc, DocLine::new(0), VisualCol::new(0)), VisualCol::new(6));
}

#[test]
fn resolve_visual_ranges_returns_disjoint_char_range() {
    assert_eq!(
        resolve_visual_ranges(DocByte::new(8), DocByte::new(3), VisualKind::Char, b"alpha beta\n"),
        vec![(DocByte::new(3), DocByte::new(8))]
    );
}

#[test]
fn resolve_visual_ranges_expands_line_mode_to_full_lines() {
    assert_eq!(
        resolve_visual_ranges(DocByte::new(4), DocByte::new(7), VisualKind::Line, b"aa\nbb\ncc\n"),
        vec![(DocByte::new(3), DocByte::new(8))]
    );
}

#[test]
fn resolve_visual_ranges_handles_line_mode_at_eof() {
    assert_eq!(
        resolve_visual_ranges(DocByte::new(6), DocByte::new(9), VisualKind::Line, b"alpha\nbeta"),
        vec![(DocByte::new(6), DocByte::new(9))]
    );
}

#[test]
fn resolve_visual_ranges_builds_block_matrix_across_lines() {
    assert_eq!(
        resolve_visual_ranges(
            DocByte::new(1),
            DocByte::new(12),
            VisualKind::Block,
            b"abcd\nefgh\nijkl\n",
        ),
        vec![
            (DocByte::new(1), DocByte::new(2)),
            (DocByte::new(6), DocByte::new(7)),
            (DocByte::new(11), DocByte::new(12)),
        ]
    );
}

#[test]
fn resolve_visual_ranges_clamps_and_skips_short_lines_in_block_mode() {
    assert_eq!(
        resolve_visual_ranges(
            DocByte::new(2),
            DocByte::new(17),
            VisualKind::Block,
            b"abcdef\nabc\nz\nabcdef\n",
        ),
        vec![
            (DocByte::new(2), DocByte::new(4)),
            (DocByte::new(9), DocByte::new(9)),
            (DocByte::new(15), DocByte::new(17)),
        ]
    );
}

#[test]
fn delete_to_line_end_delta_stops_before_newline() {
    let delta = delete_to_line_end_delta(b"alpha beta\nomega\n", DocLine::new(0), VisualCol::new(6))
        .expect("expected delete-to-eol delta");
    assert_eq!(delta.global_byte_offset, DocByte::new(6));
    assert_eq!(delta.deleted_text, "beta");
    assert_eq!(delta.inserted_text, "");
}

#[test]
fn step_right_visual_col_jumps_across_tabs() {
    assert_eq!(step_right_visual_col(b"\tfoo\n", DocLine::new(0), VisualCol::new(0)), VisualCol::new(4));
    assert_eq!(step_right_visual_col(b" \tfoo\n", DocLine::new(0), VisualCol::new(1)), VisualCol::new(4));
}

#[test]
fn step_left_visual_col_jumps_back_across_tabs() {
    assert_eq!(step_left_visual_col(b"\tfoo\n", DocLine::new(0), VisualCol::new(4)), VisualCol::new(0));
    assert_eq!(step_left_visual_col(b" \tfoo\n", DocLine::new(0), VisualCol::new(4)), VisualCol::new(1));
}

#[test]
fn next_word_start_handles_punctuation_boundaries() {
    let doc = "foo::bar baz";
    assert_eq!(next_word_start(doc, 0), 3);
    assert_eq!(next_word_start(doc, 3), 5);
    assert_eq!(next_word_start(doc, 5), 9);
}

#[test]
fn prev_word_start_respects_utf8_boundaries() {
    let doc = "éx yz";
    assert_eq!(prev_word_start(doc, 4), 0);
    assert_eq!(prev_word_start(doc, 2), 0);
}

#[test]
fn next_word_end_respects_utf8_boundaries() {
    let doc = "éx yz";
    assert_eq!(next_word_end(doc, 0), 2);
    assert_eq!(next_word_end(doc, 2), 5);
}

#[test]
fn pan_scroll_y_keeps_visible_cursor_stationary() {
    assert_eq!(pan_scroll_y_to_keep_cursor_visible(10, DocLine::new(20), 200, 50), 10);
}

#[test]
fn pan_scroll_y_moves_up_when_cursor_above_view() {
    assert_eq!(pan_scroll_y_to_keep_cursor_visible(30, DocLine::new(12), 200, 50), 12);
}

#[test]
fn pan_scroll_y_moves_down_when_cursor_below_view() {
    assert_eq!(pan_scroll_y_to_keep_cursor_visible(10, DocLine::new(65), 200, 20), 46);
}

#[test]
fn pan_scroll_y_keeps_cursor_on_last_visible_line_stationary() {
    assert_eq!(pan_scroll_y_to_keep_cursor_visible(10, DocLine::new(29), 200, 20), 10);
}

#[test]
fn scroll_viewport_clamps_to_document_bounds() {
    assert_eq!(scroll_viewport(0, -3, 99, 50), 0);
    assert_eq!(scroll_viewport(45, 10, 99, 50), 50);
}

#[test]
fn clamp_cursor_line_to_viewport_uses_visible_bounds() {
    assert_eq!(clamp_cursor_line_to_viewport(DocLine::new(7), 10, 99, 20), DocLine::new(10));
    assert_eq!(clamp_cursor_line_to_viewport(DocLine::new(40), 10, 99, 20), DocLine::new(29));
}

#[test]
fn semantic_cache_rebases_spans_after_backspace() {
    let mut semantic = vec![
        HighlightSpan::new(DocByte::new(0), DocByte::new(3), TokenCategory::Keyword),
        HighlightSpan::new(DocByte::new(10), DocByte::new(13), TokenCategory::Module),
    ];
    rebase_semantic_highlights_after_delta(
        &mut semantic,
        &TextDelta {
            global_byte_offset: DocByte::new(5),
            deleted_text: "x".to_string(),
            inserted_text: String::new(),
            state_before: StateId::new(0),
            state_after: StateId::new(0),
        },
    );
    assert_eq!(
        semantic,
        vec![
            HighlightSpan::new(DocByte::new(0), DocByte::new(3), TokenCategory::Keyword),
            HighlightSpan::new(DocByte::new(9), DocByte::new(12), TokenCategory::Module),
        ]
    );
}

#[test]
fn semantic_cache_drops_spans_crossing_the_edit_boundary() {
    let mut semantic = vec![
        HighlightSpan::new(DocByte::new(4), DocByte::new(7), TokenCategory::Variable),
        HighlightSpan::new(DocByte::new(10), DocByte::new(14), TokenCategory::Type),
    ];
    rebase_semantic_highlights_after_delta(
        &mut semantic,
        &TextDelta {
            global_byte_offset: DocByte::new(5),
            deleted_text: String::new(),
            inserted_text: "x".to_string(),
            state_before: StateId::new(0),
            state_after: StateId::new(0),
        },
    );
    assert_eq!(semantic, vec![HighlightSpan::new(DocByte::new(11), DocByte::new(15), TokenCategory::Type)]);
}

#[test]
fn search_minimap_bands_track_hits_and_active_match() {
    let matches = vec![
        SearchMatch { line: DocLine::new(10), col: VisualCol::new(0), byte_len: 3 },
        SearchMatch { line: DocLine::new(90), col: VisualCol::new(0), byte_len: 3 },
    ];
    let (bands, active) = build_search_minimap_bands(&matches, Some(1), 100);
    assert!(bands.iter().any(|&band| band > 0));
    assert_eq!(active, Some((90usize * MINIMAP_BANDS) / 100usize));
}

#[test]
fn block_selection_ranges_come_in_order_either_way_round() {
    let buffer = b"abcdef\nxy\n\tz\nlonger line\n";
    let forward = resolve_visual_ranges(DocByte::new(1), DocByte::new(16), VisualKind::Block, buffer);
    let backward = resolve_visual_ranges(DocByte::new(16), DocByte::new(1), VisualKind::Block, buffer);
    assert_eq!(forward, backward);
    assert!(!forward.is_empty());
    for (i, (s, e)) in forward.iter().enumerate() {
        assert!(s.get() <= e.get());
        assert!((e.get() as usize) < buffer.len());
        if i + 1 < forward.len() {
            assert!(e.get() < forward[i + 1].0.get());
        }
    }
}

fn removal(offset: u64, text: &str) -> TextDelta {
    TextDelta {
        global_byte_offset: DocByte::new(offset),
        deleted_text: text.to_string(),
        inserted_text: String::new(),
        state_before: StateId::new(0),
        state_after: StateId::new(0),
    }
}

#[test]
fn a_group_undoes_and_redoes_as_one_transaction() {
    let mut ledger = baryon::undo::UndoLedger::new();
    ledger.push_group(vec![removal(12, "kl"), removal(7, "gh"), removal(2, "cd")]);
    let after_edit = ledger.current_state_id();
    let (inverse, cursor) = ledger.undo().expect("one group to undo");
    assert_eq!(inverse.len(), 3);
    assert_eq!(inverse[0].global_byte_offset, DocByte::new(2));
    assert_eq!(inverse[0].inserted_text, "cd");
    assert_eq!(inverse[2].global_byte_offset, DocByte::new(12));
    assert_eq!(inverse[2].inserted_text, "kl");
    assert_eq!(cursor, DocByte::new(4));
    assert!(ledger.undo().is_none());
    let (forward, cursor) = ledger.redo().expect("one group to redo");
    assert_eq!(forward.len(), 3);
    assert_eq!(forward[0].global_byte_offset, DocByte::new(12));
    assert_eq!(forward[0].deleted_text, "kl");
    assert_eq!(forward[2].deleted_text, "cd");
    assert_eq!(cursor, DocByte::new(2));
    assert_eq!(ledger.current_state_id(), after_edit);
    let (again, _) = ledger.undo().expect("the group again");
    assert_eq!(again.len(), 3);
    assert_eq!(again[0].inserted_text, "cd");
}
