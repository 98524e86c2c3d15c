use baryon::coords::DocLine;
use baryon::fold_ranges::{
    find_indentation_fold_range, first_significant_byte_on_line, fold_anchor_offset,
    is_blank_line, is_scope_closer_line, preceding_attribute_block_start_line,
    trim_horizontal_whitespace,
};

#[test]
fn trimming_drops_spaces_tabs_and_carriage_returns_at_both_ends() {
    assert_eq!(trim_horizontal_whitespace(b" \t x y \r"), b"x y");
    assert_eq!(trim_horizontal_whitespace(b" \t\r "), b"");
    assert_eq!(trim_horizontal_whitespace(b"abc"), b"abc");
}

#[test]
fn blank_and_closer_lines_are_recognised() {
    let doc = b"fn f() {\n  \t\r\n    x;\n  });\n";
    assert!(!is_blank_line(doc, DocLine::new(0)));
    assert!(is_blank_line(doc, DocLine::new(1)));
    assert!(!is_scope_closer_line(doc, DocLine::new(1)));
    assert!(!is_scope_closer_line(doc, DocLine::new(2)));
    assert!(is_scope_closer_line(doc, DocLine::new(3)));
    // The empty line after the final newline is blank.
    assert!(is_blank_line(doc, DocLine::new(4)));
}

#[test]
fn first_significant_byte_is_a_document_offset() {
    let doc = b"a\n   bc\n \t\n";
    assert_eq!(first_significant_byte_on_line(doc, DocLine::new(0)), Some(0));
    assert_eq!(first_significant_byte_on_line(doc, DocLine::new(1)), Some(5));
    assert_eq!(first_significant_byte_on_line(doc, DocLine::new(2)), None);
}

#[test]
fn fold_anchor_moves_off_closers_and_blank_lines() {
    let doc = b"fn f() {\n    body();\n}\n";
    // On a code line the anchor is the cursor itself.
    assert_eq!(fold_anchor_offset(doc, 12), 12);
    // On the closing brace it moves to the first significant byte above.
    assert_eq!(fold_anchor_offset(doc, 21), 13);
    // Past the end the cursor is clamped to the last byte first.
    assert_eq!(fold_anchor_offset(doc, 100), 13);
    assert_eq!(fold_anchor_offset(b"", 5), 0);
}

#[test]
fn attribute_block_above_an_item_is_included() {
    let doc = b"#[derive(X)]\n#[a(\n b)]\nfn f() {\n}\n";
    assert_eq!(preceding_attribute_block_start_line(doc, DocLine::new(3)), DocLine::new(0));
    // A plain line above stops the search.
    let doc = b"let x = 1;\nfn f() {\n}\n";
    assert_eq!(preceding_attribute_block_start_line(doc, DocLine::new(1)), DocLine::new(1));
    // A blank line separates the item from what is above it.
    let doc = b"#[test]\n\nfn f() {\n}\n";
    assert_eq!(preceding_attribute_block_start_line(doc, DocLine::new(2)), DocLine::new(2));
    assert_eq!(preceding_attribute_block_start_line(doc, DocLine::new(0)), DocLine::new(0));
}

#[test]
fn indentation_fold_spans_the_nested_block() {
    let doc = b"a:\n    b\n\n    c\nd\n";
    assert_eq!(find_indentation_fold_range(doc, DocLine::new(0)), Some((0, 16)));
    // From a blank line the search starts at the nearest line above.
    assert_eq!(find_indentation_fold_range(doc, DocLine::new(2)), None);
    // A line with nothing nested under it has no fold.
    assert_eq!(find_indentation_fold_range(doc, DocLine::new(4)), None);
    assert_eq!(find_indentation_fold_range(b"", DocLine::new(0)), None);
}
