use baryon::coords::DocByte;
use baryon::diagnostics::{normalize_diagnostic_range, DiagnosticProjector, DiagnosticSeverity, DiagnosticSpan};
use baryon::highlight::TokenCategory;
use baryon::pipeline::{classify_token, find_safe_parse_boundaries, parse_fragment, SvpPipeline, ViewportChunk, ViewportTree};
use ra_ap_syntax::SyntaxKind;

#[test]
fn process_viewport_keeps_leading_import_block_colored() {
    let highlights =
        SvpPipeline::process_viewport(DocByte::new(0), b"use std::io;\nuse std::fs;\n\nfn main() {}\n");
    assert!(highlights.iter().any(|span| {
        span.category == TokenCategory::Keyword && span.start == DocByte::new(0) && span.end == DocByte::new(3)
    }));
    assert!(highlights.iter().any(|span| span.category == TokenCategory::Keyword && span.start.get() > 20));
}

#[test]
fn diagnostic_projector_returns_highest_overlapping_severity() {
    let projector = DiagnosticProjector::new(vec![
        DiagnosticSpan::new(DocByte::new(0), DocByte::new(4), DiagnosticSeverity::WeakWarning),
        DiagnosticSpan::new(DocByte::new(2), DocByte::new(6), DiagnosticSeverity::Error),
    ]);
    assert_eq!(projector.severity_for_range(DocByte::new(3), DocByte::new(4)), Some(DiagnosticSeverity::Error));
    assert_eq!(
        projector.severity_for_range(DocByte::new(0), DocByte::new(1)),
        Some(DiagnosticSeverity::WeakWarning)
    );
    assert_eq!(projector.severity_for_range(DocByte::new(7), DocByte::new(8)), None);
}

#[test]
fn empty_diagnostic_ranges_expand_to_a_visible_span() {
    assert_eq!(normalize_diagnostic_range("abc", 3, 3), Some((2, 3)));
    assert_eq!(normalize_diagnostic_range("abc", 1, 1), Some((1, 2)));
    assert_eq!(normalize_diagnostic_range("", 0, 0), None);
}

#[test]
fn test_valid_boundaries() {
    let buf = b"skip\n\nvalid code\n\nmore skip";
    let bounds = find_safe_parse_boundaries(buf).unwrap();
    assert_eq!(bounds, (6, 27));
    assert_eq!(&buf[bounds.0..bounds.1], b"valid code\n\nmore skip");
}

#[test]
fn test_invalid_utf8() {
    let mut buf = b"skip\n\nvalid code\n\nmore skip".to_vec();
    buf[8] = 0xFF;
    let bounds = find_safe_parse_boundaries(&buf);
    assert_eq!(bounds, Some((6, 8)));
}

#[test]
fn test_no_boundaries() {
    let buf = b"skip\nvalid code\nmore skip";
    let bounds = find_safe_parse_boundaries(buf);
    assert_eq!(bounds, Some((0, 25)));
}

#[test]
fn test_single_boundary() {
    let buf = b"skip\n\nvalid code\nmore skip";
    let bounds = find_safe_parse_boundaries(buf);
    assert_eq!(bounds, Some((6, 26)));
}

#[test]
fn test_local_to_global_projection() {
    let chunk = ViewportChunk { global_offset: DocByte::new(0), buffer: b"fn test() {}".to_vec() };
    let parsed = parse_fragment(&chunk, (0, 12));
    assert!(!parsed.elements.is_empty());

    let tree = ViewportTree { global_chunk_offset: 1_000_000_000, fragment_start: 500, elements: parsed.elements };
    let (global_start, global_end) = tree.local_to_global((10, 20));

    assert_eq!(global_start, 1_000_000_510);
    assert_eq!(global_end, 1_000_000_520);
}

#[test]
fn ident_tokens_have_a_lexical_fallback_category() {
    assert_eq!(classify_token(u16::from(SyntaxKind::IDENT)), TokenCategory::Variable);
}

#[test]
fn keyword_and_literal_tokens_are_classified() {
    assert_eq!(classify_token(u16::from(SyntaxKind::FN_KW)), TokenCategory::Keyword);
    assert_eq!(classify_token(u16::from(SyntaxKind::STRING)), TokenCategory::String);
    assert_eq!(classify_token(u16::from(SyntaxKind::WHITESPACE)), TokenCategory::Unclassified);
}

#[test]
fn a_long_diagnostic_counts_even_behind_a_short_one() {
    let projector = DiagnosticProjector::new(vec![
        DiagnosticSpan::new(DocByte::new(0), DocByte::new(100), DiagnosticSeverity::Error),
        DiagnosticSpan::new(DocByte::new(5), DocByte::new(6), DiagnosticSeverity::Warning),
    ]);
    assert_eq!(
        projector.severity_for_range(DocByte::new(50), DocByte::new(60)),
        Some(DiagnosticSeverity::Error)
    );
    assert_eq!(
        projector.severity_for_range(DocByte::new(5), DocByte::new(6)),
        Some(DiagnosticSeverity::Error)
    );
    assert_eq!(projector.severity_for_range(DocByte::new(100), DocByte::new(120)), None);
    assert_eq!(projector.severity_for_range(DocByte::new(60), DocByte::new(50)), None);
}

#[test]
fn whitespace_kind_code_matches_the_parser() {
    assert_eq!(u16::from(SyntaxKind::WHITESPACE), baryon::word_object::WHITESPACE);
    assert_eq!(u16::from(SyntaxKind::IDENT), baryon::pipeline::IDENT);
}

#[test]
fn deeply_nested_text_is_not_handed_to_the_parser() {
    let mut text = String::from("fn f(){");
    for _ in 0..100_000 {
        text.push('(');
    }
    let highlights = SvpPipeline::process_viewport(DocByte::new(0), text.as_bytes());
    assert!(highlights.is_empty());
}

#[test]
fn long_identifiers_and_blanks_do_not_weigh_on_the_parser() {
    let mut text = String::from("fn ");
    text.push_str(&"a".repeat(5000));
    text.push_str("() {}\n");
    text.push_str(&" ".repeat(5000));
    let highlights = SvpPipeline::process_viewport(DocByte::new(0), text.as_bytes());
    assert!(highlights
        .iter()
        .any(|span| span.category == TokenCategory::Keyword && span.start == DocByte::new(0) && span.end == DocByte::new(2)));
}
