use baryon::commands::SubstituteRange;
use baryon::coords::DocLine;
use baryon::search::{build_regex, find_all_matches, resolve_byte_range, substitute_text_deltas};

#[test]
fn matches_report_line_and_tab_aware_column() {
    let doc = b"fn a\n\tfoo foo\n";
    let re = build_regex("foo", false).expect("valid pattern");
    let matches = find_all_matches(doc, &re);
    assert_eq!(matches.len(), 2);
    assert_eq!((matches[0].line.get(), matches[0].col.get(), matches[0].byte_len), (1, 4, 3));
    assert_eq!((matches[1].line.get(), matches[1].col.get(), matches[1].byte_len), (1, 8, 3));
}

#[test]
fn case_insensitive_patterns_match_any_case() {
    let re = build_regex("FOO", true).expect("valid pattern");
    assert_eq!(find_all_matches(b"foo Foo", &re).len(), 2);
    let re = build_regex("FOO", false).expect("valid pattern");
    assert!(find_all_matches(b"foo Foo", &re).is_empty());
}

#[test]
fn invalid_patterns_report_an_error() {
    let err = build_regex("(", false).err().expect("invalid pattern");
    assert!(err.starts_with("Invalid regex: "));
}

#[test]
fn substitution_deltas_run_last_match_first_inside_the_range() {
    let doc = b"foo\nfoo\n";
    let re = build_regex("o", false).expect("valid pattern");
    let range = resolve_byte_range(SubstituteRange::SingleLine(DocLine::new(1)), doc, DocLine::new(0));
    assert_eq!(range, Some((4, 8)));
    let deltas = substitute_text_deltas(doc, &re, "0", range);
    let offsets: Vec<u64> = deltas.iter().map(|d| d.global_byte_offset.get()).collect();
    assert_eq!(offsets, vec![6, 5]);
    assert!(deltas.iter().all(|d| d.deleted_text == "o" && d.inserted_text == "0"));
    assert_eq!(resolve_byte_range(SubstituteRange::WholeFile, doc, DocLine::new(0)), None);
    assert_eq!(substitute_text_deltas(doc, &re, "0", None).len(), 4);
    assert_eq!(
        resolve_byte_range(SubstituteRange::LineRange(DocLine::new(0), DocLine::new(1)), doc, DocLine::new(0)),
        Some((0, 8))
    );
}
