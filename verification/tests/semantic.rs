use baryon::coords::{StateId, DocByte};
use baryon::highlight::{HighlightSpan, TokenCategory};
use baryon::semantic::{map_hl_tag, Highlight, HlTag, SemanticAction, SemanticGate, SemanticResponse, SymbolKind};

fn hl(tag: HlTag, crate_root: bool, library: bool, mutable: bool) -> Highlight {
    Highlight { tag, crate_root, library, mutable }
}

#[test]
fn semantic_tags_map_to_categories() {
    assert_eq!(map_hl_tag(hl(HlTag::Symbol(SymbolKind::Module), false, true, false)), TokenCategory::Crate);
    assert_eq!(map_hl_tag(hl(HlTag::Symbol(SymbolKind::Module), false, false, false)), TokenCategory::Module);
    assert_eq!(map_hl_tag(hl(HlTag::Symbol(SymbolKind::Local), false, false, true)), TokenCategory::MutableVariable);
    assert_eq!(map_hl_tag(hl(HlTag::Symbol(SymbolKind::Local), false, false, false)), TokenCategory::Variable);
    assert_eq!(map_hl_tag(hl(HlTag::Symbol(SymbolKind::Function), true, false, true)), TokenCategory::Function);
    assert_eq!(map_hl_tag(hl(HlTag::BoolLiteral, false, false, false)), TokenCategory::Keyword);
    assert_eq!(map_hl_tag(hl(HlTag::EscapeSequence, false, false, false)), TokenCategory::String);
    assert_eq!(map_hl_tag(hl(HlTag::Symbol(SymbolKind::Other), false, false, false)), TokenCategory::Unclassified);
    assert_eq!(map_hl_tag(hl(HlTag::Untagged, false, false, false)), TokenCategory::Unclassified);
}

#[test]
fn semantic_requests_go_out_once_per_change_and_answers_must_match() {
    let mut gate = SemanticGate::new();
    let path = Some("src/main.rs".to_string());
    let doc: &[u8] = b"fn main() {}\n";
    let id = match gate.frame(&path, true, Some(doc), StateId::new(0)) {
        SemanticAction::Send(req) => {
            assert_eq!(req.content, "fn main() {}\n");
            assert_eq!(req.file_path, "src/main.rs");
            assert_eq!(req.global_offset, DocByte::new(0));
            assert_eq!(req.request_id.get(), 1);
            req.request_id
        }
        _ => panic!("a request should go out"),
    };
    assert!(matches!(gate.frame(&path, true, Some(doc), StateId::new(0)), SemanticAction::Keep));

    let stale = SemanticResponse { state_id: StateId::new(7), request_id: id, highlights: Vec::new(), diagnostics: Vec::new() };
    assert!(gate.accept(stale, StateId::new(0)).is_none());
    let span = HighlightSpan { start: DocByte::new(3), end: DocByte::new(7), category: TokenCategory::Function };
    let answer = SemanticResponse { state_id: StateId::new(0), request_id: id, highlights: vec![span], diagnostics: Vec::new() };
    assert_eq!(gate.accept(answer, StateId::new(0)).map(|h| h.len()), Some(1));
    assert_eq!(gate.pending, None);

    match gate.frame(&path, true, Some(b"fn main() { }\n"), StateId::new(1)) {
        SemanticAction::Send(req) => assert_eq!(req.request_id.get(), 2),
        _ => panic!("an edit should send a new request"),
    }
}

#[test]
fn semantic_highlights_are_dropped_outside_rust_files_and_for_empty_documents() {
    let mut gate = SemanticGate::new();
    assert!(matches!(gate.frame(&Some("notes.txt".to_string()), true, Some(b"x"), StateId::new(0)), SemanticAction::Clear));
    assert_eq!(gate.last_state, None);
    assert!(matches!(gate.frame(&Some("a.rs".to_string()), true, Some(b""), StateId::new(0)), SemanticAction::Clear));
    assert_eq!(gate.last_len, 0);
    assert!(matches!(gate.frame(&None, true, None, StateId::new(0)), SemanticAction::Clear));
    assert!(matches!(gate.frame(&Some("a.rs".to_string()), true, None, StateId::new(0)), SemanticAction::Keep));
}
