use baryon::coords::{DocByte, DocLine};
use baryon::ecs::{NodeId, SemanticKind, SpanMetrics, UastRegistry};

fn newlines(bytes: &[u8]) -> u32 {
    bytes.iter().filter(|&&b| b == b'\n').count() as u32
}

fn build_document_with_leaves(chunks: &[&[u8]]) -> (UastRegistry, NodeId) {
    let total: Vec<u8> = chunks.concat();
    let mut registry = UastRegistry::new(chunks.len() as u32 + 5);
    let mut chunk = registry.reserve_chunk(chunks.len() as u32 + 1).expect("OOM");
    let root = chunk.spawn_node(
        &mut registry,
        SemanticKind::RelationalTable,
        None,
        SpanMetrics { byte_length: total.len() as u32, newlines: newlines(&total) },
    );
    for part in chunks {
        let leaf = chunk.spawn_node(
            &mut registry,
            SemanticKind::Token,
            None,
            SpanMetrics { byte_length: part.len() as u32, newlines: newlines(part) },
        );
        chunk.append_local_child(&mut registry, root, leaf);
        registry.hot_swap_virtual_data(leaf, part.to_vec());
    }
    (registry, root)
}

fn build_foldable_document() -> (UastRegistry, NodeId, NodeId) {
    let mut registry = UastRegistry::new(8);
    let mut chunk = registry.reserve_chunk(6).expect("OOM");
    let mut spawn = |registry: &mut UastRegistry, kind, byte_length, newlines| {
        chunk.spawn_node(registry, kind, None, SpanMetrics { byte_length, newlines })
    };
    let root = spawn(&mut registry, SemanticKind::RelationalTable, 17, 3);
    let head = spawn(&mut registry, SemanticKind::Token, 5, 1);
    let folded = spawn(&mut registry, SemanticKind::RelationalTable, 8, 2);
    let folded_a = spawn(&mut registry, SemanticKind::Token, 4, 1);
    let folded_b = spawn(&mut registry, SemanticKind::Token, 4, 1);
    let tail = spawn(&mut registry, SemanticKind::Token, 4, 0);
    chunk.append_local_child(&mut registry, root, head);
    chunk.append_local_child(&mut registry, root, folded);
    chunk.append_local_child(&mut registry, root, tail);
    chunk.append_local_child(&mut registry, folded, folded_a);
    chunk.append_local_child(&mut registry, folded, folded_b);
    registry.hot_swap_virtual_data(head, b"head\n".to_vec());
    registry.hot_swap_virtual_data(folded_a, b"one\n".to_vec());
    registry.hot_swap_virtual_data(folded_b, b"two\n".to_vec());
    registry.hot_swap_virtual_data(tail, b"tail".to_vec());
    (registry, root, folded)
}

#[test]
fn query_viewport_starts_with_next_leaf_after_trailing_newline_boundary() {
    let (registry, root) = build_document_with_leaves(&[b"head\n", b"tail"]);
    let second = registry.get_next_sibling(registry.get_first_child(root).unwrap()).unwrap();

    let tokens = registry.query_viewport(root, DocLine::new(1), 1);

    assert_eq!(tokens.len(), 1);
    assert_eq!(tokens[0].node_id.index(), second.index());
    assert_eq!(tokens[0].text, b"tail".to_vec());
}

#[test]
fn query_viewport_preserves_invalid_utf8_bytes_when_skipping_lines() {
    let (registry, root) = build_document_with_leaves(&[b"aa\n\xffbb\ncc"]);
    let tokens = registry.query_viewport(root, DocLine::new(1), 2);

    assert_eq!(tokens.len(), 1);
    assert_eq!(tokens[0].absolute_start_byte, DocByte::new(3));
    assert_eq!(tokens[0].text, b"\xffbb\ncc".to_vec());
}

#[test]
fn query_viewport_emits_fold_placeholder_and_skips_descendants() {
    let (mut registry, root, folded) = build_foldable_document();
    registry.set_folded(folded, true);

    let tokens = registry.query_viewport(root, DocLine::new(0), 4);

    assert_eq!(tokens.len(), 3);
    assert_eq!(tokens[0].text, b"head\n".to_vec());
    assert!(tokens[1].is_folded);
    assert_eq!(tokens[1].node_id.index(), folded.index());
    assert_eq!(tokens[1].text, "❯❯❯".as_bytes().to_vec());
    assert_eq!(tokens[1].absolute_start_line, DocLine::new(1));
    assert_eq!(tokens[1].absolute_start_byte, DocByte::new(5));
    assert_eq!(tokens[1].physical_byte_len, 8);
    assert_eq!(tokens[2].text, b"tail".to_vec());
    assert_eq!(tokens[2].absolute_start_line, DocLine::new(3));
    assert_eq!(tokens[2].absolute_start_byte, DocByte::new(13));
}

#[test]
fn query_viewport_starts_on_fold_placeholder_when_target_line_is_hidden() {
    let (mut registry, root, folded) = build_foldable_document();
    registry.set_folded(folded, true);

    let tokens = registry.query_viewport(root, DocLine::new(2), 2);

    assert_eq!(tokens.len(), 2);
    assert_eq!(tokens[0].node_id.index(), folded.index());
    assert!(tokens[0].is_folded);
    assert_eq!(tokens[0].absolute_start_line, DocLine::new(1));
    assert_eq!(tokens[1].text, b"tail".to_vec());
}

#[test]
fn unfolded_documents_show_every_leaf_from_the_target_line() {
    let (registry, root, _) = build_foldable_document();
    let tokens = registry.query_viewport(root, DocLine::new(1), 10);
    let texts: Vec<Vec<u8>> = tokens.iter().map(|t| t.text.clone()).collect();
    assert_eq!(texts, vec![b"one\n".to_vec(), b"two\n".to_vec(), b"tail".to_vec()]);
    assert_eq!(tokens[0].absolute_start_byte, DocByte::new(5));
    // A zero line count still shows one line.
    let one = registry.query_viewport(root, DocLine::new(0), 0);
    assert_eq!(one.len(), 1);
}
