use baryon::ecs::{ingest_svp_file, SemanticKind, SpanMetrics, SvpPointer, UastRegistry};
use baryon::resolver::{
    complete_read, decode_dma_tag, encode_dma_tag, read_offset, DmaTag, RequestPriority,
};

#[test]
fn dma_tags_survive_the_round_trip() {
    let tag = DmaTag { node_index: 0xdead_beef, viewport: true, buffer_index: 15, last_index_plus_one: 0xab_cdef };
    let word = encode_dma_tag(tag);
    assert_eq!(word & 0xffff_ffff, 0xdead_beef);
    assert_eq!(decode_dma_tag(word), tag);
    let tag = DmaTag { node_index: 7, viewport: false, buffer_index: 0, last_index_plus_one: 0 };
    assert_eq!(encode_dma_tag(tag), 7);
    assert_eq!(decode_dma_tag(7), tag);
}

#[test]
fn read_offset_counts_blocks_and_head_trim() {
    let pointer = SvpPointer { lba: 3, byte_length: 100, device_id: 1, head_trim: 17 };
    assert_eq!(read_offset(pointer), 3 * 512 + 17);
}

fn two_level_tree() -> (UastRegistry, baryon::ecs::NodeId, baryon::ecs::NodeId) {
    let mut registry = UastRegistry::new(4);
    let mut chunk = registry.reserve_chunk(2).expect("OOM");
    let root = chunk.spawn_node(
        &mut registry,
        SemanticKind::RelationalTable,
        None,
        SpanMetrics { byte_length: 10, newlines: 1 },
    );
    let leaf = chunk.spawn_node(
        &mut registry,
        SemanticKind::Token,
        Some(SvpPointer { lba: 0, byte_length: 10, device_id: 1, head_trim: 0 }),
        SpanMetrics { byte_length: 10, newlines: 1 },
    );
    chunk.append_local_child(&mut registry, root, leaf);
    (registry, root, leaf)
}

#[test]
fn apply_edit_bumps_the_node_and_its_ancestors() {
    let (mut registry, root, leaf) = two_level_tree();
    registry.apply_edit(leaf, 5, 2);
    assert_eq!(registry.get_total_bytes(leaf), 15);
    assert_eq!(registry.get_total_newlines(leaf), 3);
    assert_eq!(registry.get_total_bytes(root), 15);
    assert_eq!(registry.get_total_newlines(root), 3);
    registry.apply_edit(leaf, -15, -3);
    assert_eq!(registry.get_total_bytes(root), 0);
    assert_eq!(registry.get_total_newlines(root), 0);
}

#[test]
fn completed_reads_inflate_once_and_keep_viewport_text() {
    let (mut registry, root, leaf) = two_level_tree();
    registry.dma_in_flight[leaf.index()] = true;
    let tag = DmaTag { node_index: leaf.index() as u32, viewport: true, buffer_index: 0, last_index_plus_one: 0 };
    let next = complete_read(&mut registry, tag, 4, b"a\nb\nzzzz");
    assert!(next.is_none());
    assert_eq!(registry.get_total_newlines(root), 3);
    assert_eq!(registry.virtual_data[leaf.index()].as_deref(), Some(&b"a\nb\n"[..]));
    assert!(!registry.dma_in_flight[leaf.index()]);
    assert!(registry.metrics_inflated[leaf.index()]);

    // A second completion for the same node does not count its lines again.
    complete_read(&mut registry, tag, 4, b"a\nb\n");
    assert_eq!(registry.get_total_newlines(root), 3);

    // A failed read only clears the in-flight flag.
    registry.dma_in_flight[leaf.index()] = true;
    assert!(complete_read(&mut registry, tag, -5, b"").is_none());
    assert!(!registry.dma_in_flight[leaf.index()]);
}

#[test]
fn completed_scan_reads_request_the_next_node() {
    let mut registry = UastRegistry::new(8);
    let root = ingest_svp_file(&mut registry, 3 * 65536, 2);
    let first = registry.get_first_child(root).expect("first leaf");
    let last_plus_one = first.index() as u32 + 3;
    let tag = DmaTag { node_index: first.index() as u32, viewport: false, buffer_index: 1, last_index_plus_one: last_plus_one };
    let next = complete_read(&mut registry, tag, 3, b"x\ny").expect("scan goes on");
    assert_eq!(next.node_id.index(), first.index() + 1);
    assert_eq!(next.priority, RequestPriority::Low);
    assert_eq!(next.last_node_id.map(|id| id.index()), Some(first.index() + 2));
    assert!(registry.virtual_data[first.index()].is_none());

    let tag = DmaTag { node_index: first.index() as u32 + 2, ..tag };
    assert!(complete_read(&mut registry, tag, 0, b"").is_none());
}

#[test]
fn ingested_leaves_record_full_chunks_and_the_remainder_last() {
    let mut registry = UastRegistry::new(8);
    let root = ingest_svp_file(&mut registry, 65536 + 100, 1);
    let first = registry.get_first_child(root).expect("first leaf");
    let second = registry.get_next_sibling(first).expect("second leaf");
    assert_eq!(registry.metrics[first.index()].byte_length, 65536);
    assert_eq!(registry.metrics[second.index()].byte_length, 100);
    assert!(registry.get_next_sibling(second).is_none());

    let mut registry = UastRegistry::new(8);
    let root = ingest_svp_file(&mut registry, 2 * 65536, 1);
    let first = registry.get_first_child(root).expect("first leaf");
    let second = registry.get_next_sibling(first).expect("second leaf");
    assert_eq!(registry.metrics[second.index()].byte_length, 0);
}
