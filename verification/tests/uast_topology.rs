use baryon::ecs::{NodeId, TreeEdges};

#[test]
fn test_tree_edges_size() {
    assert_eq!(std::mem::size_of::<TreeEdges>(), 12);
}

#[test]
fn test_option_node_id_size() {
    assert_eq!(std::mem::size_of::<Option<NodeId>>(), 4);
}

#[test]
fn node_ids_round_trip_through_their_index() {
    for i in [0usize, 1, 7, 65_535] {
        let n = NodeId::from_index(i);
        assert_eq!(n.index(), i);
        assert_eq!(NodeId::from_index(n.index()).index(), i);
    }
}
