use log_viewer::graph::build_graph;

#[test]
fn three_element_chain() {
    let g = build_graph("audiotestsrc ! queue ! autoaudiosink");
    let ids = g.node_ids();
    assert_eq!(ids, vec!["audiotestsrc", "queue", "autoaudiosink"]);
    assert_eq!(g.edge_count(), 2);
    assert_eq!(g.edge_at(0), (0, 1));
    assert_eq!(g.edge_at(1), (1, 2));
}

#[test]
fn empty_description_yields_empty_graph() {
    let g = build_graph("");
    assert_eq!(g.node_count(), 0);
    assert_eq!(g.edge_count(), 0);
}

#[test]
fn single_element_has_no_edges() {
    let g = build_graph("videotestsrc");
    assert_eq!(g.node_ids(), vec!["videotestsrc"]);
    assert_eq!(g.edge_count(), 0);
}

#[test]
fn segment_count_matches_node_count() {
    let desc = "a ! b ! c ! d ! e";
    let g = build_graph(desc);
    let segments = desc.split('!').count();
    assert_eq!(g.node_count(), segments);
    assert_eq!(g.edge_count(), segments - 1);
    for i in 0..g.edge_count() {
        assert_eq!(g.edge_at(i), (i, i + 1));
    }
}

#[test]
fn inline_properties_are_discarded() {
    let g = build_graph("videotestsrc pattern=ball ! autovideosink");
    assert_eq!(g.node_ids(), vec!["videotestsrc", "autovideosink"]);
}

#[test]
fn leading_name_alias_recovers_name() {
    // a first token containing `=` names the element by what follows it
    let g = build_graph("name=mysrc ! queue");
    assert_eq!(g.node_ids(), vec!["mysrc", "queue"]);
}

#[test]
fn surrounding_whitespace_is_trimmed() {
    let g = build_graph("  audiotestsrc   !\tqueue  ");
    assert_eq!(g.node_ids(), vec!["audiotestsrc", "queue"]);
}

#[test]
fn colliding_names_get_distinct_nodes() {
    let g = build_graph("queue ! queue ! queue");
    assert_eq!(g.node_ids(), vec!["queue", "queue", "queue"]);
    assert_eq!(g.node_count(), 3);
    assert_eq!(g.edge_count(), 2);
}

#[test]
fn rebuilding_is_structurally_identical() {
    let desc = "audiotestsrc ! volume volume=0.5 ! autoaudiosink";
    let g1 = build_graph(desc);
    let g2 = build_graph(desc);
    assert_eq!(g1.node_ids(), g2.node_ids());
    assert_eq!(g1.edge_count(), g2.edge_count());
    for i in 0..g1.edge_count() {
        assert_eq!(g1.edge_at(i), g2.edge_at(i));
    }
}

#[test]
fn whitespace_only_segment_yields_empty_name() {
    let g = build_graph("a !  ! b");
    assert_eq!(g.node_ids(), vec!["a", "", "b"]);
    assert_eq!(g.edge_count(), 2);
}
