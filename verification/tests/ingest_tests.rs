use log_viewer::classify::MetricRecord;
use log_viewer::correlate::{correlate_edge, correlate_node};
use log_viewer::graph::build_graph;
use log_viewer::ingest::IngestSession;
use log_viewer::text::prefix_match;

#[test]
fn ingest_records_metric_lines_and_drops_noise() {
    let mut session = IngestSession::new();
    assert!(session.ingest_line("bitrate, pad=(string)sink_0, bitrate=(guint64)128000;"));
    assert!(!session.ingest_line("unrelated log noise"));
    assert!(session.ingest_line(
        "interlatency, from_pad=(string)src_0, to_pad=(string)sink_0, time=(string)99;"
    ));
    assert_eq!(session.element_count(), 1);
    assert_eq!(session.latency_count(), 1);
}

#[test]
fn malformed_numeric_field_does_not_populate_store() {
    let mut session = IngestSession::new();
    let recorded = session.ingest_line("bitrate, pad=(string)sink_0, bitrate=(guint64)abc;");
    assert!(!recorded);
    assert_eq!(session.element_count(), 0);
    assert_eq!(session.latency_count(), 0);
}

#[test]
fn closed_session_ignores_lines() {
    let mut session = IngestSession::new();
    session.close();
    assert!(!session.running());
    let recorded = session.ingest_line("bitrate, pad=(string)sink_0, bitrate=(guint64)1;");
    assert!(!recorded);
    assert_eq!(session.element_count(), 0);
}

#[test]
fn close_is_terminal_and_preserves_store() {
    let mut session = IngestSession::new();
    session.ingest_line("bitrate, pad=(string)sink_0, bitrate=(guint64)128000;");
    session.close();
    assert!(!session.running());
    assert_eq!(session.element_count(), 1);
    let got = session.latest_for("sink").expect("record survives close");
    assert_eq!(
        got,
        MetricRecord::Throughput { element: "sink_0".to_string(), bits_per_second: 128000 }
    );
}

#[test]
fn clear_after_record_leaves_nothing() {
    let mut session = IngestSession::new();
    session.ingest_line("bitrate, pad=(string)sink_0, bitrate=(guint64)128000;");
    session.ingest_line("framerate, pad=(string)sink_0, fps=(uint)30;");
    session.clear();
    assert_eq!(session.latest_for("sink"), None);
    assert_eq!(session.element_count(), 0);
    assert!(session.running());
}

#[test]
fn latest_for_most_recent_wins_through_session() {
    let mut session = IngestSession::new();
    session.ingest_line("bitrate, pad=(string)sink_0, bitrate=(guint64)1000;");
    session.ingest_line("bitrate, pad=(string)sink_0, bitrate=(guint64)2000;");
    let got = session.latest_for("sink").expect("a record must match");
    assert_eq!(
        got,
        MetricRecord::Throughput { element: "sink_0".to_string(), bits_per_second: 2000 }
    );
}

#[test]
fn prefix_match_normalizes_the_raw_name() {
    assert!(prefix_match("sink", "sink_0"));
    assert!(prefix_match("autoaudiosink", "autoaudiosink0_pad"));
    assert!(!prefix_match("sink", "src_0"));
    // the entity id must prefix the normalized token, not the raw one
    assert!(!prefix_match("sink_0", "sink_0"));
}

#[test]
fn correlate_node_picks_first_matching_node() {
    let g = build_graph("audiotestsrc ! queue ! autoaudiosink");
    assert_eq!(correlate_node(&g, "queue0_src"), Some(1));
    assert_eq!(correlate_node(&g, "audiotestsrc0"), Some(0));
    assert_eq!(correlate_node(&g, "videoconvert0"), None);
}

#[test]
fn correlate_edge_matches_on_target_node() {
    let g = build_graph("audiotestsrc ! queue ! autoaudiosink");
    // edge 0 targets "queue", edge 1 targets "autoaudiosink"
    assert_eq!(correlate_edge(&g, "queue0_sink"), Some(0));
    assert_eq!(correlate_edge(&g, "autoaudiosink0_sink"), Some(1));
    assert_eq!(correlate_edge(&g, "audiotestsrc0"), None);
}
