use log_viewer::classify::MetricRecord;
use log_viewer::store::{latency_flagged, passes_threshold, MetricStore, Thresholds};

fn throughput(element: &str, bps: u64) -> MetricRecord {
    MetricRecord::Throughput { element: element.to_string(), bits_per_second: bps }
}

fn latency(from: &str, to: &str, ns: u64) -> MetricRecord {
    MetricRecord::InterElementLatency {
        from: from.to_string(),
        to: to.to_string(),
        nanoseconds: ns,
    }
}

#[test]
fn latest_for_returns_most_recent_match() {
    let mut store = MetricStore::new();
    store.record(throughput("sink_0", 1000));
    store.record(throughput("sink_1", 2000));
    let got = store.latest_for("sink").expect("a record must match");
    assert_eq!(got, throughput("sink_1", 2000));
}

#[test]
fn latest_for_skips_non_matching_records() {
    let mut store = MetricStore::new();
    store.record(throughput("sink_0", 1000));
    store.record(throughput("other_0", 9));
    let got = store.latest_for("sink").expect("a record must match");
    assert_eq!(got, throughput("sink_0", 1000));
}

#[test]
fn latest_for_on_empty_store_is_none() {
    let store = MetricStore::new();
    assert_eq!(store.latest_for("sink"), None);
    assert_eq!(store.latest_latency_for("sink"), None);
}

#[test]
fn unmatched_record_is_stored_but_never_surfaces() {
    let mut store = MetricStore::new();
    store.record(throughput("zzz_0", 1));
    assert_eq!(store.element_count(), 1);
    assert_eq!(store.latest_for("sink"), None);
}

#[test]
fn clear_resets_every_query() {
    let mut store = MetricStore::new();
    store.record(throughput("sink_0", 1000));
    store.record(latency("src_0", "sink_0", 42));
    store.clear();
    assert_eq!(store.element_count(), 0);
    assert_eq!(store.latency_count(), 0);
    assert_eq!(store.latest_for("sink"), None);
    assert_eq!(store.latest_latency_for("sink"), None);
}

#[test]
fn latencies_and_elements_live_apart() {
    let mut store = MetricStore::new();
    store.record(latency("src_0", "sink_0", 42));
    assert_eq!(store.element_count(), 0);
    assert_eq!(store.latency_count(), 1);
    assert_eq!(store.latest_for("sink"), None);
    let got = store.latest_latency_for("sink").expect("latency must match by target");
    assert_eq!(got, latency("src_0", "sink_0", 42));
}

#[test]
fn latest_latency_matches_on_target_name() {
    let mut store = MetricStore::new();
    store.record(latency("queue_src", "autoaudiosink_0", 7));
    assert_eq!(store.latest_latency_for("queue"), None);
    assert!(store.latest_latency_for("autoaudiosink").is_some());
}

#[test]
fn threshold_bounds_each_present_field() {
    let t = Thresholds { min_bitrate: 1000, min_framerate: 30, max_latency_ns: 100 };
    assert!(passes_threshold(&throughput("a", 1000), &t));
    assert!(!passes_threshold(&throughput("a", 999), &t));
    assert!(passes_threshold(
        &MetricRecord::FrameRate { element: "a".to_string(), frames_per_second: 30 },
        &t
    ));
    assert!(!passes_threshold(
        &MetricRecord::FrameRate { element: "a".to_string(), frames_per_second: 29 },
        &t
    ));
    // absent fields satisfy their bounds
    assert!(passes_threshold(
        &MetricRecord::ProcessingTime { element: "a".to_string(), nanoseconds: 1 },
        &t
    ));
    // latency records are never filtered by the pass predicate
    assert!(passes_threshold(&latency("a", "b", 100_000), &t));
}

#[test]
fn latency_breach_is_flagged_not_filtered() {
    let t = Thresholds { min_bitrate: 0, min_framerate: 0, max_latency_ns: 100 };
    assert!(!latency_flagged(100, &t));
    assert!(latency_flagged(101, &t));
}
