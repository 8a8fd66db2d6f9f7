use log_viewer::classify::{classify_line, parse_duration_to_ns, MetricRecord};
use log_viewer::text::extract_element_name;

#[test]
fn throughput_line_is_classified() {
    let line = "0:00:01.000 bitrate, pad=(string)sink_0, bitrate=(guint64)128000;";
    let rec = classify_line(line).expect("throughput line must classify");
    assert_eq!(
        rec,
        MetricRecord::Throughput { element: "sink_0".to_string(), bits_per_second: 128000 }
    );
}

#[test]
fn normalizing_strips_after_first_underscore() {
    assert_eq!(extract_element_name("sink_0"), "sink");
    assert_eq!(extract_element_name("autoaudiosink0"), "autoaudiosink0");
    assert_eq!(extract_element_name("elementname_0.sink_0"), "elementname");
}

#[test]
fn framerate_line_is_classified() {
    let line = "framerate, pad=(string)src_0, fps=(uint)30;";
    let rec = classify_line(line).expect("framerate line must classify");
    assert_eq!(
        rec,
        MetricRecord::FrameRate { element: "src_0".to_string(), frames_per_second: 30 }
    );
}

#[test]
fn proctime_line_is_classified() {
    let line = "proc_time, element=(string)queue0, time=(string)0:00:00.000500000;";
    let rec = classify_line(line).expect("processing-time line must classify");
    assert_eq!(
        rec,
        MetricRecord::ProcessingTime { element: "queue0".to_string(), nanoseconds: 500_000 }
    );
}

#[test]
fn interlatency_line_is_classified() {
    let line =
        "interlatency, from_pad=(string)audiotestsrc0_src, to_pad=(string)sink_0, time=(string)73741;";
    let rec = classify_line(line).expect("inter-latency line must classify");
    assert_eq!(
        rec,
        MetricRecord::InterElementLatency {
            from: "audiotestsrc0_src".to_string(),
            to: "sink_0".to_string(),
            nanoseconds: 73741,
        }
    );
}

#[test]
fn noise_line_yields_no_record() {
    assert_eq!(classify_line("0:00:01.4 INFO basesrc starting up"), None);
    assert_eq!(classify_line(""), None);
}

#[test]
fn non_numeric_bitrate_yields_no_record() {
    let line = "bitrate, pad=(string)sink_0, bitrate=(guint64)abc;";
    assert_eq!(classify_line(line), None);
}

#[test]
fn missing_terminator_yields_no_record() {
    let line = "bitrate, pad=(string)sink_0, bitrate=(guint64)128000";
    assert_eq!(classify_line(line), None);
}

#[test]
fn overflowing_bitrate_yields_no_record() {
    let line = "bitrate, pad=(string)sink_0, bitrate=(guint64)99999999999999999999999999;";
    assert_eq!(classify_line(line), None);
}

#[test]
fn malformed_duration_yields_no_record() {
    let line = "proc_time, element=(string)queue0, time=(string)borked;";
    assert_eq!(classify_line(line), None);
}

#[test]
fn duration_decomposes_exactly() {
    let ns = parse_duration_to_ns("01:02:03.500000000").expect("well-formed duration");
    assert_eq!(
        ns,
        1 * 3_600_000_000_000u64 + 2 * 60_000_000_000 + 3 * 1_000_000_000 + 500_000_000
    );
    assert_eq!(ns, 3_723_500_000_000);
}

#[test]
fn duration_without_fraction_parses() {
    assert_eq!(parse_duration_to_ns("0:00:02"), Some(2_000_000_000));
}

#[test]
fn grammar_priority_prefers_throughput() {
    // a line carrying both closings classifies under the first grammar tried
    let line = "pad=(string)sink_0, bitrate=(guint64)7; pad=(string)src_0, fps=(uint)9;";
    let rec = classify_line(line).expect("line must classify");
    assert_eq!(
        rec,
        MetricRecord::Throughput { element: "sink_0".to_string(), bits_per_second: 7 }
    );
}

#[test]
fn interlatency_with_non_numeric_time_yields_no_record() {
    let line =
        "interlatency, from_pad=(string)src_0, to_pad=(string)sink_0, time=(string)0:00:01.5;";
    assert_eq!(classify_line(line), None);
}

#[test]
fn fps_overflow_yields_no_record() {
    let line = "framerate, pad=(string)src_0, fps=(uint)18446744073709551616;";
    assert_eq!(classify_line(line), None);
}

#[test]
fn empty_pad_token_yields_no_record() {
    let line = "bitrate, pad=(string), bitrate=(guint64)128000;";
    assert_eq!(classify_line(line), None);
}

#[test]
fn malformed_durations_yield_none() {
    assert_eq!(parse_duration_to_ns(""), None);
    assert_eq!(parse_duration_to_ns("1:2"), None);
    assert_eq!(parse_duration_to_ns("1:2:3:4"), None);
    assert_eq!(parse_duration_to_ns("aa:bb:cc"), None);
    assert_eq!(parse_duration_to_ns("1:2:"), None);
    assert_eq!(parse_duration_to_ns("1:2:3."), None);
    assert_eq!(parse_duration_to_ns("99999999999999999999:00:00"), None);
}
