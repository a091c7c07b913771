use chrome_trace::convert::{build_trace, ConversionError};
use chrome_trace::error::TraceError;
use chrome_trace::event::{
    BuildGraphInfo, Event, EventData, InstantData, NetworkInterfaceStats, Snapshot, SpanEndKind,
    SpanStartData,
};
use chrome_trace::first_pass::ChromeTraceFirstPass;
use chrome_trace::writer::{join_with_spaces, ChromeTraceWriter, TraceEvents};

const T0: u64 = 1_700_000_000_000_000;

fn start(ts: u64, span_id: u64, parent_id: Option<u64>, data: SpanStartData) -> Event {
    Event { timestamp_us: ts, parent_id, data: EventData::SpanStart { span_id, data } }
}

fn end(ts: u64, span_id: u64, kind: SpanEndKind, duration_us: Option<u64>) -> Event {
    Event { timestamp_us: ts, parent_id: None, data: EventData::SpanEnd { span_id, kind, duration_us } }
}

fn analysis(target: &str) -> SpanStartData {
    SpanStartData::Analysis { target: target.to_string() }
}

fn args() -> Vec<String> {
    vec!["buck2".to_string(), "build".to_string(), "//app:main".to_string()]
}

fn convert(events: &Vec<Event>) -> TraceEvents {
    build_trace(&args(), events).unwrap()
}

fn counter_value(t: &TraceEvents, key: &str) -> Vec<(u64, i128, u64)> {
    t.counters
        .iter()
        .filter_map(|r| r.args.iter().find(|(k, _)| k == key).map(|(_, v)| (r.ts, v.num, v.den)))
        .collect()
}

fn three_spans() -> Vec<Event> {
    vec![
        start(T0, 1, None, SpanStartData::Command),
        start(T0 + 1_000, 2, Some(1), analysis("//app:lib")),
        end(T0 + 61_000, 2, SpanEndKind::Analysis, Some(60_000)),
        start(T0 + 62_000, 3, Some(1), analysis("//app:util")),
        end(T0 + 72_000, 3, SpanEndKind::Analysis, Some(10_000)),
        end(T0 + 100_000, 1, SpanEndKind::Other, Some(100_000)),
    ]
}

#[test]
fn end_to_end_shows_command_and_long_analysis_only() {
    let t = convert(&three_spans());
    assert_eq!(t.spans.len(), 2);
    assert_eq!(t.spans[0].name, "analysis //app:lib");
    assert_eq!(t.spans[0].ts, T0 + 1_000);
    assert_eq!(t.spans[0].dur, 60_000);
    assert_eq!(t.spans[0].cat, "buck2");
    assert_eq!(t.spans[0].pid, 0);
    assert_eq!(t.spans[0].span_id, 2);
    assert_eq!(t.spans[1].name, "buck2 build //app:main");
    assert_eq!(t.spans[1].ts, T0);
    assert_eq!(t.spans[1].dur, 100_000);
    assert_eq!(t.spans[1].tid, "uncategorized-00");
    assert!(t.spans.iter().all(|s| s.span_id != 3));
}

#[test]
fn child_span_inherits_parent_track() {
    let t = convert(&three_spans());
    assert_eq!(t.spans[0].tid, t.spans[1].tid);
}

#[test]
fn analysis_gauge_counts_spans_in_flight() {
    let t = convert(&three_spans());
    let values: Vec<i128> = counter_value(&t, "analysis").iter().map(|v| v.1).collect();
    assert_eq!(values.first(), Some(&0));
    assert!(values.contains(&1));
    assert_eq!(values.last(), Some(&0));
    assert!(t.counters.iter().any(|r| r.name == "spans"));
}

#[test]
fn end_without_open_span_adds_nothing() {
    let events = vec![
        start(T0, 1, None, SpanStartData::Command),
        end(T0 + 5, 77, SpanEndKind::Other, None),
        end(T0 + 10, 1, SpanEndKind::Other, Some(10)),
    ];
    let t = convert(&events);
    assert_eq!(t.spans.len(), 1);
    assert_eq!(t.spans[0].span_id, 1);
}

#[test]
fn conversion_is_repeatable() {
    let events = three_spans();
    let a = format!("{:?}", build_trace(&args(), &events));
    let b = format!("{:?}", build_trace(&args(), &events));
    assert_eq!(a, b);
}

#[test]
fn closed_span_starts_at_its_start_event() {
    let events = vec![
        start(T0 + 123, 5, None, SpanStartData::FileWatcher),
        end(T0 + 999, 5, SpanEndKind::Other, Some(876)),
    ];
    let t = convert(&events);
    assert_eq!(t.spans.len(), 1);
    assert_eq!(t.spans[0].ts, T0 + 123);
    assert_eq!(t.spans[0].dur, 876);
    assert_eq!(t.spans[0].name, "file_watcher_sync");
    assert_eq!(t.spans[0].tid, "critical-path-00");
}

#[test]
fn analysis_end_without_duration_is_an_error() {
    let events = vec![
        start(T0, 2, None, analysis("//a:b")),
        end(T0 + 10, 2, SpanEndKind::Analysis, None),
    ];
    assert_eq!(build_trace(&args(), &events).unwrap_err(), ConversionError { event_index: 1, error: TraceError::MissingDuration });
}

#[test]
fn load_end_without_duration_is_an_error() {
    let events = vec![start(T0, 1, None, SpanStartData::Command), end(T0 + 10, 2, SpanEndKind::Load, None)];
    assert_eq!(build_trace(&args(), &events).unwrap_err(), ConversionError { event_index: 1, error: TraceError::MissingDuration });
}

#[test]
fn shown_span_end_without_duration_is_an_error() {
    let events = vec![start(T0, 1, None, SpanStartData::Command), end(T0 + 10, 1, SpanEndKind::Other, None)];
    assert_eq!(build_trace(&args(), &events).unwrap_err(), ConversionError { event_index: 1, error: TraceError::MissingDuration });
}

#[test]
fn timestamp_at_epoch_is_an_error() {
    let events = vec![start(T0, 2, None, SpanStartData::FileWatcher), start(0, 1, None, SpanStartData::Command)];
    assert_eq!(build_trace(&args(), &events).unwrap_err(), ConversionError { event_index: 1, error: TraceError::TimestampOutOfRange });
}

#[test]
fn overlapping_root_spans_get_separate_tracks() {
    let events = vec![
        start(T0, 1, None, SpanStartData::FileWatcher),
        start(T0 + 1, 2, None, SpanStartData::FileWatcher),
        end(T0 + 2, 1, SpanEndKind::Other, Some(2)),
        start(T0 + 3, 3, None, SpanStartData::FileWatcher),
        end(T0 + 4, 2, SpanEndKind::Other, Some(3)),
        end(T0 + 5, 3, SpanEndKind::Other, Some(2)),
    ];
    let t = convert(&events);
    let tids: Vec<(u64, String)> = t.spans.iter().map(|s| (s.span_id, s.tid.clone())).collect();
    assert_eq!(
        tids,
        vec![
            (1, "critical-path-00".to_string()),
            (2, "critical-path-01".to_string()),
            (3, "critical-path-00".to_string()),
        ]
    );
}

#[test]
fn critical_path_membership_shows_actions_and_analyses() {
    let events = vec![
        start(T0, 10, None, SpanStartData::ActionExecution { key: "k1".to_string(), name: "compile a".to_string() }),
        end(T0 + 5, 10, SpanEndKind::Other, Some(5)),
        start(T0 + 6, 11, None, SpanStartData::ActionExecution { key: "k2".to_string(), name: "compile b".to_string() }),
        end(T0 + 7, 11, SpanEndKind::Other, Some(1)),
        start(T0 + 8, 12, None, analysis("//c:d")),
        end(T0 + 9, 12, SpanEndKind::Analysis, Some(1)),
        start(T0 + 10, 13, None, SpanStartData::ActionExecution { key: "k3".to_string(), name: "compile c".to_string() }),
        end(T0 + 11, 13, SpanEndKind::Other, Some(1)),
        Event {
            timestamp_us: T0 + 20,
            parent_id: None,
            data: EventData::Instant(InstantData::BuildGraphInfo(BuildGraphInfo {
                critical_path_action_keys: vec!["k1".to_string()],
                critical_path_span_ids: vec![Some(12), None, Some(13)],
            })),
        },
    ];
    let t = convert(&events);
    let names: Vec<(String, String)> = t.spans.iter().map(|s| (s.name.clone(), s.tid.clone())).collect();
    assert_eq!(
        names,
        vec![
            ("compile a".to_string(), "critical-path-00".to_string()),
            ("analysis //c:d".to_string(), "critical-path-00".to_string()),
            ("compile c".to_string(), "critical-path-00".to_string()),
        ]
    );
}

#[test]
fn local_stage_shows_its_action_and_stage_inherits() {
    let events = vec![
        start(T0, 20, None, SpanStartData::ActionExecution { key: "k".to_string(), name: "run tests".to_string() }),
        start(T0 + 1, 21, Some(20), SpanStartData::ExecutorStage { stage: "local_execute".to_string(), local: true }),
        end(T0 + 2, 21, SpanEndKind::Other, Some(1)),
        end(T0 + 3, 20, SpanEndKind::Other, Some(3)),
        start(T0 + 4, 22, Some(30), SpanStartData::ExecutorStage { stage: "re_queue".to_string(), local: false }),
        end(T0 + 5, 22, SpanEndKind::Other, Some(1)),
    ];
    let t = convert(&events);
    let names: Vec<(String, String)> = t.spans.iter().map(|s| (s.name.clone(), s.tid.clone())).collect();
    assert_eq!(
        names,
        vec![
            ("local_execute".to_string(), "uncategorized-00".to_string()),
            ("run tests".to_string(), "uncategorized-00".to_string()),
        ]
    );
    assert!(!counter_value(&t, "re_queue").is_empty());
}

#[test]
fn long_load_is_shown() {
    let events = vec![
        start(T0, 40, None, SpanStartData::Load { module_id: "root//BUCK".to_string() }),
        end(T0 + 80_000, 40, SpanEndKind::Load, Some(80_000)),
        start(T0 + 90_000, 41, None, SpanStartData::Load { module_id: "root//x/BUCK".to_string() }),
        end(T0 + 90_100, 41, SpanEndKind::Load, Some(50_000)),
    ];
    let t = convert(&events);
    assert_eq!(t.spans.len(), 1);
    assert_eq!(t.spans[0].name, "load root//BUCK");
    assert_eq!(t.spans[0].tid, "uncategorized-00");
}

fn snapshot_event(ts: u64, rss: u64, cpu: u64, tx: u64) -> Event {
    Event {
        timestamp_us: ts,
        parent_id: None,
        data: EventData::Instant(InstantData::Snapshot(Snapshot {
            buck2_max_rss: rss,
            buck2_user_cpu_us: cpu,
            buck2_system_cpu_us: 0,
            blocking_executor_io_queue_size: 4,
            network_interface_stats: vec![NetworkInterfaceStats { interface: "eth0".to_string(), tx_bytes: tx, rx_bytes: 0 }],
            re_upload_bytes: 0,
            re_download_bytes: 0,
        })),
    }
}

#[test]
fn snapshots_feed_resource_counters() {
    let events = vec![snapshot_event(T0, 3_000_000_000, 1_000, 500), snapshot_event(T0 + 2_000_000, 2_500_000_000, 1_500_000, 2_500)];
    let t = convert(&events);
    let rss = counter_value(&t, "max_rss_gigabyte");
    assert_eq!(rss.last().map(|v| v.1 as f64 / v.2 as f64), Some(2.5));
    let cpu = counter_value(&t, "average_user_cpu_in_usecs_per_s");
    assert_eq!(cpu.len(), 1);
    assert_eq!(cpu[0].1 as f64 / cpu[0].2 as f64, 749_500.0);
    let send = counter_value(&t, "eth0_send_bytes");
    assert_eq!(send.len(), 1);
    assert_eq!(send[0].1 as f64 / send[0].2 as f64, 1_000.0);
    let receive: Vec<i128> = counter_value(&t, "eth0_receive_bytes").iter().map(|v| v.1).collect();
    assert_eq!(receive, vec![0]);
    let queue = counter_value(&t, "blocking_executor_io_queue_size");
    assert_eq!(queue.last().map(|v| v.1), Some(4));
}

#[test]
fn snapshot_going_back_in_time_is_an_error() {
    let events = vec![snapshot_event(T0 + 10, 1, 1, 1), snapshot_event(T0, 1, 1, 1)];
    assert_eq!(build_trace(&args(), &events).unwrap_err(), ConversionError { event_index: 1, error: TraceError::ClockWentBackwards });
}

#[test]
fn writer_driven_by_hand_matches_build_trace() {
    let events = three_spans();
    let mut first = ChromeTraceFirstPass::new();
    for e in &events {
        first.handle_event(e).unwrap();
    }
    let mut w = ChromeTraceWriter::new(&args(), first);
    for e in &events {
        w.handle_event(e).unwrap();
    }
    let by_hand = format!("{:?}", w.into_trace_events());
    assert_eq!(by_hand, format!("{:?}", convert(&events)));
}

#[test]
fn command_line_is_joined_with_spaces() {
    assert_eq!(join_with_spaces(&args()), "buck2 build //app:main");
    assert_eq!(join_with_spaces(&vec![]), "");
    assert_eq!(join_with_spaces(&vec!["one".to_string()]), "one");
}
