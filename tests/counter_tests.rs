use chrome_trace::counters::{
    AverageRateOfChangeCounters, CounterRecord, CounterValue, SimpleCounters, SpanCounters,
};
use chrome_trace::error::TraceError;

fn value_of(rec: &CounterRecord, key: &str) -> Option<CounterValue> {
    rec.args.iter().find(|(k, _)| k == key).map(|(_, v)| *v)
}

fn as_f64(v: CounterValue) -> f64 {
    v.num as f64 / v.den as f64
}

#[test]
fn gauge_round_trip_through_zero_is_suppressed_afterwards() {
    let mut c = SimpleCounters::new("spans".to_string(), CounterValue::integer(0));
    let k = "analysis".to_string();
    c.bump(1_000_000, &k, 5);
    c.subtract(1_100_000, &k, 5);
    let mut out = Vec::new();
    c.flush_all_to(&mut out);
    c.flush_all_to(&mut out);
    let zeros: Vec<u64> = out
        .iter()
        .filter(|r| value_of(r, "analysis") == Some(CounterValue::integer(0)))
        .map(|r| r.ts)
        .collect();
    assert_eq!(zeros, vec![999_999, 1_110_000]);
    let fives = out
        .iter()
        .filter(|r| value_of(r, "analysis") == Some(CounterValue::integer(5)))
        .count();
    assert_eq!(fives, 2);
    assert_eq!(value_of(out.last().unwrap(), "analysis"), None);
    assert_eq!(out.len(), 5);
}

#[test]
fn first_bump_emits_baseline_just_before() {
    let mut c = SimpleCounters::new("spans".to_string(), CounterValue::integer(0));
    c.bump(2_000_000, &"load".to_string(), 1);
    let mut out = Vec::new();
    c.flush_all_to(&mut out);
    assert_eq!(out.len(), 2);
    assert_eq!(out[0].ts, 1_999_999);
    assert_eq!(value_of(&out[0], "load"), Some(CounterValue::integer(0)));
    assert_eq!(out[1].ts, 2_000_000);
    assert_eq!(value_of(&out[1], "load"), Some(CounterValue::integer(1)));
    assert_eq!(out[1].name, "spans");
}

#[test]
fn set_values_flush_once_per_bucket_and_gap_collapses() {
    let mut c = SimpleCounters::new("snapshot_counters".to_string(), CounterValue::integer(0));
    let k = "queue".to_string();
    c.set(1_000_000, &k, CounterValue::integer(3));
    c.set(1_005_000, &k, CounterValue::integer(4));
    c.set(5_000_000, &k, CounterValue::integer(6));
    let mut out = Vec::new();
    c.flush_all_to(&mut out);
    let stamps: Vec<u64> = out.iter().map(|r| r.ts).collect();
    assert_eq!(stamps, vec![1_010_000, 4_999_999]);
    assert_eq!(value_of(&out[0], "queue"), Some(CounterValue::integer(4)));
    assert_eq!(value_of(&out[1], "queue"), Some(CounterValue::integer(6)));
}

#[test]
fn rate_of_change_per_second() {
    let mut r = AverageRateOfChangeCounters::new("rate_of_change_counters".to_string());
    let k = "re_upload_bytes".to_string();
    r.set_average_rate_of_change_per_s(3_000_000, &k, 100).unwrap();
    r.set_average_rate_of_change_per_s(4_000_000, &k, 300).unwrap();
    let mut out = Vec::new();
    r.flush_all_to(&mut out);
    let points: Vec<CounterValue> = out.iter().filter_map(|rec| value_of(rec, "re_upload_bytes")).collect();
    assert_eq!(points.len(), 1);
    assert_eq!(as_f64(points[0]), 200.0);
}

#[test]
fn lone_first_sample_emits_nothing() {
    let mut r = AverageRateOfChangeCounters::new("rate_of_change_counters".to_string());
    r.set_average_rate_of_change_per_s(3_000_000, &"x".to_string(), 100).unwrap();
    let mut out = Vec::new();
    r.flush_all_to(&mut out);
    assert!(out.iter().all(|rec| value_of(rec, "x").is_none()));
}

#[test]
fn rate_sample_older_than_previous_is_an_error() {
    let mut r = AverageRateOfChangeCounters::new("rates".to_string());
    let k = "x".to_string();
    r.set_average_rate_of_change_per_s(3_000_000, &k, 100).unwrap();
    assert_eq!(
        r.set_average_rate_of_change_per_s(2_000_000, &k, 150),
        Err(TraceError::ClockWentBackwards)
    );
}

#[test]
fn unchanged_amount_is_a_zero_rate() {
    let mut r = AverageRateOfChangeCounters::new("rates".to_string());
    let k = "x".to_string();
    r.set_average_rate_of_change_per_s(3_000_000, &k, 100).unwrap();
    r.set_average_rate_of_change_per_s(3_500_000, &k, 100).unwrap();
    let mut out = Vec::new();
    r.flush_all_to(&mut out);
    assert_eq!(value_of(&out[0], "x"), Some(CounterValue::integer(0)));
}

#[test]
fn span_counter_takes_back_on_end() {
    let mut s = SpanCounters::new("spans".to_string());
    s.bump_counter_while_span(7, 1_000_000, "load".to_string(), 1);
    s.bump_counter_while_span(8, 1_000_100, "load".to_string(), 1);
    s.handle_event_end(7, 1_500_000);
    s.handle_event_end(99, 1_600_000);
    let mut out = Vec::new();
    s.flush_all_to(&mut out);
    assert_eq!(value_of(out.last().unwrap(), "load"), Some(CounterValue::integer(1)));
}

#[test]
fn value_shift_saturates_and_normalizes() {
    let v = CounterValue { num: i128::MAX - 1, den: 1 };
    assert_eq!(v.shift(5), CounterValue { num: i128::MAX, den: 1 });
    let v = CounterValue { num: 6, den: 3 };
    assert_eq!(v.shift(-2), CounterValue { num: 0, den: 1 });
    assert_eq!(CounterValue::ratio(0, 7), CounterValue::integer(0));
    assert_eq!(CounterValue::ratio(5, 7), CounterValue { num: 5, den: 7 });
}
