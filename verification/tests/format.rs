use sorastats::num::{rate_per_sec, FixedNum, MAX_STAT_MICROS};
use sorastats::pipeline::sleep_duration_micros;
use sorastats::text::format_u64;
use sorastats::value::{
    AggregatedStatsItemValue, ConnectionStatsItemValue, StatsItemValue,
};
use sorastats::Options;

fn fm_item(micros: i64, delta: Option<i64>) -> ConnectionStatsItemValue {
    ConnectionStatsItemValue {
        value: StatsItemValue::Number(FixedNum { micros }),
        delta_per_sec: delta.map(|m| FixedNum { micros: m }),
    }
}

#[test]
fn format_u64_groups_digits_with_commas() {
    assert_eq!(format_u64(0), "0");
    assert_eq!(format_u64(7), "7");
    assert_eq!(format_u64(999), "999");
    assert_eq!(format_u64(1000), "1,000");
    assert_eq!(format_u64(1234567), "1,234,567");
    assert_eq!(format_u64(1000000007), "1,000,000,007");
    assert_eq!(format_u64(u64::MAX), "18,446,744,073,709,551,615");
}

#[test]
fn render_shows_values_in_natural_form() {
    assert_eq!(
        StatsItemValue::Number(FixedNum { micros: 1_000_000 }).render(),
        "1"
    );
    assert_eq!(
        StatsItemValue::Number(FixedNum { micros: 1_500_000 }).render(),
        "1.5"
    );
    assert_eq!(
        StatsItemValue::Number(FixedNum { micros: -250_000 }).render(),
        "-0.25"
    );
    assert_eq!(StatsItemValue::Number(FixedNum { micros: 0 }).render(), "0");
    assert_eq!(
        StatsItemValue::Number(FixedNum { micros: 123_456 }).render(),
        "0.123456"
    );
    assert_eq!(StatsItemValue::Bool(true).render(), "true");
    assert_eq!(StatsItemValue::Bool(false).render(), "false");
    assert_eq!(StatsItemValue::Text("abc".to_owned()).render(), "abc");
}

#[test]
fn connection_item_formats_truncate_and_round() {
    // The value column truncates toward zero; negatives show as zero.
    assert_eq!(fm_item(1_900_000, None).format_value(), "1");
    assert_eq!(fm_item(-1_900_000, None).format_value(), "0");
    assert_eq!(fm_item(1_234_567 * 1_000_000, None).format_value(), "1,234,567");
    // The rate column rounds to the nearest unit and is blank when absent.
    assert_eq!(fm_item(0, Some(1_500_000)).format_delta_per_sec(), "2");
    assert_eq!(fm_item(0, Some(1_499_999)).format_delta_per_sec(), "1");
    assert_eq!(fm_item(0, Some(-3_000_000)).format_delta_per_sec(), "0");
    assert_eq!(fm_item(0, None).format_delta_per_sec(), "");
    // A non-numeric value falls back to its natural form.
    let text_item = ConnectionStatsItemValue {
        value: StatsItemValue::Text("sora".to_owned()),
        delta_per_sec: None,
    };
    assert_eq!(text_item.format_value(), "sora");
}

#[test]
fn aggregated_item_formats_round_and_blank() {
    let v = AggregatedStatsItemValue {
        value_sum: Some(2_500_000),
        delta_per_sec: None,
    };
    assert_eq!(v.format_value_sum(), "3");
    assert_eq!(v.format_delta_per_sec(), "");
    let w = AggregatedStatsItemValue {
        value_sum: None,
        delta_per_sec: Some(999_499),
    };
    assert_eq!(w.format_value_sum(), "");
    assert_eq!(w.format_delta_per_sec(), "1");
}

#[test]
fn rate_is_exact_and_bounded() {
    let v0 = FixedNum { micros: 0 };
    let v1 = FixedNum { micros: 10_000_000 };
    // 10 units over 2 seconds: 5 per second.
    let r = rate_per_sec(v1, v0, 2_000_000).unwrap();
    assert_eq!(r.micros, 5_000_000);
    // Truncation toward zero, also for negative rates.
    let r2 = rate_per_sec(v0, v1, 3_000_000).unwrap();
    assert_eq!(r2.micros, -3_333_333);
    // No rate for zero or negative elapsed time.
    assert!(rate_per_sec(v1, v0, 0).is_none());
    assert!(rate_per_sec(v1, v0, -5).is_none());
    // A rate outside the representable range is dropped.
    let big = FixedNum {
        micros: MAX_STAT_MICROS,
    };
    let small = FixedNum {
        micros: -MAX_STAT_MICROS,
    };
    assert!(rate_per_sec(big, small, 1).is_none());
}

#[test]
fn from_units_and_micros_enforce_the_range() {
    assert_eq!(FixedNum::from_units(1).unwrap().micros, 1_000_000);
    assert_eq!(FixedNum::from_units(-2).unwrap().micros, -2_000_000);
    assert!(FixedNum::from_units(5_000_000_000_000).is_none());
    assert!(FixedNum::from_micros(MAX_STAT_MICROS).is_some());
    assert!(FixedNum::from_micros(i64::MAX).is_none());
}

#[test]
fn realtime_mode_follows_the_url_scheme() {
    let opts = |url: &str| Options {
        sora_api_url: url.to_owned(),
        polling_interval: 1,
        chart_time_period: 60,
        connection_filter: regex::Regex::new(".*:.*").unwrap(),
        stats_key_filter: regex::Regex::new(".*").unwrap(),
        record: None,
        global: false,
    };
    assert!(opts("http://localhost:3000/").is_realtime_mode());
    assert!(opts("https://sora.example/api").is_realtime_mode());
    assert!(!opts("capture.jsonl").is_realtime_mode());
    assert!(!opts("httpx://nope").is_realtime_mode());
    assert!(!opts("").is_realtime_mode());
}

#[test]
fn sleep_compensates_for_cycle_latency() {
    assert_eq!(sleep_duration_micros(1_000_000, 250_000), 750_000);
    assert_eq!(sleep_duration_micros(1_000_000, 1_000_000), 0);
    assert_eq!(sleep_duration_micros(1_000_000, 2_000_000), 0);
    assert_eq!(sleep_duration_micros(0, 0), 0);
}
