use sorastats::agg::AggregatedStats;
use sorastats::conn::ConnectionStats;
use sorastats::filter::apply_filters;
use sorastats::flatten::flatten_connection;
use sorastats::num::FixedNum;
use sorastats::raw::RawValue;
use sorastats::stats::Stats;
use sorastats::value::StatsItemValue;

fn fa_num(units: i64) -> RawValue {
    RawValue::Number(FixedNum {
        micros: units * 1_000_000,
    })
}

fn fa_text(s: &str) -> RawValue {
    RawValue::Text(s.to_owned())
}

fn fa_obj(fields: Vec<(&str, RawValue)>) -> RawValue {
    RawValue::Object(fields.into_iter().map(|(k, v)| (k.to_owned(), v)).collect())
}

fn fa_conn(id: &str, ts: &str, items: Vec<(&str, RawValue)>) -> RawValue {
    let mut fields = vec![
        ("connection_id", fa_text(id)),
        ("timestamp", fa_text(ts)),
    ];
    fields.extend(items);
    fa_obj(fields)
}

fn fa_parse(raw: &RawValue, prev: &Stats) -> ConnectionStats {
    ConnectionStats::new(raw, prev).expect("record should parse")
}

#[test]
fn flatten_nested_object() {
    // {"a": {"b": 1, "c": "x"}, "d": true} flattens to
    // {"a.b": Number(1), "a.c": String("x"), "d": Bool(true)}.
    let fields = vec![
        (
            "a".to_owned(),
            fa_obj(vec![("b", fa_num(1)), ("c", fa_text("x"))]),
        ),
        ("d".to_owned(), RawValue::Bool(true)),
    ];
    let items = flatten_connection(&fields);
    assert_eq!(items.len(), 3);
    match items.get("a.b") {
        Some(StatsItemValue::Number(n)) => assert_eq!(n.micros, 1_000_000),
        _ => panic!("a.b should be Number(1)"),
    }
    match items.get("a.c") {
        Some(StatsItemValue::Text(s)) => assert_eq!(s, "x"),
        _ => panic!("a.c should be String(x)"),
    }
    match items.get("d") {
        Some(StatsItemValue::Bool(b)) => assert!(*b),
        _ => panic!("d should be Bool(true)"),
    }
}

#[test]
fn flatten_drops_arrays_nulls_and_huge_numbers() {
    let fields = vec![
        ("arr".to_owned(), RawValue::Array(vec![fa_num(1)])),
        ("nul".to_owned(), RawValue::Null),
        ("big".to_owned(), RawValue::BigNumber),
        ("keep".to_owned(), fa_num(7)),
    ];
    let items = flatten_connection(&fields);
    assert_eq!(items.len(), 1);
    assert!(items.get("keep").is_some());
    assert!(items.get("arr").is_none());
    assert!(items.get("nul").is_none());
    assert!(items.get("big").is_none());
}

#[test]
fn flatten_skips_connection_id_and_timestamp() {
    let fields = vec![
        ("connection_id".to_owned(), fa_text("C1")),
        ("timestamp".to_owned(), fa_text("2023-01-01T00:00:00Z")),
        ("k".to_owned(), fa_num(3)),
    ];
    let items = flatten_connection(&fields);
    assert_eq!(items.len(), 1);
    assert!(items.get("k").is_some());
    assert!(items.get("connection_id").is_none());
    assert!(items.get("timestamp").is_none());
}

#[test]
fn flatten_later_key_wins_on_collision() {
    // "a.b" appears both nested and as a literal dotted key; the later
    // top-level field overrides the earlier nested one.
    let fields = vec![
        ("a".to_owned(), fa_obj(vec![("b", fa_num(1))])),
        ("a.b".to_owned(), fa_num(2)),
    ];
    let items = flatten_connection(&fields);
    assert_eq!(items.len(), 1);
    match items.get("a.b") {
        Some(StatsItemValue::Number(n)) => assert_eq!(n.micros, 2_000_000),
        _ => panic!("a.b should be Number(2)"),
    }
}

#[test]
fn filter_ordering_connection_then_key() {
    // Connection A with items {"x": 1, "y": 2}: the connection filter
    // `^x:1$` matches on "x:1", so A survives; the key filter `^y` then
    // keeps only "y", and A contributes to the aggregate only under "y".
    let prev = Stats::empty();
    let raw = fa_conn(
        "A",
        "2023-01-01T00:00:00Z",
        vec![("x", fa_num(1)), ("y", fa_num(2))],
    );
    let conn = fa_parse(&raw, &prev);
    let cf = regex::Regex::new("^x:1$").unwrap();
    let kf = regex::Regex::new("^y").unwrap();
    let filtered = apply_filters(&cf, &kf, vec![conn]);
    assert_eq!(filtered.len(), 1);
    assert!(filtered[0].items.get("y").is_some());
    assert!(filtered[0].items.get("x").is_none());
    let agg = AggregatedStats::new(&filtered);
    assert!(agg.get("x").is_none());
    let y = agg.get("y").expect("y should be aggregated");
    assert_eq!(y.value_sum, Some(2_000_000));
}

#[test]
fn connection_filter_drops_non_matching_connection() {
    let prev = Stats::empty();
    let a = fa_parse(
        &fa_conn("A", "2023-01-01T00:00:00Z", vec![("x", fa_num(1))]),
        &prev,
    );
    let b = fa_parse(
        &fa_conn("B", "2023-01-01T00:00:00Z", vec![("x", fa_num(9))]),
        &prev,
    );
    let cf = regex::Regex::new("^x:1$").unwrap();
    let kf = regex::Regex::new(".*").unwrap();
    let filtered = apply_filters(&cf, &kf, vec![a, b]);
    assert_eq!(filtered.len(), 1);
    assert_eq!(filtered[0].connection_id, "A");
}

#[test]
fn connection_filter_sees_string_and_bool_values() {
    let prev = Stats::empty();
    let a = fa_parse(
        &fa_conn(
            "A",
            "2023-01-01T00:00:00Z",
            vec![("channel_id", fa_text("sora")), ("ok", RawValue::Bool(true))],
        ),
        &prev,
    );
    let cf = regex::Regex::new("^channel_id:sora$").unwrap();
    let kf = regex::Regex::new(".*").unwrap();
    let filtered = apply_filters(&cf, &kf, vec![a]);
    assert_eq!(filtered.len(), 1);

    let b = fa_parse(
        &fa_conn("B", "2023-01-01T00:00:00Z", vec![("ok", RawValue::Bool(true))]),
        &prev,
    );
    let cf2 = regex::Regex::new("^ok:true$").unwrap();
    let filtered2 = apply_filters(&cf2, &kf, vec![b]);
    assert_eq!(filtered2.len(), 1);
}

#[test]
fn aggregation_sums_numeric_and_skips_non_numeric() {
    // Three connections report "k" as 1, 2 and "not-a-number": the sum is 3
    // and the third connection simply does not contribute.
    let prev = Stats::empty();
    let c1 = fa_parse(
        &fa_conn("C1", "2023-01-01T00:00:00Z", vec![("k", fa_num(1))]),
        &prev,
    );
    let c2 = fa_parse(
        &fa_conn("C2", "2023-01-01T00:00:00Z", vec![("k", fa_num(2))]),
        &prev,
    );
    let c3 = fa_parse(
        &fa_conn(
            "C3",
            "2023-01-01T00:00:00Z",
            vec![("k", fa_text("not-a-number"))],
        ),
        &prev,
    );
    let agg = AggregatedStats::new(&vec![c1, c2, c3]);
    let k = agg.get("k").expect("k should be aggregated");
    assert_eq!(k.value_sum, Some(3_000_000));
    assert_eq!(k.delta_per_sec, None);
}

#[test]
fn aggregation_key_non_numeric_everywhere_still_appears() {
    let prev = Stats::empty();
    let c1 = fa_parse(
        &fa_conn("C1", "2023-01-01T00:00:00Z", vec![("k", fa_text("a"))]),
        &prev,
    );
    let agg = AggregatedStats::new(&vec![c1]);
    let k = agg.get("k").expect("k should still appear");
    assert_eq!(k.value_sum, None);
    assert_eq!(k.delta_per_sec, None);
}

#[test]
fn aggregated_filtered_items_by_key() {
    let prev = Stats::empty();
    let c1 = fa_parse(
        &fa_conn(
            "C1",
            "2023-01-01T00:00:00Z",
            vec![("rtp.bytes", fa_num(5)), ("other", fa_num(1))],
        ),
        &prev,
    );
    let snap = Stats::new(0, 0, vec![c1]);
    let kf = regex::Regex::new("^rtp[.]").unwrap();
    let picked = snap.aggregated.filtered_items(&kf);
    assert_eq!(picked.len(), 1);
    assert_eq!(picked[0].0, "rtp.bytes");
    assert_eq!(picked[0].1.value_sum, Some(5_000_000));
    assert_eq!(snap.filtered_item_count(&kf), 1);
    assert_eq!(snap.connection_count(), 1);
}

#[test]
fn aggregated_keys_are_listed_in_ascending_order() {
    // Keys are discovered out of order across connections; the aggregated
    // listing is ascending by key all the same.
    let prev = Stats::empty();
    let c1 = fa_parse(
        &fa_conn(
            "C1",
            "2023-01-01T00:00:00Z",
            vec![("zeta", fa_num(1)), ("alpha", fa_num(2))],
        ),
        &prev,
    );
    let c2 = fa_parse(
        &fa_conn("C2", "2023-01-01T00:00:00Z", vec![("midway", fa_num(3))]),
        &prev,
    );
    let agg = AggregatedStats::new(&vec![c1, c2]);
    let all = regex::Regex::new(".*").unwrap();
    let listed: Vec<String> = agg
        .filtered_items(&all)
        .into_iter()
        .map(|(k, _)| k)
        .collect();
    assert_eq!(listed, vec!["alpha", "midway", "zeta"]);
}

#[test]
fn connections_are_listed_in_ascending_id_order() {
    let prev = Stats::empty();
    let b = fa_parse(
        &fa_conn("b-conn", "2023-01-01T00:00:00Z", vec![("k", fa_num(1))]),
        &prev,
    );
    let a = fa_parse(
        &fa_conn("a-conn", "2023-01-01T00:00:00Z", vec![("k", fa_num(2))]),
        &prev,
    );
    let snap = Stats::new(0, 0, vec![b, a]);
    let ids: Vec<&String> = snap.connections.pairs.iter().map(|p| &p.0).collect();
    assert_eq!(ids, vec!["a-conn", "b-conn"]);
}

#[test]
fn cloned_filter_behaves_like_the_original() {
    let prev = Stats::empty();
    let a = fa_parse(
        &fa_conn("A", "2023-01-01T00:00:00Z", vec![("x", fa_num(1))]),
        &prev,
    );
    let b = fa_parse(
        &fa_conn("B", "2023-01-01T00:00:00Z", vec![("x", fa_num(2))]),
        &prev,
    );
    let cf = regex::Regex::new("^x:1$").unwrap().clone();
    let kf = regex::Regex::new(".*").unwrap().clone();
    let filtered = apply_filters(&cf, &kf, vec![a, b]);
    assert_eq!(filtered.len(), 1);
    assert_eq!(filtered[0].connection_id, "A");
}

#[test]
fn values_equal_by_content() {
    let a = StatsItemValue::Number(FixedNum { micros: 5 });
    let b = StatsItemValue::Number(FixedNum { micros: 5 });
    let c = StatsItemValue::Number(FixedNum { micros: 6 });
    let t1 = StatsItemValue::Text("x".to_owned());
    let t2 = StatsItemValue::Text("x".to_owned());
    let f = StatsItemValue::Bool(false);
    assert!(a == b);
    assert!(a != c);
    assert!(t1 == t2);
    assert!(t1 != f);
    assert!(a != t1);
}
