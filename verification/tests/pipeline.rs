use sorastats::conn::ConnectionStats;
use sorastats::error::StatsError;
use sorastats::num::FixedNum;
use sorastats::pipeline::{
    check_record_file_size, CycleKind, PollEvent, RecordItem, StatsPoller,
};
use sorastats::raw::RawValue;
use sorastats::stats::Stats;

fn pl_num(units: i64) -> RawValue {
    RawValue::Number(FixedNum {
        micros: units * 1_000_000,
    })
}

fn pl_text(s: &str) -> RawValue {
    RawValue::Text(s.to_owned())
}

fn pl_conn(id: &str, ts: &str, items: Vec<(&str, RawValue)>) -> RawValue {
    let mut fields = vec![
        ("connection_id".to_owned(), pl_text(id)),
        ("timestamp".to_owned(), pl_text(ts)),
    ];
    fields.extend(items.into_iter().map(|(k, v)| (k.to_owned(), v)));
    RawValue::Object(fields)
}

fn pl_poller() -> StatsPoller {
    StatsPoller::new(
        regex::Regex::new(".*:.*").unwrap(),
        regex::Regex::new(".*").unwrap(),
    )
}

fn pl_batch(time_micros: i64, values: Vec<RawValue>) -> PollEvent {
    PollEvent::Batch(RecordItem { time_micros, values })
}

#[test]
fn delta_absent_on_first_observation_then_exact() {
    // Connection C reports k=10 at t=0s and k=20 at t=1s: no delta at the
    // first observation, 10 per second at the second.
    let prev = Stats::empty();
    let c1 = ConnectionStats::new(
        &pl_conn("C", "2023-01-01T00:00:00Z", vec![("k", pl_num(10))]),
        &prev,
    )
    .unwrap();
    assert_eq!(c1.items.get("k").unwrap().delta_per_sec, None);
    let snap1 = Stats::new(0, 0, vec![c1]);

    let c2 = ConnectionStats::new(
        &pl_conn("C", "2023-01-01T00:00:01Z", vec![("k", pl_num(20))]),
        &snap1,
    )
    .unwrap();
    let d = c2.items.get("k").unwrap().delta_per_sec.unwrap();
    assert_eq!(d.micros, 10_000_000);
}

#[test]
fn delta_uses_server_time_with_fractional_seconds() {
    let prev = Stats::empty();
    let c1 = ConnectionStats::new(
        &pl_conn("C", "2023-01-01T00:00:00Z", vec![("k", pl_num(0))]),
        &prev,
    )
    .unwrap();
    let snap1 = Stats::new(0, 0, vec![c1]);
    // 5 units over half a second: 10 units per second.
    let c2 = ConnectionStats::new(
        &pl_conn("C", "2023-01-01T00:00:00.500Z", vec![("k", pl_num(5))]),
        &snap1,
    )
    .unwrap();
    let d = c2.items.get("k").unwrap().delta_per_sec.unwrap();
    assert_eq!(d.micros, 10_000_000);
}

#[test]
fn zero_or_negative_elapsed_time_gives_no_delta() {
    let prev = Stats::empty();
    let c1 = ConnectionStats::new(
        &pl_conn("C", "2023-01-01T00:00:01Z", vec![("k", pl_num(10))]),
        &prev,
    )
    .unwrap();
    let snap1 = Stats::new(0, 0, vec![c1]);

    // Same server timestamp: zero elapsed time, no delta.
    let same = ConnectionStats::new(
        &pl_conn("C", "2023-01-01T00:00:01Z", vec![("k", pl_num(20))]),
        &snap1,
    )
    .unwrap();
    assert_eq!(same.items.get("k").unwrap().delta_per_sec, None);

    // Earlier server timestamp: negative elapsed time, no delta.
    let earlier = ConnectionStats::new(
        &pl_conn("C", "2023-01-01T00:00:00Z", vec![("k", pl_num(20))]),
        &snap1,
    )
    .unwrap();
    assert_eq!(earlier.items.get("k").unwrap().delta_per_sec, None);
}

#[test]
fn delta_absent_for_new_connection_or_missing_key() {
    let prev = Stats::empty();
    let c1 = ConnectionStats::new(
        &pl_conn("C", "2023-01-01T00:00:00Z", vec![("k", pl_num(10))]),
        &prev,
    )
    .unwrap();
    let snap1 = Stats::new(0, 0, vec![c1]);

    // A different connection gets no delta even for the same key.
    let other = ConnectionStats::new(
        &pl_conn("D", "2023-01-01T00:00:01Z", vec![("k", pl_num(20))]),
        &snap1,
    )
    .unwrap();
    assert_eq!(other.items.get("k").unwrap().delta_per_sec, None);

    // A key that is new this cycle gets no delta.
    let c2 = ConnectionStats::new(
        &pl_conn(
            "C",
            "2023-01-01T00:00:01Z",
            vec![("k", pl_num(20)), ("fresh", pl_num(1))],
        ),
        &snap1,
    )
    .unwrap();
    assert_eq!(c2.items.get("fresh").unwrap().delta_per_sec, None);
    assert!(c2.items.get("k").unwrap().delta_per_sec.is_some());

    // A key numeric now but textual before gets no delta.
    let c3 = ConnectionStats::new(
        &pl_conn("C", "2023-01-01T00:00:00Z", vec![("k", pl_text("t"))]),
        &prev,
    )
    .unwrap();
    let snap3 = Stats::new(0, 0, vec![c3]);
    let c4 = ConnectionStats::new(
        &pl_conn("C", "2023-01-01T00:00:01Z", vec![("k", pl_num(20))]),
        &snap3,
    )
    .unwrap();
    assert_eq!(c4.items.get("k").unwrap().delta_per_sec, None);
}

#[test]
fn malformed_records_give_each_error() {
    let prev = Stats::empty();
    assert_eq!(
        ConnectionStats::new(&RawValue::Null, &prev).unwrap_err(),
        StatsError::NotObject
    );
    assert_eq!(
        ConnectionStats::new(
            &RawValue::Object(vec![("timestamp".to_owned(), pl_text("2023-01-01T00:00:00Z"))]),
            &prev
        )
        .unwrap_err(),
        StatsError::MissingConnectionId
    );
    assert_eq!(
        ConnectionStats::new(
            &RawValue::Object(vec![
                ("connection_id".to_owned(), pl_num(1)),
                ("timestamp".to_owned(), pl_text("2023-01-01T00:00:00Z")),
            ]),
            &prev
        )
        .unwrap_err(),
        StatsError::ConnectionIdNotText
    );
    assert_eq!(
        ConnectionStats::new(
            &RawValue::Object(vec![("connection_id".to_owned(), pl_text("C"))]),
            &prev
        )
        .unwrap_err(),
        StatsError::MissingTimestamp
    );
    assert_eq!(
        ConnectionStats::new(
            &RawValue::Object(vec![
                ("connection_id".to_owned(), pl_text("C")),
                ("timestamp".to_owned(), RawValue::Bool(true)),
            ]),
            &prev
        )
        .unwrap_err(),
        StatsError::TimestampNotText
    );
    assert_eq!(
        ConnectionStats::new(
            &RawValue::Object(vec![
                ("connection_id".to_owned(), pl_text("C")),
                ("timestamp".to_owned(), pl_text("yesterday at noon")),
            ]),
            &prev
        )
        .unwrap_err(),
        StatsError::BadTimestamp
    );
}

#[test]
fn error_messages_name_the_failure() {
    assert_eq!(StatsError::NotObject.message(), "not a JSON object");
    assert_eq!(StatsError::EmptyRecordFile.message(), "empty record file");
    assert_eq!(
        StatsError::MissingConnectionId.message(),
        "missing 'connection_id'"
    );
}

#[test]
fn empty_record_file_is_fatal_at_startup() {
    assert_eq!(
        check_record_file_size(0).unwrap_err(),
        StatsError::EmptyRecordFile
    );
    assert!(check_record_file_size(1).is_ok());
}

#[test]
fn snapshot_age_is_exact_and_rejects_clock_regression() {
    let snap = Stats::new(100, 0, vec![]);
    assert_eq!(snap.age_at(150).unwrap(), 50);
    assert_eq!(snap.age_at(100).unwrap(), 0);
    assert_eq!(snap.age_at(99).unwrap_err(), StatsError::ClockWentBackwards);
}

#[test]
fn eof_finishes_without_publishing() {
    let mut poller = pl_poller();
    let prev = Stats::empty();
    let (returned, kind) = poller.handle_event(prev, PollEvent::Eof).unwrap();
    assert_eq!(kind, CycleKind::Finished);
    assert_eq!(returned.connection_count(), 0);
}

#[test]
fn empty_cycle_publishes_nothing_and_keeps_state() {
    let mut poller = pl_poller();
    let prev = Stats::empty();
    let (prev, kind) = poller.handle_event(prev, PollEvent::EmptyCycle).unwrap();
    assert_eq!(kind, CycleKind::NoData);

    // The first real batch after empty cycles still anchors the run's
    // relative time at itself.
    let batch = pl_batch(
        5_000_000,
        vec![pl_conn("C", "2023-01-01T00:00:00Z", vec![("k", pl_num(1))])],
    );
    let (snap, kind) = poller.handle_event(prev, batch).unwrap();
    assert_eq!(kind, CycleKind::Published);
    assert_eq!(snap.timestamp_micros, 0);
    assert_eq!(snap.time_micros, 5_000_000);
}

#[test]
fn relative_timestamps_anchor_to_first_cycle() {
    let mut poller = pl_poller();
    let prev = Stats::empty();
    let b1 = pl_batch(
        10_000_000,
        vec![pl_conn("C", "2023-01-01T00:00:00Z", vec![("k", pl_num(1))])],
    );
    let (s1, _) = poller.handle_event(prev, b1).unwrap();
    assert_eq!(s1.timestamp_micros, 0);
    let b2 = pl_batch(
        11_500_000,
        vec![pl_conn("C", "2023-01-01T00:00:01Z", vec![("k", pl_num(2))])],
    );
    let (s2, _) = poller.handle_event(s1, b2).unwrap();
    assert_eq!(s2.timestamp_micros, 1_500_000);
}

#[test]
fn time_going_backwards_is_fatal() {
    let mut poller = pl_poller();
    let prev = Stats::empty();
    let b1 = pl_batch(
        10_000_000,
        vec![pl_conn("C", "2023-01-01T00:00:00Z", vec![("k", pl_num(1))])],
    );
    let (s1, _) = poller.handle_event(prev, b1).unwrap();
    let b2 = pl_batch(
        9_000_000,
        vec![pl_conn("C", "2023-01-01T00:00:01Z", vec![("k", pl_num(2))])],
    );
    assert_eq!(
        poller.handle_event(s1, b2).unwrap_err(),
        StatsError::NonMonotonicTime
    );
}

#[test]
fn time_before_previous_cycle_is_fatal() {
    // Wall time must never decrease between published cycles, even when it
    // stays after the run's first cycle.
    let mut poller = pl_poller();
    let prev = Stats::empty();
    let mk = |t: i64, ts: &str| {
        pl_batch(t, vec![pl_conn("C", ts, vec![("k", pl_num(1))])])
    };
    let (s1, _) = poller
        .handle_event(prev, mk(10_000_000, "2023-01-01T00:00:00Z"))
        .unwrap();
    let (s2, _) = poller
        .handle_event(s1, mk(12_000_000, "2023-01-01T00:00:02Z"))
        .unwrap();
    assert_eq!(s2.timestamp_micros, 2_000_000);
    assert_eq!(
        poller
            .handle_event(s2, mk(11_000_000, "2023-01-01T00:00:03Z"))
            .unwrap_err(),
        StatsError::NonMonotonicTime
    );
}

#[test]
fn malformed_record_fails_the_cycle() {
    let mut poller = pl_poller();
    let prev = Stats::empty();
    let batch = pl_batch(
        1_000_000,
        vec![
            pl_conn("C", "2023-01-01T00:00:00Z", vec![("k", pl_num(1))]),
            RawValue::Null,
        ],
    );
    assert_eq!(
        poller.handle_event(prev, batch).unwrap_err(),
        StatsError::NotObject
    );
}

#[test]
fn realtime_run_with_increasing_counter_shows_rate() {
    // Three one-second cycles; bytes_sent grows by 1000 each second: the
    // second and third snapshots report a rate of 1000 per second, the
    // first none.
    let mut poller = pl_poller();
    let mut prev = Stats::empty();
    let stamps = [
        "2023-01-01T00:00:00Z",
        "2023-01-01T00:00:01Z",
        "2023-01-01T00:00:02Z",
    ];
    let mut rates: Vec<Option<i64>> = Vec::new();
    for (i, ts) in stamps.iter().enumerate() {
        let batch = pl_batch(
            (i as i64) * 1_000_000,
            vec![pl_conn(
                "C",
                ts,
                vec![("bytes_sent", pl_num(1000 * (i as i64 + 1)))],
            )],
        );
        let (snap, kind) = poller.handle_event(prev, batch).unwrap();
        assert_eq!(kind, CycleKind::Published);
        let agg = snap.aggregated.get("bytes_sent").unwrap();
        rates.push(agg.delta_per_sec.map(|d| d as i64));
        prev = snap;
    }
    assert_eq!(rates[0], None);
    assert_eq!(rates[1], Some(1000 * 1_000_000));
    assert_eq!(rates[2], Some(1000 * 1_000_000));
}

#[test]
fn replaying_recorded_batches_reproduces_the_run() {
    // A realtime run with an empty (failed) cycle in the middle; recording
    // keeps only the successful batches. Replaying them yields the same
    // number of snapshots with the same content, in the same order.
    let batches: Vec<(i64, &str, i64)> = vec![
        (0, "2023-01-01T00:00:00Z", 100),
        (1_000_000, "2023-01-01T00:00:01Z", 250),
        (2_000_000, "2023-01-01T00:00:02Z", 475),
    ];
    let make_batch = |(t, ts, v): (i64, &str, i64)| {
        pl_batch(t, vec![pl_conn("C", ts, vec![("k", pl_num(v))])])
    };

    // Realtime: an empty cycle between the first and second fetch.
    let mut live = pl_poller();
    let mut prev = Stats::empty();
    let mut live_snaps: Vec<Stats> = Vec::new();
    for (i, b) in batches.iter().enumerate() {
        if i == 1 {
            let (p, kind) = live.handle_event(prev, PollEvent::EmptyCycle).unwrap();
            assert_eq!(kind, CycleKind::NoData);
            prev = p;
        }
        let (snap, kind) = live.handle_event(prev, make_batch(*b)).unwrap();
        assert_eq!(kind, CycleKind::Published);
        live_snaps.push(snap.clone());
        prev = snap;
    }

    // Replay: the recorded batches alone.
    let mut replay = pl_poller();
    let mut prev = Stats::empty();
    let mut replay_snaps: Vec<Stats> = Vec::new();
    for b in batches.iter() {
        let (snap, kind) = replay.handle_event(prev, make_batch(*b)).unwrap();
        assert_eq!(kind, CycleKind::Published);
        replay_snaps.push(snap.clone());
        prev = snap;
    }
    let (_, kind) = replay.handle_event(prev, PollEvent::Eof).unwrap();
    assert_eq!(kind, CycleKind::Finished);

    assert_eq!(live_snaps.len(), replay_snaps.len());
    for (a, b) in live_snaps.iter().zip(replay_snaps.iter()) {
        assert_eq!(a.time_micros, b.time_micros);
        assert_eq!(a.timestamp_micros, b.timestamp_micros);
        assert_eq!(a.connection_count(), b.connection_count());
        let av = a.aggregated.get("k").unwrap();
        let bv = b.aggregated.get("k").unwrap();
        assert_eq!(av.value_sum, bv.value_sum);
        assert_eq!(av.delta_per_sec, bv.delta_per_sec);
    }
    // The recomputed deltas match the recorded content: 150 then 225 per
    // second.
    assert_eq!(replay_snaps[0].aggregated.get("k").unwrap().delta_per_sec, None);
    assert_eq!(
        replay_snaps[1].aggregated.get("k").unwrap().delta_per_sec,
        Some(150 * 1_000_000)
    );
    assert_eq!(
        replay_snaps[2].aggregated.get("k").unwrap().delta_per_sec,
        Some(225 * 1_000_000)
    );
}

#[test]
fn deltas_use_previously_published_filtered_snapshot() {
    // The previous snapshot is the published, post-filter one: a key
    // dropped by the key filter last cycle yields no delta this cycle.
    let mut poller = StatsPoller::new(
        regex::Regex::new(".*:.*").unwrap(),
        regex::Regex::new("^keep").unwrap(),
    );
    let prev = Stats::empty();
    let b1 = pl_batch(
        0,
        vec![pl_conn(
            "C",
            "2023-01-01T00:00:00Z",
            vec![("keep_k", pl_num(1)), ("drop_k", pl_num(1))],
        )],
    );
    let (s1, _) = poller.handle_event(prev, b1).unwrap();
    assert!(s1.aggregated.get("drop_k").is_none());
    let b2 = pl_batch(
        1_000_000,
        vec![pl_conn(
            "C",
            "2023-01-01T00:00:01Z",
            vec![("keep_k", pl_num(3)), ("drop_k", pl_num(3))],
        )],
    );
    let (s2, _) = poller.handle_event(s1, b2).unwrap();
    let kept = s2.aggregated.get("keep_k").unwrap();
    assert_eq!(kept.delta_per_sec, Some(2 * 1_000_000));
    // drop_k was invisible in the published previous snapshot, so it has no
    // delta now either (and is filtered out again anyway).
    assert!(s2.aggregated.get("drop_k").is_none());
}
