//! The poll/replay cycle: one step of the pipeline, as a state machine over
//! events.
//!
//! A source (live endpoint or recorded file) produces one `PollEvent` per
//! cycle; `StatsPoller::handle_event` turns it into the cycle's outcome. The
//! previous snapshot is threaded through explicitly, so the whole cycle is a
//! function of its inputs; `spec_step` is that function, and the replay
//! determinism law is proved of it.
use crate::agg::spec_aggregate;
use crate::conn::{spec_connection, ConnView, ConnectionStats};
use crate::error::StatsError;
use crate::filter::{apply_filters, spec_apply_filters};
use crate::pattern::regex_pattern;
use crate::raw::{lemma_raw_seq_view, raw_seq_view, raw_view, RawValue, RawView};
use crate::stats::{conns_by_id, Stats, StatsView};
use vstd::prelude::*;

verus! {

/// One recorded cycle: the wall time of the fetch and the raw connection
/// values as received.
pub struct RecordItem {
    pub time_micros: i64,
    pub values: Vec<RawValue>,
}

/// The mathematical value of a recorded cycle.
pub struct RecordItemView {
    pub time_micros: int,
    pub values: Seq<RawView>,
}

impl View for RecordItem {
    type V = RecordItemView;

    open spec fn view(&self) -> RecordItemView {
        RecordItemView {
            time_micros: self.time_micros as int,
            values: raw_seq_view(self.values@),
        }
    }
}

/// What the source produced in one cycle: a batch of raw connection values,
/// nothing (a transient failure), or the end of the recorded input.
pub enum PollEvent {
    Batch(RecordItem),
    EmptyCycle,
    Eof,
}

/// The mathematical value of a cycle's event.
pub enum EventView {
    Batch(RecordItemView),
    EmptyCycle,
    Eof,
}

impl View for PollEvent {
    type V = EventView;

    open spec fn view(&self) -> EventView {
        match self {
            PollEvent::Batch(item) => EventView::Batch(item@),
            PollEvent::EmptyCycle => EventView::EmptyCycle,
            PollEvent::Eof => EventView::Eof,
        }
    }
}

/// How one cycle ended: a snapshot was published, there was no fresh data,
/// or the source is finished.
#[derive(Clone, Copy, Debug, PartialEq, Eq, Structural)]
pub enum CycleKind {
    Published,
    NoData,
    Finished,
}

/// The pipeline's own state: the two filters, fixed for the run, and the
/// wall time of the first cycle, set once.
pub struct StatsPoller {
    pub connection_filter: regex::Regex,
    pub stats_key_filter: regex::Regex,
    pub start_micros: Option<i64>,
}

/// The mathematical value of the pipeline state.
pub struct PollerView {
    pub conn_pat: Seq<char>,
    pub key_pat: Seq<char>,
    pub start_micros: Option<int>,
}

impl View for StatsPoller {
    type V = PollerView;

    open spec fn view(&self) -> PollerView {
        PollerView {
            conn_pat: regex_pattern(self.connection_filter),
            key_pat: regex_pattern(self.stats_key_filter),
            start_micros: match self.start_micros {
                Some(s) => Some(s as int),
                None => None,
            },
        }
    }
}

/// The connection records of one batch, in order, stopping at the first
/// malformed record.
pub open spec fn spec_parse_conns(values: Seq<RawView>, prev: StatsView) -> Result<
    Seq<ConnView>,
    StatsError,
>
    decreases values.len(),
{
    if values.len() == 0 {
        Ok(Seq::empty())
    } else {
        match spec_parse_conns(values.drop_last(), prev) {
            Err(e) => Err(e),
            Ok(s) => match spec_connection(values.last(), prev.connections) {
                Err(e) => Err(e),
                Ok(c) => Ok(s.push(c)),
            },
        }
    }
}

/// One successful batch: parse every record against the previous snapshot,
/// apply both filters, aggregate, and stamp the snapshot with the batch's
/// wall time and its offset from the run's first cycle.
pub open spec fn spec_process_batch(p: PollerView, prev: StatsView, item: RecordItemView) -> Result<
    (PollerView, StatsView),
    StatsError,
> {
    let start = match p.start_micros {
        Some(s) => s,
        None => item.time_micros,
    };
    if item.time_micros < start || (p.start_micros is Some && item.time_micros
        < prev.time_micros) {
        Err(StatsError::NonMonotonicTime)
    } else {
        match spec_parse_conns(item.values, prev) {
            Err(e) => Err(e),
            Ok(conns) => {
                let filtered = spec_apply_filters(p.conn_pat, p.key_pat, conns);
                let snap = StatsView {
                    time_micros: item.time_micros,
                    timestamp_micros: item.time_micros - start,
                    aggregated: spec_aggregate(filtered),
                    connections: conns_by_id(filtered),
                };
                Ok(
                    (
                        PollerView {
                            conn_pat: p.conn_pat,
                            key_pat: p.key_pat,
                            start_micros: Some(start),
                        },
                        snap,
                    ),
                )
            },
        }
    }
}

/// One cycle of the pipeline: a batch produces a new snapshot, which becomes
/// the previous snapshot of the next cycle; an empty cycle and the end of
/// input leave the state unchanged.
pub open spec fn spec_step(p: PollerView, prev: StatsView, ev: EventView) -> Result<
    (PollerView, StatsView, CycleKind),
    StatsError,
> {
    match ev {
        EventView::Batch(item) => match spec_process_batch(p, prev, item) {
            Ok((p2, snap)) => Ok((p2, snap, CycleKind::Published)),
            Err(e) => Err(e),
        },
        EventView::EmptyCycle => Ok((p, prev, CycleKind::NoData)),
        EventView::Eof => Ok((p, prev, CycleKind::Finished)),
    }
}

impl StatsPoller {
    /// A pipeline before its first cycle.
    pub fn new(connection_filter: regex::Regex, stats_key_filter: regex::Regex) -> (r: StatsPoller)
        ensures
            r@.conn_pat == regex_pattern(connection_filter),
            r@.key_pat == regex_pattern(stats_key_filter),
            r@.start_micros is None,
    {
        StatsPoller { connection_filter, stats_key_filter, start_micros: None }
    }

    /// Runs one cycle: takes the most recently published snapshot and the
    /// cycle's event, and returns the snapshot to publish (the event's batch
    /// processed, or the previous snapshot again) with the cycle's outcome.
    /// On an error the pipeline state is unchanged and the run is over.
    pub fn handle_event(&mut self, prev: Stats, ev: PollEvent) -> (r: Result<
        (Stats, CycleKind),
        StatsError,
    >)
        requires
            prev.wf(),
        ensures
            match r {
                Ok((snap, kind)) => snap.wf() && spec_step(old(self)@, prev@, ev@) == Ok::<
                    (PollerView, StatsView, CycleKind),
                    StatsError,
                >((final(self)@, snap@, kind)),
                Err(e) => spec_step(old(self)@, prev@, ev@) == Err::<
                    (PollerView, StatsView, CycleKind),
                    StatsError,
                >(e) && final(self)@ == old(self)@,
            },
    {
        match &ev {
            PollEvent::EmptyCycle => Ok((prev, CycleKind::NoData)),
            PollEvent::Eof => Ok((prev, CycleKind::Finished)),
            PollEvent::Batch(item) => {
                proof {
                    assert(ev@ == EventView::Batch(item@));
                }
                let start: i64 = match self.start_micros {
                    Some(s) => s,
                    None => item.time_micros,
                };
                if item.time_micros < start || (self.start_micros.is_some()
                    && item.time_micros < prev.time_micros) {
                    return Err(StatsError::NonMonotonicTime);
                }
                let ghost vv = raw_seq_view(item.values@);
                proof {
                    lemma_raw_seq_view(item.values@);
                }
                let mut conns: Vec<ConnectionStats> = Vec::new();
                let mut i: usize = 0;
                proof {
                    assert(vv.take(0) =~= Seq::<RawView>::empty());
                    assert(crate::agg::conns_view(conns@) =~= Seq::<ConnView>::empty());
                }
                while i < item.values.len()
                    invariant
                        prev.wf(),
                        ev@ == EventView::Batch(item@),
                        self@ == old(self)@,
                        match self@.start_micros {
                            Some(s) => start as int == s,
                            None => start == item.time_micros,
                        },
                        item.time_micros >= start,
                        old(self)@.start_micros is Some ==> item.time_micros
                            >= prev.time_micros,
                        i <= item.values@.len(),
                        vv == raw_seq_view(item.values@),
                        vv.len() == item.values@.len(),
                        forall|j: int| 0 <= j < item.values@.len() ==> #[trigger] vv[j]
                            == raw_view(item.values@[j]),
                        crate::agg::conns_wf(conns@),
                        spec_parse_conns(vv.take(i as int), prev@) == Ok::<
                            Seq<ConnView>,
                            StatsError,
                        >(crate::agg::conns_view(conns@)),
                    decreases item.values@.len() - i,
                {
                    let ghost conns_before = crate::agg::conns_view(conns@);
                    let c = match ConnectionStats::new(&item.values[i], &prev) {
                        Ok(c) => c,
                        Err(e) => {
                            proof {
                                assert(vv.take(i as int + 1).drop_last() =~= vv.take(i as int));
                                assert(vv.take(i as int + 1).last() == vv[i as int]);
                                lemma_parse_prefix_err(vv, prev@, i as int, e);
                                assert(spec_parse_conns(item@.values, prev@) == Err::<
                                    Seq<ConnView>,
                                    StatsError,
                                >(e));
                                assert(match old(self)@.start_micros {
                                    Some(s) => s == start as int,
                                    None => start == item.time_micros,
                                });
                                assert(spec_process_batch(old(self)@, prev@, item@) == Err::<
                                    (PollerView, StatsView),
                                    StatsError,
                                >(e));
                            }
                            return Err(e);
                        },
                    };
                    conns.push(c);
                    proof {
                        assert(vv.take(i as int + 1).drop_last() =~= vv.take(i as int));
                        assert(vv.take(i as int + 1).last() == vv[i as int]);
                        assert(crate::agg::conns_view(conns@) =~= conns_before.push(c@));
                        assert forall|j: int| 0 <= j < conns@.len() implies (
                        #[trigger] conns@[j]).wf() by {}
                    }
                    i += 1;
                }
                proof {
                    assert(vv.take(item.values@.len() as int) =~= vv);
                }
                let filtered = apply_filters(
                    &self.connection_filter,
                    &self.stats_key_filter,
                    conns,
                );
                let d: i128 = item.time_micros as i128 - start as i128;
                let rel: u64 = d as u64;
                let snap = Stats::new(item.time_micros, rel, filtered);
                self.start_micros = Some(start);
                proof {
                    let stepped = spec_step(old(self)@, prev@, ev@);
                    assert(stepped is Ok);
                    let (p2, sv, kind) = stepped->Ok_0;
                    assert(p2 == self@);
                    assert(kind == CycleKind::Published);
                    assert(sv.aggregated == snap@.aggregated);
                    assert(sv.connections == snap@.connections);
                    assert(sv.time_micros == snap@.time_micros);
                    assert(sv.timestamp_micros == snap@.timestamp_micros);
                }
                Ok((snap, CycleKind::Published))
            },
        }
    }
}

/// A malformed record fails the whole batch: if every earlier record parses
/// and record `i` fails, the batch's parse fails with that record's error.
proof fn lemma_parse_prefix_err(values: Seq<RawView>, prev: StatsView, i: int, e: StatsError)
    requires
        0 <= i < values.len(),
        spec_parse_conns(values.take(i), prev) is Ok,
        spec_connection(values[i], prev.connections) == Err::<ConnView, StatsError>(e),
    ensures
        spec_parse_conns(values, prev) == Err::<Seq<ConnView>, StatsError>(e),
    decreases values.len(),
{
    if values.len() - 1 == i {
        assert(values.drop_last() =~= values.take(i));
        assert(values.last() == values[i]);
    } else {
        assert(values.drop_last().take(i) =~= values.take(i));
        assert(values.drop_last()[i] == values[i]);
        lemma_parse_prefix_err(values.drop_last(), prev, i, e);
    }
}

/// The published outputs of a run over a sequence of cycles: one entry per
/// cycle until the input ends or a record fails to parse; `Some` for a
/// published snapshot, `None` for an empty cycle.
pub open spec fn spec_run(p: PollerView, prev: StatsView, evs: Seq<EventView>) -> Seq<
    Option<StatsView>,
>
    decreases evs.len(),
{
    if evs.len() == 0 {
        Seq::empty()
    } else {
        match spec_step(p, prev, evs.first()) {
            Err(_) => Seq::empty(),
            Ok((p2, s2, kind)) => match kind {
                CycleKind::Finished => Seq::empty(),
                CycleKind::Published => seq![Some(s2)] + spec_run(p2, s2, evs.drop_first()),
                CycleKind::NoData => seq![None] + spec_run(p2, s2, evs.drop_first()),
            },
        }
    }
}

/// Replay determinism. A recording holds exactly the batches of the
/// successful cycles of a run; empty cycles are not recorded. Replaying
/// those batches from the same starting state publishes exactly the
/// snapshots the original run published, in the same order: deltas and
/// aggregates depend only on the recorded content, not on the source.
pub proof fn lemma_replay_determinism(p: PollerView, prev: StatsView, evs: Seq<EventView>)
    requires
        forall|i: int| 0 <= i < evs.len() ==> !((#[trigger] evs[i]) is Eof),
    ensures
        spec_run(p, prev, evs.filter(|e: EventView| e is Batch)) == spec_run(p, prev, evs)
            .filter(|o: Option<StatsView>| o is Some),
    decreases evs.len(),
{
    let is_batch = |e: EventView| e is Batch;
    let is_some = |o: Option<StatsView>| o is Some;
    broadcast use vstd::seq_lib::group_seq_properties;

    reveal_with_fuel(Seq::filter, 3);

    if evs.len() == 0 {
        assert(evs.filter(is_batch) =~= Seq::<EventView>::empty());
        assert(spec_run(p, prev, evs).filter(is_some) =~= Seq::<Option<StatsView>>::empty());
    } else {
        let first = evs.first();
        let rest = evs.drop_first();
        assert(evs =~= seq![first] + rest);
        Seq::filter_distributes_over_add(seq![first], rest, is_batch);
        assert forall|i: int| 0 <= i < rest.len() implies !((#[trigger] rest[i]) is Eof) by {
            assert(rest[i] == evs[i + 1]);
        }
        lemma_replay_determinism(p, prev, rest);
        assert(!(first is Eof));
        if first is EmptyCycle {
            assert(spec_step(p, prev, first) == Ok::<
                (PollerView, StatsView, CycleKind),
                StatsError,
            >((p, prev, CycleKind::NoData)));
            assert(spec_run(p, prev, evs) =~= seq![None::<StatsView>] + spec_run(p, prev, rest));
            assert(seq![first].filter(is_batch) =~= Seq::<EventView>::empty());
            assert(evs.filter(is_batch) =~= rest.filter(is_batch));
            Seq::filter_distributes_over_add(
                seq![None::<StatsView>],
                spec_run(p, prev, rest),
                is_some,
            );
            assert(seq![None::<StatsView>].filter(is_some) =~= Seq::<Option<StatsView>>::empty());
            assert(spec_run(p, prev, evs).filter(is_some) =~= spec_run(p, prev, rest).filter(
                is_some,
            ));
        } else {
            let item = first->Batch_0;
            match spec_process_batch(p, prev, item) {
                Err(e) => {
                    assert(spec_run(p, prev, evs) =~= Seq::<Option<StatsView>>::empty());
                    assert(seq![first].filter(is_batch) =~= seq![first]);
                    assert(evs.filter(is_batch) =~= seq![first] + rest.filter(is_batch));
                    assert(evs.filter(is_batch).first() == first);
                    assert(evs.filter(is_batch).len() > 0);
                    assert(spec_run(p, prev, evs.filter(is_batch)) =~= Seq::<
                        Option<StatsView>,
                    >::empty());
                    assert(spec_run(p, prev, evs).filter(is_some) =~= Seq::<
                        Option<StatsView>,
                    >::empty());
                },
                Ok((p2, s2)) => {
                    assert(spec_run(p, prev, evs) =~= seq![Some(s2)] + spec_run(p2, s2, rest));
                    assert(seq![first].filter(is_batch) =~= seq![first]);
                    assert(evs.filter(is_batch) =~= seq![first] + rest.filter(is_batch));
                    let fb = evs.filter(is_batch);
                    assert(fb.first() == first);
                    assert(fb.drop_first() =~= rest.filter(is_batch));
                    assert(spec_run(p, prev, fb) =~= seq![Some(s2)] + spec_run(
                        p2,
                        s2,
                        rest.filter(is_batch),
                    ));
                    lemma_replay_determinism(p2, s2, rest);
                    Seq::filter_distributes_over_add(
                        seq![Some(s2)],
                        spec_run(p2, s2, rest),
                        is_some,
                    );
                    assert(seq![Some(s2)].filter(is_some) =~= seq![Some(s2)]);
                    assert(spec_run(p, prev, evs).filter(is_some) =~= seq![Some(s2)] + spec_run(
                        p2,
                        s2,
                        rest,
                    ).filter(is_some));
                },
            }
        }
    }
}

/// The timestamps of published snapshots are anchored and ordered: along any
/// run whose previous snapshot is consistent with the pipeline state (the
/// seed snapshot before the first batch, or the last published snapshot
/// after it), the first published snapshot of a fresh run has relative
/// timestamp zero, every published snapshot's relative timestamp is at least
/// the previous one's, and none is negative.
pub proof fn lemma_relative_time_monotonic(p: PollerView, prev: StatsView, evs: Seq<EventView>)
    requires
        match p.start_micros {
            Some(s) => prev.time_micros >= s && prev.timestamp_micros == prev.time_micros - s,
            None => prev.timestamp_micros == 0,
        },
    ensures
        forall|i: int|
            0 <= i < spec_run(p, prev, evs).len() && (#[trigger] spec_run(p, prev, evs)[i])
                is Some ==> spec_run(p, prev, evs)[i]->0.timestamp_micros
                >= prev.timestamp_micros,
        forall|i: int, j: int|
            0 <= i < j < spec_run(p, prev, evs).len() && (#[trigger] spec_run(p, prev, evs)[i])
                is Some && (#[trigger] spec_run(p, prev, evs)[j]) is Some ==> spec_run(
                p,
                prev,
                evs,
            )[i]->0.timestamp_micros <= spec_run(p, prev, evs)[j]->0.timestamp_micros,
        p.start_micros is None ==> forall|i: int|
            0 <= i < spec_run(p, prev, evs).len() && (#[trigger] spec_run(p, prev, evs)[i])
                is Some && (forall|i2: int|
                0 <= i2 < i ==> !((#[trigger] spec_run(p, prev, evs)[i2]) is Some)) ==> spec_run(
                p,
                prev,
                evs,
            )[i]->0.timestamp_micros == 0,
    decreases evs.len(),
{
    let outs = spec_run(p, prev, evs);
    if evs.len() > 0 {
        let first = evs.first();
        let rest = evs.drop_first();
        match spec_step(p, prev, first) {
            Err(_) => {},
            Ok((p2, s2, kind)) => {
                match kind {
                    CycleKind::Finished => {},
                    CycleKind::NoData => {
                        assert(p2 == p && s2 == prev);
                        lemma_relative_time_monotonic(p, prev, rest);
                        let tail = spec_run(p, prev, rest);
                        assert(outs =~= seq![None::<StatsView>] + tail);
                        assert forall|i: int| 0 <= i < outs.len() && (#[trigger] outs[i])
                            is Some implies outs[i]->0.timestamp_micros
                            >= prev.timestamp_micros by {
                            assert(outs[i] == tail[i - 1]);
                        }
                        assert forall|i: int, j: int|
                            0 <= i < j < outs.len() && (#[trigger] outs[i]) is Some && (
                            #[trigger] outs[j]) is Some implies outs[i]->0.timestamp_micros
                            <= outs[j]->0.timestamp_micros by {
                            assert(outs[i] == tail[i - 1]);
                            assert(outs[j] == tail[j - 1]);
                        }
                        if p.start_micros is None {
                            assert forall|i: int|
                                0 <= i < outs.len() && (#[trigger] outs[i]) is Some && (forall|
                                    i2: int,
                                |
                                    0 <= i2 < i ==> !((#[trigger] outs[i2]) is Some)) implies
                                outs[i]->0.timestamp_micros == 0 by {
                                assert(outs[i] == tail[i - 1]);
                                assert forall|i2: int| 0 <= i2 < i - 1 implies !((
                                #[trigger] tail[i2]) is Some) by {
                                    assert(tail[i2] == outs[i2 + 1]);
                                }
                            }
                        }
                    },
                    CycleKind::Published => {
                        let item = first->Batch_0;
                        let start = match p.start_micros {
                            Some(s) => s,
                            None => item.time_micros,
                        };
                        assert(s2.time_micros == item.time_micros);
                        assert(s2.timestamp_micros == item.time_micros - start);
                        assert(s2.timestamp_micros >= prev.timestamp_micros);
                        assert(p2.start_micros == Some(start));
                        lemma_relative_time_monotonic(p2, s2, rest);
                        let tail = spec_run(p2, s2, rest);
                        assert(outs =~= seq![Some(s2)] + tail);
                        assert forall|i: int| 0 <= i < outs.len() && (#[trigger] outs[i])
                            is Some implies outs[i]->0.timestamp_micros
                            >= prev.timestamp_micros by {
                            if i > 0 {
                                assert(outs[i] == tail[i - 1]);
                                assert(outs[i]->0.timestamp_micros >= s2.timestamp_micros);
                            }
                        }
                        assert forall|i: int, j: int|
                            0 <= i < j < outs.len() && (#[trigger] outs[i]) is Some && (
                            #[trigger] outs[j]) is Some implies outs[i]->0.timestamp_micros
                            <= outs[j]->0.timestamp_micros by {
                            assert(outs[j] == tail[j - 1]);
                            if i > 0 {
                                assert(outs[i] == tail[i - 1]);
                            } else {
                                assert(outs[j]->0.timestamp_micros >= s2.timestamp_micros);
                            }
                        }
                        if p.start_micros is None {
                            assert(s2.timestamp_micros == 0);
                            assert forall|i: int|
                                0 <= i < outs.len() && (#[trigger] outs[i]) is Some && (forall|
                                    i2: int,
                                |
                                    0 <= i2 < i ==> !((#[trigger] outs[i2]) is Some)) implies
                                outs[i]->0.timestamp_micros == 0 by {
                                if i > 0 {
                                    assert(outs[0] is Some);
                                    assert(false);
                                }
                            }
                        }
                    },
                }
            },
        }
    }
}

/// How long to sleep before the next request: the polling interval less the
/// time the last cycle took, and never a negative duration.
pub fn sleep_duration_micros(polling_interval_micros: u64, elapsed_micros: u64) -> (r: u64)
    ensures
        r == if elapsed_micros < polling_interval_micros {
            polling_interval_micros - elapsed_micros
        } else {
            0
        },
{
    if elapsed_micros < polling_interval_micros {
        polling_interval_micros - elapsed_micros
    } else {
        0
    }
}

/// Whether a record file can be replayed: an empty file is a fatal startup
/// error, before any cycle runs.
pub fn check_record_file_size(len: u64) -> (r: Result<(), StatsError>)
    ensures
        r is Ok <==> len > 0,
        r is Err ==> r->Err_0 == StatsError::EmptyRecordFile,
{
    if len == 0 {
        Err(StatsError::EmptyRecordFile)
    } else {
        Ok(())
    }
}

} // verus!
