//! The finished snapshot of one poll or replay cycle.
use crate::agg::{conns_view, conns_wf, spec_aggregate, AggregatedStats};
use crate::conn::{ConnectionStats, ConnView};
use crate::error::StatsError;
use crate::kvmap::{sorted_keys, KvMap};
use crate::pattern::{regex_is_match, regex_match, regex_pattern};
use crate::time::system_now_micros;
use crate::value::AggItemView;
use vstd::prelude::*;

verus! {

/// One cycle's fully processed snapshot: the wall time of the cycle, the
/// duration since the run's first snapshot, the per-key aggregation, and the
/// surviving connections keyed by identifier.
#[derive(Clone, Debug)]
pub struct Stats {
    pub time_micros: i64,
    pub timestamp_micros: u64,
    pub aggregated: AggregatedStats,
    pub connections: KvMap<ConnectionStats>,
}

/// The mathematical value of a snapshot.
pub struct StatsView {
    pub time_micros: int,
    pub timestamp_micros: int,
    pub aggregated: Map<Seq<char>, AggItemView>,
    pub connections: Map<Seq<char>, ConnView>,
}

/// The views of a connection map's values.
pub open spec fn conns_map_view(m: Map<Seq<char>, ConnectionStats>) -> Map<Seq<char>, ConnView> {
    Map::new(|k: Seq<char>| m.dom().contains(k), |k: Seq<char>| m[k]@)
}

/// The connections keyed by identifier; a later connection with the same
/// identifier replaces an earlier one.
pub open spec fn conns_by_id(s: Seq<ConnView>) -> Map<Seq<char>, ConnView>
    decreases s.len(),
{
    if s.len() == 0 {
        Map::empty()
    } else {
        conns_by_id(s.drop_last()).insert(s.last().connection_id, s.last())
    }
}

impl View for Stats {
    type V = StatsView;

    open spec fn view(&self) -> StatsView {
        StatsView {
            time_micros: self.time_micros as int,
            timestamp_micros: self.timestamp_micros as int,
            aggregated: self.aggregated@,
            connections: conns_map_view(self.connections@),
        }
    }
}

/// The view of a snapshot's connection map agrees with the exec map.
pub proof fn lemma_stats_connections(s: Stats, id: Seq<char>)
    ensures
        s@.connections.dom().contains(id) == s.connections@.dom().contains(id),
        s@.connections.dom().contains(id) ==> s@.connections[id] == s.connections@[id]@,
{
}

impl Stats {
    /// Keys are distinct, the connections are listed in ascending identifier
    /// order, and every connection is well-formed.
    pub open spec fn wf(self) -> bool {
        &&& self.aggregated.wf()
        &&& self.connections.wf()
        &&& sorted_keys(self.connections.entries())
        &&& forall|k: Seq<char>| #[trigger] self.connections@.dom().contains(k)
            ==> self.connections@[k].wf()
    }

    /// Assembles the snapshot of one cycle from its wall time, its offset
    /// since the run's first cycle, and the surviving connections.
    pub fn new(time_micros: i64, timestamp_micros: u64, connections: Vec<ConnectionStats>) -> (r:
        Stats)
        requires
            conns_wf(connections@),
        ensures
            r.wf(),
            r.time_micros == time_micros,
            r.timestamp_micros == timestamp_micros,
            r@.aggregated == spec_aggregate(conns_view(connections@)),
            r@.connections == conns_by_id(conns_view(connections@)),
    {
        let aggregated = AggregatedStats::new(&connections);
        let ghost cv = conns_view(connections@);
        let ghost orig = connections@;
        let total: usize = connections.len();
        proof {
            assert(orig.len() == total);
        }
        let mut rest = connections;
        let mut map: KvMap<ConnectionStats> = KvMap::new();
        let mut i: usize = 0;
        proof {
            assert(rest@ =~= orig.skip(0));
            assert(orig.len() <= usize::MAX);
            assert(conns_map_view(map@) =~= conns_by_id(cv.take(0)));
        }
        while rest.len() > 0
            invariant
                conns_wf(orig),
                cv == conns_view(orig),
                cv.len() == orig.len(),
                i <= orig.len(),
                orig.len() <= usize::MAX,
                rest@ == orig.skip(i as int),
                map.wf(),
                sorted_keys(map.entries()),
                conns_map_view(map@) == conns_by_id(cv.take(i as int)),
                forall|k: Seq<char>| #[trigger] map@.dom().contains(k) ==> map@[k].wf(),
            decreases rest@.len(),
        {
            proof {
                assert(orig.skip(i as int).len() > 0);
                assert(i < orig.len());
            }
            let c: ConnectionStats = rest.remove(0);
            proof {
                assert(orig.skip(i as int)[0] == orig[i as int]);
                assert(rest@ =~= orig.skip(i as int + 1));
                assert(orig[i as int].wf());
                assert(cv[i as int] == orig[i as int]@);
            }
            let id: String = c.connection_id.clone();
            let ghost map_before = map@;
            map.insert_sorted(id, c);
            proof {
                assert(cv.take(i as int + 1).drop_last() =~= cv.take(i as int));
                assert(cv.take(i as int + 1).last() == cv[i as int]);
                assert(conns_map_view(map@) =~= conns_by_id(cv.take(i as int + 1)));
            }
            i += 1;
        }
        proof {
            assert(cv.take(i as int) =~= cv);
        }
        Stats { time_micros, timestamp_micros, aggregated, connections: map }
    }

    /// An empty snapshot stamped with the current wall time; the seed for the
    /// first cycle's delta computation.
    pub fn empty() -> (r: Stats)
        ensures
            r.wf(),
            r.timestamp_micros == 0,
            r@.aggregated == Map::<Seq<char>, AggItemView>::empty(),
            r@.connections == Map::<Seq<char>, ConnView>::empty(),
    {
        let now = system_now_micros();
        let aggregated = AggregatedStats { items: KvMap::new() };
        let connections: KvMap<ConnectionStats> = KvMap::new();
        proof {
            assert(aggregated@ =~= Map::<Seq<char>, AggItemView>::empty());
            assert(conns_map_view(connections@) =~= Map::<Seq<char>, ConnView>::empty());
        }
        Stats { time_micros: now, timestamp_micros: 0, aggregated, connections }
    }

    /// The snapshot's age at the given wall time: the elapsed microseconds,
    /// or an error when that time lies before the snapshot's.
    pub fn age_at(&self, now_micros: i64) -> (r: Result<u64, StatsError>)
        ensures
            match r {
                Ok(age) => now_micros >= self.time_micros && age == now_micros
                    - self.time_micros,
                Err(e) => now_micros < self.time_micros && e
                    == StatsError::ClockWentBackwards,
            },
    {
        if now_micros >= self.time_micros {
            let d: i128 = now_micros as i128 - self.time_micros as i128;
            Ok(d as u64)
        } else {
            Err(StatsError::ClockWentBackwards)
        }
    }

    /// The age of the snapshot by the system clock; an error when the clock
    /// has gone backwards past the snapshot's wall time.
    pub fn timestamp(&self) -> (r: Result<u64, StatsError>)
        ensures
            r is Err ==> r->Err_0 == StatsError::ClockWentBackwards,
    {
        self.age_at(system_now_micros())
    }

    /// The number of connections in the snapshot.
    pub fn connection_count(&self) -> (n: usize)
        ensures
            n == self.connections.entries().len(),
    {
        self.connections.len()
    }

    /// The number of aggregated keys that match the filter.
    pub fn filtered_item_count(&self, filter: &regex::Regex) -> (n: usize)
        requires
            self.wf(),
        ensures
            n == self.aggregated.items.entries().filter(
                |p: (Seq<char>, crate::value::AggregatedStatsItemValue)|
                    regex_match(regex_pattern(*filter), p.0),
            ).len(),
    {
        let ghost pred = |p: (Seq<char>, crate::value::AggregatedStatsItemValue)|
            regex_match(regex_pattern(*filter), p.0);
        let entries = &self.aggregated.items.pairs;
        let mut n: usize = 0;
        let mut i: usize = 0;
        proof {
            assert(self.aggregated.items.entries().take(0) =~= Seq::<
                (Seq<char>, crate::value::AggregatedStatsItemValue),
            >::empty());
            reveal_with_fuel(Seq::filter, 2);
        }
        while i < entries.len()
            invariant
                i <= entries@.len(),
                entries == &self.aggregated.items.pairs,
                pred == (|p: (Seq<char>, crate::value::AggregatedStatsItemValue)|
                    regex_match(regex_pattern(*filter), p.0)),
                n == self.aggregated.items.entries().take(i as int).filter(pred).len(),
                n <= i,
            decreases entries@.len() - i,
        {
            let matched = regex_is_match(filter, entries[i].0.as_str());
            proof {
                reveal_with_fuel(Seq::filter, 2);
                let es = self.aggregated.items.entries();
                assert(es.take(i as int + 1).drop_last() =~= es.take(i as int));
                assert(es.take(i as int + 1).last() == es[i as int]);
                assert(es[i as int].0 == entries@[i as int].0@);
                assert(pred(es[i as int]) == matched);
            }
            if matched {
                n += 1;
            }
            i += 1;
        }
        proof {
            assert(self.aggregated.items.entries().take(entries@.len() as int) =~= self
                .aggregated.items.entries());
        }
        n
    }
}

} // verus!
