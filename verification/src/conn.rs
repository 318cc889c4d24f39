//! One connection's parsed, flattened and rate-annotated statistics.
use crate::error::StatsError;
use crate::flatten::{flat_top, flatten_connection, items_all_wf, view_items};
use crate::kvmap::{map_of_entries, KvMap};
use crate::num::{rate_per_sec, spec_rate, FixedNum};
use crate::raw::{find_field, raw_view, RawValue, RawView};
use crate::time::{parse_rfc3339_micros, rfc3339_micros};
use crate::value::{ConnItemView, ConnectionStatsItemValue, SpecValue, StatsItemValue};
use vstd::prelude::*;

verus! {

/// The statistics of one connection in one cycle: its identifier, the
/// server-reported timestamp in microseconds since the epoch, and the
/// flattened items, each with its rate of change since the previous
/// snapshot's observation of the same connection.
#[derive(Clone, Debug)]
pub struct ConnectionStats {
    pub connection_id: String,
    pub timestamp_micros: i64,
    pub items: KvMap<ConnectionStatsItemValue>,
}

/// The mathematical value of a connection's statistics.
pub struct ConnView {
    pub connection_id: Seq<char>,
    pub timestamp_micros: int,
    pub items: Map<Seq<char>, ConnItemView>,
}

/// The views of an item map's values.
pub open spec fn conn_items_view(m: Map<Seq<char>, ConnectionStatsItemValue>) -> Map<
    Seq<char>,
    ConnItemView,
> {
    Map::new(|k: Seq<char>| m.dom().contains(k), |k: Seq<char>| m[k]@)
}

/// Every value of the item map is well-formed.
pub open spec fn conn_items_all_wf(m: Map<Seq<char>, ConnectionStatsItemValue>) -> bool {
    forall|k: Seq<char>| #[trigger] m.dom().contains(k) ==> m[k].wf()
}

impl View for ConnectionStats {
    type V = ConnView;

    open spec fn view(&self) -> ConnView {
        ConnView {
            connection_id: self.connection_id@,
            timestamp_micros: self.timestamp_micros as int,
            items: conn_items_view(self.items@),
        }
    }
}

impl ConnectionStats {
    /// Keys are distinct and all values lie in the representable range.
    pub open spec fn wf(self) -> bool {
        &&& self.items.wf()
        &&& conn_items_all_wf(self.items@)
    }
}

/// The rate of change for key `k` with current value `v` at time `t1`:
/// present exactly when the previous snapshot saw the same connection with a
/// numeric value for `k`, the current value is numeric, the elapsed
/// server-reported time is positive, and the rate is representable.
pub open spec fn spec_delta(
    prev: Option<ConnView>,
    t1: int,
    k: Seq<char>,
    v: SpecValue,
) -> Option<int> {
    match prev {
        None => None,
        Some(pc) => if pc.items.dom().contains(k) {
            match (v, pc.items[k].value) {
                (SpecValue::Num(v1), SpecValue::Num(v0)) => spec_rate(
                    v1,
                    v0,
                    t1 - pc.timestamp_micros,
                ),
                _ => None,
            }
        } else {
            None
        },
    }
}

/// The flat items annotated with their rates.
pub open spec fn spec_annotate(
    flat: Map<Seq<char>, SpecValue>,
    prev: Option<ConnView>,
    t1: int,
) -> Map<Seq<char>, ConnItemView> {
    Map::new(
        |k: Seq<char>| flat.dom().contains(k),
        |k: Seq<char>|
            ConnItemView { value: flat[k], delta_per_sec: spec_delta(prev, t1, k, flat[k]) },
    )
}

/// The connection record described by one raw value, against the previous
/// snapshot's connections: the record must be an object with a string
/// `connection_id` and a string RFC 3339 `timestamp`; its other fields
/// flatten into the items.
pub open spec fn spec_connection(raw: RawView, prev_conns: Map<Seq<char>, ConnView>) -> Result<
    ConnView,
    StatsError,
> {
    match raw {
        RawView::Obj(fields) => {
            let m = map_of_entries(fields);
            if !m.dom().contains("connection_id"@) {
                Err(StatsError::MissingConnectionId)
            } else if !(m["connection_id"@] is Text) {
                Err(StatsError::ConnectionIdNotText)
            } else if !m.dom().contains("timestamp"@) {
                Err(StatsError::MissingTimestamp)
            } else if !(m["timestamp"@] is Text) {
                Err(StatsError::TimestampNotText)
            } else {
                let id = m["connection_id"@]->Text_0;
                match rfc3339_micros(m["timestamp"@]->Text_0) {
                    None => Err(StatsError::BadTimestamp),
                    Some(t1) => Ok(
                        ConnView {
                            connection_id: id,
                            timestamp_micros: t1 as int,
                            items: spec_annotate(
                                flat_top(fields),
                                if prev_conns.dom().contains(id) {
                                    Some(prev_conns[id])
                                } else {
                                    None
                                },
                                t1 as int,
                            ),
                        },
                    ),
                }
            }
        },
        _ => Err(StatsError::NotObject),
    }
}

/// A connection seen for the first time has no rates; between two
/// observations of one connection, a zero or negative elapsed
/// server-reported time yields no rate for any key, never a division error.
pub proof fn lemma_nonpositive_elapsed_no_delta(
    prev: Option<ConnView>,
    t1: int,
    k: Seq<char>,
    v: SpecValue,
)
    requires
        match prev {
            Some(pc) => t1 <= pc.timestamp_micros,
            None => true,
        },
    ensures
        spec_delta(prev, t1, k, v) is None,
{
}

impl ConnectionStats {
    /// Parses one raw connection record, flattens its fields, and computes
    /// each numeric item's rate of change against the previous snapshot.
    pub fn new(raw: &RawValue, prev: &crate::stats::Stats) -> (r: Result<
        ConnectionStats,
        StatsError,
    >)
        requires
            prev.wf(),
        ensures
            match r {
                Ok(c) => c.wf() && spec_connection(raw_view(*raw), prev@.connections) == Ok::<
                    ConnView,
                    StatsError,
                >(c@),
                Err(e) => spec_connection(raw_view(*raw), prev@.connections) == Err::<
                    ConnView,
                    StatsError,
                >(e),
            },
    {
        let fields = match raw {
            RawValue::Object(fields) => fields,
            _ => {
                return Err(StatsError::NotObject);
            },
        };
        let id: String = match find_field(fields, "connection_id") {
            Some(RawValue::Text(s)) => s.clone(),
            Some(_) => {
                return Err(StatsError::ConnectionIdNotText);
            },
            None => {
                return Err(StatsError::MissingConnectionId);
            },
        };
        let ts: &RawValue = match find_field(fields, "timestamp") {
            Some(v) => v,
            None => {
                return Err(StatsError::MissingTimestamp);
            },
        };
        let ts: &String = match ts {
            RawValue::Text(s) => s,
            _ => {
                return Err(StatsError::TimestampNotText);
            },
        };
        let t1: i64 = match parse_rfc3339_micros(ts.as_str()) {
            Some(t) => t,
            None => {
                return Err(StatsError::BadTimestamp);
            },
        };
        let flat: KvMap<StatsItemValue> = flatten_connection(fields);
        let prev_conn: Option<&ConnectionStats> = prev.connections.get(id.as_str());
        let ghost prev_view: Option<ConnView> = match prev_conn {
            Some(pc) => Some(pc@),
            None => None,
        };
        proof {
            crate::stats::lemma_stats_connections(*prev, id@);
            assert(prev_view == if prev@.connections.dom().contains(id@) {
                Some(prev@.connections[id@])
            } else {
                None::<ConnView>
            });
        }
        let ghost flat_view = view_items(flat@);
        let mut items: KvMap<ConnectionStatsItemValue> = KvMap::new();
        let mut i: usize = 0;
        proof {
            flat.lemma_view();
        }
        while i < flat.pairs.len()
            invariant
                prev.wf(),
                flat.wf(),
                items.wf(),
                i <= flat.pairs.len(),
                flat_view == view_items(flat@),
                items_all_wf(flat@),
                prev_view == match prev_conn {
                    Some(pc) => Some(pc@),
                    None => None::<ConnView>,
                },
                match prev_conn {
                    Some(pc) => pc.wf(),
                    None => true,
                },
                forall|j: int| 0 <= j < flat.entries().len() ==> flat@.dom().contains(
                    (#[trigger] flat.entries()[j]).0,
                ) && flat@[flat.entries()[j].0] == flat.entries()[j].1,
                forall|j: int| 0 <= j < i ==> items@.dom().contains(
                    (#[trigger] flat.entries()[j]).0,
                ),
                forall|j: int|
                    0 <= j < i ==> items@[(#[trigger] flat.entries()[j]).0]@ == (spec_annotate(
                        flat_view,
                        prev_view,
                        t1 as int,
                    )[flat.entries()[j].0]),
                forall|k: Seq<char>| #[trigger] items@.dom().contains(k)
                    ==> crate::kvmap::entries_have_key(flat.entries().take(i as int), k),
                conn_items_all_wf(items@),
            decreases flat.pairs.len() - i,
        {
            let key: &String = &flat.pairs[i].0;
            let value: &StatsItemValue = &flat.pairs[i].1;
            proof {
                assert(flat.entries()[i as int] == (key@, *value));
                assert(flat@.dom().contains(key@));
                assert(flat@[key@] == *value);
                assert(value.wf());
            }
            let delta: Option<FixedNum> = match prev_conn {
                None => None,
                Some(pc) => {
                    match pc.items.get(key.as_str()) {
                        None => None,
                        Some(pv) => {
                            match (value.as_number(), pv.value.as_number()) {
                                (Some(v1), Some(v0)) => {
                                    proof {
                                        assert(pc.items@.dom().contains(key@));
                                        assert(pc@.items.dom().contains(key@));
                                        assert(pc@.items[key@] == pv@);
                                        assert(pv.wf());
                                    }
                                    let dt: i128 = t1 as i128 - pc.timestamp_micros as i128;
                                    rate_per_sec(v1, v0, dt)
                                },
                                _ => None,
                            }
                        },
                    }
                },
            };
            proof {
                assert(match delta {
                    Some(d) => d.wf() && spec_delta(prev_view, t1 as int, key@, value@)
                        == Some(d.micros as int),
                    None => spec_delta(prev_view, t1 as int, key@, value@) is None,
                });
            }
            let ghost items_before = items@;
            items.insert(key.clone(), ConnectionStatsItemValue {
                value: value.duplicate(),
                delta_per_sec: delta,
            });
            proof {
                assert forall|j: int| 0 <= j < i + 1 implies items@.dom().contains(
                    (#[trigger] flat.entries()[j]).0,
                ) by {
                    if j < i {
                        assert(items_before.dom().contains(flat.entries()[j].0));
                    }
                }
                assert forall|j: int|
                    0 <= j < i + 1 implies items@[(#[trigger] flat.entries()[j]).0]@
                    == (spec_annotate(flat_view, prev_view, t1 as int)[flat.entries()[j].0]) by {
                    if j < i {
                        if flat.entries()[j].0 == key@ {
                            assert(flat.wf());
                            assert(false);
                        }
                    } else {
                        assert(flat_view[key@] == value@);
                    }
                }
                assert forall|k: Seq<char>| #[trigger] items@.dom().contains(k) implies
                    crate::kvmap::entries_have_key(flat.entries().take(i as int + 1), k) by {
                    if k == key@ {
                        assert(flat.entries().take(i as int + 1)[i as int].0 == k);
                    } else {
                        assert(items_before.dom().contains(k));
                        let j = choose|j: int|
                            0 <= j < flat.entries().take(i as int).len() && (#[trigger] flat
                                .entries()
                                .take(i as int)[j]).0 == k;
                        assert(flat.entries().take(i as int + 1)[j].0 == k);
                    }
                }
            }
            i += 1;
        }
        proof {
            assert(items.wf());
            let goal = spec_annotate(flat_view, prev_view, t1 as int);
            assert forall|k: Seq<char>| #[trigger] conn_items_view(items@).dom().contains(k)
                <==> goal.dom().contains(k) by {
                if items@.dom().contains(k) {
                    let j = choose|j: int|
                        0 <= j < flat.entries().take(flat.pairs@.len() as int).len() && (
                        #[trigger] flat.entries().take(flat.pairs@.len() as int)[j]).0 == k;
                    assert(flat.entries()[j].0 == k);
                    assert(flat@.dom().contains(k));
                }
                if flat_view.dom().contains(k) {
                    flat.lemma_view();
                    let j = choose|j: int|
                        0 <= j < flat.entries().len() && (#[trigger] flat.entries()[j]).0 == k;
                    assert(items@.dom().contains(flat.entries()[j].0));
                }
            }
            assert(conn_items_view(items@) =~= goal);
        }
        Ok(ConnectionStats { connection_id: id, timestamp_micros: t1, items })
    }
}

} // verus!
