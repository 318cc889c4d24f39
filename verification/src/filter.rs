//! The two regex filter stages, applied in a fixed order: first whole
//! connections, then individual keys.
use crate::conn::{conn_items_view, ConnectionStats, ConnView};
use crate::agg::{conns_view, conns_wf};
use crate::kvmap::KvMap;
use crate::pattern::{regex_is_match, regex_match, regex_pattern};
use crate::value::{spec_render_value, ConnectionStatsItemValue, SpecValue};
use vstd::prelude::*;

verus! {

/// The string an item is rendered as for connection filtering: the key, a
/// colon, and the value in its natural form.
pub open spec fn spec_item_line(k: Seq<char>, v: SpecValue) -> Seq<char> {
    k + seq![':'] + spec_render_value(v)
}

/// Whether some item of the connection, rendered as `key:value`, matches the
/// pattern.
pub open spec fn spec_conn_matches(pat: Seq<char>, c: ConnView) -> bool {
    exists|k: Seq<char>| #[trigger] c.items.dom().contains(k) && regex_match(
        pat,
        spec_item_line(k, c.items[k].value),
    )
}

/// The connection with only the items whose key matches the pattern.
pub open spec fn spec_key_filter(pat: Seq<char>, c: ConnView) -> ConnView {
    ConnView {
        connection_id: c.connection_id,
        timestamp_micros: c.timestamp_micros,
        items: c.items.restrict(Set::new(|k: Seq<char>| regex_match(pat, k))),
    }
}

/// Both filter stages in order: connections whose unfiltered items match the
/// connection pattern survive; each survivor keeps the items whose key
/// matches the key pattern.
pub open spec fn spec_apply_filters(cp: Seq<char>, kp: Seq<char>, conns: Seq<ConnView>) -> Seq<
    ConnView,
> {
    conns.filter(|c: ConnView| spec_conn_matches(cp, c)).map_values(
        |c: ConnView| spec_key_filter(kp, c),
    )
}

/// Whether any item of the connection, rendered as `key:value`, matches the
/// filter.
fn connection_matches(filter: &regex::Regex, conn: &ConnectionStats) -> (r: bool)
    requires
        conn.wf(),
    ensures
        r == spec_conn_matches(regex_pattern(*filter), conn@),
{
    let ghost pat = regex_pattern(*filter);
    proof {
        conn.items.lemma_view();
        reveal_strlit(":");
        assert(":"@ =~= seq![':']);
    }
    let mut i: usize = 0;
    while i < conn.items.pairs.len()
        invariant
            conn.wf(),
            i <= conn.items.pairs@.len(),
            pat == regex_pattern(*filter),
            forall|j: int| 0 <= j < i ==> !regex_match(
                pat,
                spec_item_line(
                    (#[trigger] conn.items.entries()[j]).0,
                    conn.items.entries()[j].1@.value,
                ),
            ),
            forall|j: int| 0 <= j < conn.items.entries().len() ==> conn.items@.dom().contains(
                (#[trigger] conn.items.entries()[j]).0,
            ) && conn.items@[conn.items.entries()[j].0] == conn.items.entries()[j].1,
        decreases conn.items.pairs@.len() - i,
    {
        proof {
            assert(conn.items@.dom().contains(conn.items.entries()[i as int].0));
            assert(conn.items@[conn.items.entries()[i as int].0].wf());
        }
        let mut line: String = conn.items.pairs[i].0.clone();
        line.append(":");
        let rendered = conn.items.pairs[i].1.value.render();
        line.append(rendered.as_str());
        proof {
            reveal_strlit(":");
            assert(":"@ =~= seq![':']);
            assert(conn.items.entries()[i as int] == (conn.items.pairs@[i as int].0@,
            conn.items.pairs@[i as int].1));
            assert(line@ =~= spec_item_line(
                conn.items.entries()[i as int].0,
                conn.items.entries()[i as int].1@.value,
            ));
        }
        if regex_is_match(filter, line.as_str()) {
            proof {
                let k = conn.items.entries()[i as int].0;
                assert(conn@.items.dom().contains(k));
                assert(conn@.items[k] == conn.items.entries()[i as int].1@);
                assert(regex_match(pat, spec_item_line(k, conn@.items[k].value)));
            }
            return true;
        }
        i += 1;
    }
    proof {
        if spec_conn_matches(pat, conn@) {
            let k = choose|k: Seq<char>|
                #[trigger] conn@.items.dom().contains(k) && regex_match(
                    pat,
                    spec_item_line(k, conn@.items[k].value),
                );
            assert(conn.items@.dom().contains(k));
            let j = choose|j: int|
                0 <= j < conn.items.entries().len() && (#[trigger] conn.items.entries()[j]).0
                    == k;
            assert(conn.items@[k] == conn.items.entries()[j].1);
            assert(false);
        }
    }
    false
}

/// Keeps the connections at least one of whose items, rendered as
/// `key:value`, matches the filter. The test sees the items before any key
/// filtering.
pub fn apply_connection_filters(filter: &regex::Regex, connections: Vec<ConnectionStats>) -> (r:
    Vec<ConnectionStats>)
    requires
        conns_wf(connections@),
    ensures
        conns_wf(r@),
        conns_view(r@) == conns_view(connections@).filter(
            |c: ConnView| spec_conn_matches(regex_pattern(*filter), c),
        ),
{
    let ghost pat = regex_pattern(*filter);
    let ghost orig = connections@;
    let ghost cv = conns_view(connections@);
    let ghost pred = |c: ConnView| spec_conn_matches(pat, c);
    let total: usize = connections.len();
    proof {
        assert(orig.len() == total);
    }
    let mut rest = connections;
    let mut out: Vec<ConnectionStats> = Vec::new();
    let mut i: usize = 0;
    proof {
        assert(rest@ =~= orig.skip(0));
        assert(cv.take(0) =~= Seq::<ConnView>::empty());
        reveal_with_fuel(Seq::filter, 2);
        assert(conns_view(out@) =~= cv.take(0).filter(pred));
    }
    while rest.len() > 0
        invariant
            conns_wf(orig),
            cv == conns_view(orig),
            cv.len() == orig.len(),
            orig.len() <= usize::MAX,
            i <= orig.len(),
            rest@ == orig.skip(i as int),
            pat == regex_pattern(*filter),
            pred == (|c: ConnView| spec_conn_matches(pat, c)),
            conns_wf(out@),
            conns_view(out@) == cv.take(i as int).filter(pred),
        decreases rest@.len(),
    {
        proof {
            assert(orig.skip(i as int).len() > 0);
            assert(i < orig.len());
        }
        let c: ConnectionStats = rest.remove(0);
        proof {
            assert(orig.skip(i as int)[0] == orig[i as int]);
            assert(rest@ =~= orig.skip(i as int + 1));
            assert(orig[i as int].wf());
            assert(cv[i as int] == orig[i as int]@);
        }
        let ghost out_before = out@;
        let keep = connection_matches(filter, &c);
        if keep {
            out.push(c);
        }
        proof {
            reveal_with_fuel(Seq::filter, 2);
            assert(cv.take(i as int + 1).drop_last() =~= cv.take(i as int));
            assert(cv.take(i as int + 1).last() == cv[i as int]);
            if keep {
                assert(out@ =~= out_before.push(orig[i as int]));
                assert(conns_view(out@) =~= conns_view(out_before).push(cv[i as int]));
                assert forall|j: int| 0 <= j < out@.len() implies (#[trigger] out@[j]).wf() by {
                    if j < out_before.len() {
                        assert(out_before[j].wf());
                    }
                }
            }
            assert(conns_view(out@) =~= cv.take(i as int + 1).filter(pred));
        }
        i += 1;
    }
    proof {
        assert(cv.take(i as int) =~= cv);
    }
    out
}

/// Keeps only the items of the connection whose key matches the filter.
fn apply_key_filter(filter: &regex::Regex, conn: ConnectionStats) -> (r: ConnectionStats)
    requires
        conn.wf(),
    ensures
        r.wf(),
        r@ == spec_key_filter(regex_pattern(*filter), conn@),
{
    let ghost pat = regex_pattern(*filter);
    proof {
        conn.items.lemma_view();
    }
    let ghost orig_entries = conn.items.entries();
    let ghost cview = conn@;
    let ghost cmap = conn.items@;
    let ghost pmap = |p: (String, ConnectionStatsItemValue)| (p.0@, p.1);
    let mut items: KvMap<ConnectionStatsItemValue> = KvMap::new();
    let mut rest: Vec<(String, ConnectionStatsItemValue)> = conn.items.pairs;
    let total: usize = rest.len();
    proof {
        assert(orig_entries.len() == total);
    }
    let mut i: usize = 0;
    proof {
        assert(rest@.map_values(pmap) =~= orig_entries.skip(0));
    }
    while rest.len() > 0
        invariant
            i <= orig_entries.len(),
            orig_entries.len() <= usize::MAX,
            pmap == (|p: (String, ConnectionStatsItemValue)| (p.0@, p.1)),
            rest@.map_values(pmap) == orig_entries.skip(i as int),
            pat == regex_pattern(*filter),
            items.wf(),
            forall|a: int, b: int| 0 <= a < b < orig_entries.len() ==> (
            #[trigger] orig_entries[a]).0 != (#[trigger] orig_entries[b]).0,
            forall|j: int| 0 <= j < orig_entries.len() ==> (#[trigger] orig_entries[j]).1.wf(),
            forall|k: Seq<char>| #[trigger] items@.dom().contains(k) <==> (
            crate::kvmap::entries_have_key(orig_entries.take(i as int), k) && regex_match(
                pat,
                k,
            )),
            forall|j: int|
                0 <= j < i && regex_match(pat, (#[trigger] orig_entries[j]).0) ==> items@.dom()
                    .contains(orig_entries[j].0) && items@[orig_entries[j].0]
                    == orig_entries[j].1,
        decreases rest@.len(),
    {
        proof {
            assert(orig_entries.skip(i as int).len() > 0);
            assert(i < orig_entries.len());
            assert(rest@.map_values(pmap)[0] == orig_entries.skip(i as int)[0]);
        }
        let ghost rest_before = rest@;
        let p: (String, ConnectionStatsItemValue) = rest.remove(0);
        proof {
            assert(orig_entries.skip(i as int)[0] == orig_entries[i as int]);
            assert(pmap(rest_before[0]) == orig_entries[i as int]);
            assert((p.0@, p.1) == orig_entries[i as int]);
            assert(rest@ =~= rest_before.skip(1));
            assert forall|n: int| 0 <= n < rest@.len() implies rest@.map_values(pmap)[n]
                == orig_entries.skip(i as int + 1)[n] by {
                assert(rest@[n] == rest_before[n + 1]);
                assert(rest_before.map_values(pmap)[n + 1] == pmap(rest_before[n + 1]));
                assert(rest_before.map_values(pmap)[n + 1] == orig_entries.skip(i as int)[n
                    + 1]);
            }
            assert(rest@.map_values(pmap) =~= orig_entries.skip(i as int + 1));
        }
        let ghost items_before = items@;
        let matched = regex_is_match(filter, p.0.as_str());
        if matched {
            items.insert(p.0, p.1);
        }
        proof {
            assert forall|k: Seq<char>| #[trigger] items@.dom().contains(k) <==> (
            crate::kvmap::entries_have_key(orig_entries.take(i as int + 1), k) && regex_match(
                pat,
                k,
            )) by {
                let tk = orig_entries.take(i as int + 1);
                if items@.dom().contains(k) {
                    if k == orig_entries[i as int].0 && matched {
                        assert(tk[i as int].0 == k);
                        assert(crate::kvmap::entries_have_key(tk, k));
                    } else {
                        assert(items_before.dom().contains(k));
                        let j = choose|j: int|
                            0 <= j < orig_entries.take(i as int).len() && (
                            #[trigger] orig_entries.take(i as int)[j]).0 == k;
                        assert(tk[j].0 == k);
                        assert(crate::kvmap::entries_have_key(tk, k));
                    }
                }
                if crate::kvmap::entries_have_key(tk, k) && regex_match(pat, k) {
                    let j = choose|j: int| 0 <= j < tk.len() && (#[trigger] tk[j]).0 == k;
                    if j < i {
                        assert(orig_entries.take(i as int)[j].0 == k);
                        assert(crate::kvmap::entries_have_key(orig_entries.take(i as int), k));
                        assert(items_before.dom().contains(k));
                    } else {
                        assert(k == orig_entries[i as int].0);
                    }
                }
            }
            assert forall|j: int|
                0 <= j < i + 1 && regex_match(pat, (#[trigger] orig_entries[j]).0) implies
                items@.dom().contains(orig_entries[j].0) && items@[orig_entries[j].0]
                    == orig_entries[j].1 by {
                if j < i {
                    assert(items_before.dom().contains(orig_entries[j].0));
                    assert(orig_entries[j].0 != orig_entries[i as int].0);
                }
            }
        }
        i += 1;
    }
    let r = ConnectionStats {
        connection_id: conn.connection_id,
        timestamp_micros: conn.timestamp_micros,
        items,
    };
    proof {
        assert(orig_entries.take(i as int) =~= orig_entries);
        assert forall|k: Seq<char>| #[trigger] conn_items_view(r.items@).dom().contains(k)
            <==> spec_key_filter(pat, cview).items.dom().contains(k) by {
            if cview.items.dom().contains(k) && regex_match(pat, k) {
                let j = choose|j: int|
                    0 <= j < orig_entries.len() && (#[trigger] orig_entries[j]).0 == k;
                assert(crate::kvmap::entries_have_key(orig_entries, k));
            }
        }
        assert forall|k: Seq<char>| #[trigger] r.items@.dom().contains(k) implies r.items@[k]
            == cmap[k] && r.items@[k].wf() by {
            let j = choose|j: int|
                0 <= j < orig_entries.len() && (#[trigger] orig_entries[j]).0 == k;
            assert(items@[k] == orig_entries[j].1);
            assert(cmap[k] == orig_entries[j].1);
            assert(orig_entries[j].1.wf());
        }
        assert forall|k: Seq<char>| #[trigger] conn_items_view(r.items@).dom().contains(
            k,
        ) implies conn_items_view(r.items@)[k] == spec_key_filter(pat, cview).items[k] by {
            assert(r.items@[k] == cmap[k]);
        }
        assert(conn_items_view(r.items@) =~= spec_key_filter(pat, cview).items);
    }
    r
}

/// Applies the connection filter and then the key filter, in that order:
/// the connection filter sees every item; the key filter decides which items
/// the aggregator sees.
pub fn apply_filters(
    connection_filter: &regex::Regex,
    stats_key_filter: &regex::Regex,
    connections: Vec<ConnectionStats>,
) -> (r: Vec<ConnectionStats>)
    requires
        conns_wf(connections@),
    ensures
        conns_wf(r@),
        conns_view(r@) == spec_apply_filters(
            regex_pattern(*connection_filter),
            regex_pattern(*stats_key_filter),
            conns_view(connections@),
        ),
{
    let ghost kp = regex_pattern(*stats_key_filter);
    let kept: Vec<ConnectionStats> = apply_connection_filters(connection_filter, connections);
    let ghost kept_view = conns_view(kept@);
    let total: usize = kept.len();
    let ghost orig = kept@;
    proof {
        assert(orig.len() == total);
    }
    let mut rest = kept;
    let mut out: Vec<ConnectionStats> = Vec::new();
    let mut i: usize = 0;
    proof {
        assert(rest@ =~= orig.skip(0));
        assert(conns_view(out@) =~= kept_view.take(0).map_values(
            |c: ConnView| spec_key_filter(kp, c),
        ));
    }
    while rest.len() > 0
        invariant
            conns_wf(orig),
            kept_view == conns_view(orig),
            kept_view.len() == orig.len(),
            orig.len() <= usize::MAX,
            i <= orig.len(),
            rest@ == orig.skip(i as int),
            kp == regex_pattern(*stats_key_filter),
            conns_wf(out@),
            conns_view(out@) == kept_view.take(i as int).map_values(
                |c: ConnView| spec_key_filter(kp, c),
            ),
        decreases rest@.len(),
    {
        proof {
            assert(orig.skip(i as int).len() > 0);
            assert(i < orig.len());
        }
        let c: ConnectionStats = rest.remove(0);
        proof {
            assert(orig.skip(i as int)[0] == orig[i as int]);
            assert(rest@ =~= orig.skip(i as int + 1));
            assert(orig[i as int].wf());
            assert(kept_view[i as int] == orig[i as int]@);
        }
        let ghost out_before = out@;
        let fc = apply_key_filter(stats_key_filter, c);
        out.push(fc);
        proof {
            assert(out@ =~= out_before.push(fc));
            assert(conns_view(out@) =~= conns_view(out_before).push(fc@));
            assert forall|j: int| 0 <= j < out@.len() implies (#[trigger] out@[j]).wf() by {
                if j < out_before.len() {
                    assert(out_before[j].wf());
                }
            }
            assert(conns_view(out@) =~= kept_view.take(i as int + 1).map_values(
                |c2: ConnView| spec_key_filter(kp, c2),
            ));
        }
        i += 1;
    }
    proof {
        assert(kept_view.take(i as int) =~= kept_view);
    }
    out
}

} // verus!
