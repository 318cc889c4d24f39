//! Per-key aggregation across all surviving connections of one cycle.
use crate::conn::{ConnectionStats, ConnView};
use crate::kvmap::{sorted_keys, KvMap};
use crate::num::MAX_STAT_MICROS;
use crate::pattern::{regex_is_match, regex_match, regex_pattern};
use crate::text::str_lt;
use crate::value::{AggItemView, AggregatedStatsItemValue};
use vstd::prelude::*;

verus! {

/// The views of a list of connections.
pub open spec fn conns_view(s: Seq<ConnectionStats>) -> Seq<ConnView> {
    s.map_values(|c: ConnectionStats| c@)
}

/// Every connection of the list is well-formed.
pub open spec fn conns_wf(s: Seq<ConnectionStats>) -> bool {
    forall|i: int| 0 <= i < s.len() ==> (#[trigger] s[i]).wf()
}

/// Whether connection `c` contributes a numeric value for key `k`.
pub open spec fn has_val(c: ConnView, k: Seq<char>) -> bool {
    c.items.dom().contains(k) && c.items[k].value is Num
}

/// The numeric value connection `c` contributes for key `k` (zero when none).
pub open spec fn val_contrib(c: ConnView, k: Seq<char>) -> int {
    if has_val(c, k) {
        c.items[k].value->Num_0
    } else {
        0
    }
}

/// Whether connection `c` contributes a rate for key `k`.
pub open spec fn has_delta(c: ConnView, k: Seq<char>) -> bool {
    c.items.dom().contains(k) && c.items[k].delta_per_sec is Some
}

/// The rate connection `c` contributes for key `k` (zero when none).
pub open spec fn delta_contrib(c: ConnView, k: Seq<char>) -> int {
    if has_delta(c, k) {
        c.items[k].delta_per_sec->0
    } else {
        0
    }
}

/// The sum of the numeric values for key `k` over the connections.
pub open spec fn val_sum(conns: Seq<ConnView>, k: Seq<char>) -> int
    decreases conns.len(),
{
    if conns.len() == 0 {
        0
    } else {
        val_sum(conns.drop_last(), k) + val_contrib(conns.last(), k)
    }
}

/// The sum of the rates for key `k` over the connections.
pub open spec fn delta_sum(conns: Seq<ConnView>, k: Seq<char>) -> int
    decreases conns.len(),
{
    if conns.len() == 0 {
        0
    } else {
        delta_sum(conns.drop_last(), k) + delta_contrib(conns.last(), k)
    }
}

/// Whether any connection contributes a numeric value for key `k`.
pub open spec fn any_val(conns: Seq<ConnView>, k: Seq<char>) -> bool {
    exists|i: int| 0 <= i < conns.len() && has_val(#[trigger] conns[i], k)
}

/// Whether any connection contributes a rate for key `k`.
pub open spec fn any_delta(conns: Seq<ConnView>, k: Seq<char>) -> bool {
    exists|i: int| 0 <= i < conns.len() && has_delta(#[trigger] conns[i], k)
}

/// Whether any connection has key `k` at all.
pub open spec fn any_key(conns: Seq<ConnView>, k: Seq<char>) -> bool {
    exists|i: int| 0 <= i < conns.len() && (#[trigger] conns[i]).items.dom().contains(k)
}

/// The aggregation of key `k`: the sum of the numeric values and the sum of
/// the available rates, each absent when no connection contributed one.
pub open spec fn spec_agg_item(conns: Seq<ConnView>, k: Seq<char>) -> AggItemView {
    AggItemView {
        value_sum: if any_val(conns, k) {
            Some(val_sum(conns, k))
        } else {
            None
        },
        delta_per_sec: if any_delta(conns, k) {
            Some(delta_sum(conns, k))
        } else {
            None
        },
    }
}

/// The aggregated map: one entry for every key seen in any connection.
pub open spec fn spec_aggregate(conns: Seq<ConnView>) -> Map<Seq<char>, AggItemView> {
    Map::new(|k: Seq<char>| any_key(conns, k), |k: Seq<char>| spec_agg_item(conns, k))
}

/// The views of an aggregated item map's values.
pub open spec fn agg_items_view(m: Map<Seq<char>, AggregatedStatsItemValue>) -> Map<
    Seq<char>,
    AggItemView,
> {
    Map::new(|k: Seq<char>| m.dom().contains(k), |k: Seq<char>| m[k]@)
}

proof fn lemma_val_sum_take(conns: Seq<ConnView>, k: Seq<char>, j: int)
    requires
        0 <= j < conns.len(),
    ensures
        val_sum(conns.take(j + 1), k) == val_sum(conns.take(j), k) + val_contrib(conns[j], k),
        delta_sum(conns.take(j + 1), k) == delta_sum(conns.take(j), k) + delta_contrib(
            conns[j],
            k,
        ),
{
    assert(conns.take(j + 1).drop_last() =~= conns.take(j));
    assert(conns.take(j + 1).last() == conns[j]);
}

/// The aggregated statistics of one cycle.
#[derive(Clone, Debug)]
pub struct AggregatedStats {
    pub items: KvMap<AggregatedStatsItemValue>,
}

impl View for AggregatedStats {
    type V = Map<Seq<char>, AggItemView>;

    open spec fn view(&self) -> Map<Seq<char>, AggItemView> {
        agg_items_view(self.items@)
    }
}

impl AggregatedStats {
    /// Keys are distinct and listed in ascending lexicographic order, as the
    /// dashboard shows them.
    pub open spec fn wf(self) -> bool {
        &&& self.items.wf()
        &&& sorted_keys(self.items.entries())
    }

    /// Looks one aggregated key up.
    pub fn get(&self, key: &str) -> (r: Option<&AggregatedStatsItemValue>)
        requires
            self.wf(),
        ensures
            match r {
                Some(v) => self@.dom().contains(key@) && v@ == self@[key@],
                None => !self@.dom().contains(key@),
            },
    {
        self.items.get(key)
    }

    /// The aggregated entries whose key matches the filter, in order.
    pub fn filtered_items(&self, filter: &regex::Regex) -> (r: Vec<(
        String,
        AggregatedStatsItemValue,
    )>)
        requires
            self.wf(),
        ensures
            r@.map_values(|p: (String, AggregatedStatsItemValue)| (p.0@, p.1)) == self.items
                .entries().filter(
                |p: (Seq<char>, AggregatedStatsItemValue)|
                    regex_match(regex_pattern(*filter), p.0),
            ),
            forall|a: int, b: int| 0 <= a < b < r@.len() ==> str_lt(
                (#[trigger] r@[a]).0@,
                (#[trigger] r@[b]).0@,
            ),
    {
        let ghost pred = |p: (Seq<char>, AggregatedStatsItemValue)|
            regex_match(regex_pattern(*filter), p.0);
        let mut out: Vec<(String, AggregatedStatsItemValue)> = Vec::new();
        let mut i: usize = 0;
        proof {
            assert(self.items.entries().take(0) =~= Seq::<
                (Seq<char>, AggregatedStatsItemValue),
            >::empty());
            reveal_with_fuel(Seq::filter, 2);
        }
        while i < self.items.pairs.len()
            invariant
                self.wf(),
                i <= self.items.pairs.len(),
                pred == (|p: (Seq<char>, AggregatedStatsItemValue)|
                    regex_match(regex_pattern(*filter), p.0)),
                out@.map_values(|p: (String, AggregatedStatsItemValue)| (p.0@, p.1)) == self
                    .items.entries().take(i as int).filter(pred),
                forall|m: int| 0 <= m < out@.len() ==> exists|j: int|
                    0 <= j < i && (#[trigger] out@[m]).0@ == (#[trigger] self.items.entries()[j]).0,
                forall|a: int, b: int| 0 <= a < b < out@.len() ==> str_lt(
                    (#[trigger] out@[a]).0@,
                    (#[trigger] out@[b]).0@,
                ),
            decreases self.items.pairs.len() - i,
        {
            let ghost before = out@;
            let matched = regex_is_match(filter, self.items.pairs[i].0.as_str());
            if matched {
                let pair = (self.items.pairs[i].0.clone(), self.items.pairs[i].1);
                out.push(pair);
            }
            proof {
                reveal_with_fuel(Seq::filter, 2);
                let entries = self.items.entries();
                assert(pred(entries[i as int]) == matched);
                assert forall|m: int| 0 <= m < out@.len() implies exists|j: int|
                    0 <= j < i + 1 && (#[trigger] out@[m]).0@ == (#[trigger] entries[j]).0 by {
                    if m < before.len() {
                        assert(out@[m] == before[m]);
                        let j = choose|j: int|
                            0 <= j < i && (#[trigger] before[m]).0@ == (#[trigger] entries[j]).0;
                        assert(out@[m].0@ == entries[j].0);
                    } else {
                        assert(out@[m].0@ == entries[i as int].0);
                    }
                }
                assert forall|a: int, b: int| 0 <= a < b < out@.len() implies str_lt(
                    (#[trigger] out@[a]).0@,
                    (#[trigger] out@[b]).0@,
                ) by {
                    if b < before.len() {
                        assert(out@[a] == before[a]);
                        assert(out@[b] == before[b]);
                    } else if b == before.len() && matched {
                        assert(out@[a] == before[a]);
                        let j = choose|j: int|
                            0 <= j < i && (#[trigger] before[a]).0@ == (#[trigger] entries[j]).0;
                        assert(out@[b].0@ == entries[i as int].0);
                        assert(str_lt(entries[j].0, entries[i as int].0));
                    }
                }
                assert(entries.take(i as int + 1).drop_last() =~= entries.take(i as int));
                assert(entries.take(i as int + 1).last() == entries[i as int]);
                assert(entries[i as int] == (self.items.pairs@[i as int].0@,
                self.items.pairs@[i as int].1));
                assert(out@.map_values(|p: (String, AggregatedStatsItemValue)| (p.0@, p.1))
                    =~= entries.take(i as int + 1).filter(pred));
            }
            i += 1;
        }
        proof {
            assert(self.items.entries().take(self.items.pairs@.len() as int) =~= self.items
                .entries());
        }
        out
    }

    /// Aggregates the given (already filtered) connections: the union of all
    /// keys, each with the sum of its numeric values and the sum of its
    /// available rates.
    pub fn new(connections: &Vec<ConnectionStats>) -> (r: AggregatedStats)
        requires
            conns_wf(connections@),
        ensures
            r.wf(),
            r@ == spec_aggregate(conns_view(connections@)),
    {
        let ghost cv = conns_view(connections@);
        proof {
            assert(cv.len() == connections@.len());
        }
        let keys: Vec<String> = collect_keys(connections);
        let mut items: KvMap<AggregatedStatsItemValue> = KvMap::new();
        let mut m: usize = 0;
        while m < keys.len()
            invariant
                conns_wf(connections@),
                cv == conns_view(connections@),
                m <= keys@.len(),
                items.wf(),
                sorted_keys(items.entries()),
                forall|a: int, b: int| 0 <= a < b < keys@.len() ==> (#[trigger] keys@[a])@ != (
                #[trigger] keys@[b])@,
                forall|n: int| 0 <= n < keys@.len() ==> any_key(cv, (#[trigger] keys@[n])@),
                forall|k: Seq<char>| any_key(cv, k) ==> exists|n: int|
                    0 <= n < keys@.len() && (#[trigger] keys@[n])@ == k,
                forall|n: int| 0 <= n < m ==> items@.dom().contains((#[trigger] keys@[n])@),
                forall|n: int| 0 <= n < m ==> items@[(#[trigger] keys@[n])@]@ == spec_agg_item(
                    cv,
                    keys@[n]@,
                ),
                forall|k: Seq<char>| #[trigger] items@.dom().contains(k) ==> exists|n: int|
                    0 <= n < m && (#[trigger] keys@[n])@ == k,
            decreases keys@.len() - m,
        {
            let key: &String = &keys[m];
            let item: AggregatedStatsItemValue = aggregate_key(connections, key);
            let ghost items_before = items@;
            items.insert_sorted(key.clone(), item);
            proof {
                assert forall|n: int| 0 <= n < m + 1 implies items@.dom().contains(
                    (#[trigger] keys@[n])@,
                ) by {
                    if n < m {
                        assert(items_before.dom().contains(keys@[n]@));
                    }
                }
                assert forall|n: int| 0 <= n < m + 1 implies items@[(#[trigger] keys@[n])@]@
                    == spec_agg_item(cv, keys@[n]@) by {
                    if n < m {
                        assert(keys@[n]@ != keys@[m as int]@);
                    }
                }
                assert forall|k: Seq<char>| #[trigger] items@.dom().contains(k) implies exists|
                    n: int,
                |
                    0 <= n < m + 1 && (#[trigger] keys@[n])@ == k by {
                    if k != keys@[m as int]@ {
                        assert(items_before.dom().contains(k));
                    }
                }
            }
            m += 1;
        }
        proof {
            assert forall|k: Seq<char>| #[trigger] agg_items_view(items@).dom().contains(k)
                <==> spec_aggregate(cv).dom().contains(k) by {}
            assert(agg_items_view(items@) =~= spec_aggregate(cv));
        }
        AggregatedStats { items }
    }
}

/// Collects the union of the keys of all connections, each once.
fn collect_keys(connections: &Vec<ConnectionStats>) -> (keys: Vec<String>)
    requires
        conns_wf(connections@),
    ensures
        forall|a: int, b: int| 0 <= a < b < keys@.len() ==> (#[trigger] keys@[a])@ != (
        #[trigger] keys@[b])@,
        forall|n: int| 0 <= n < keys@.len() ==> any_key(
            conns_view(connections@),
            (#[trigger] keys@[n])@,
        ),
        forall|k: Seq<char>| any_key(conns_view(connections@), k) ==> exists|n: int|
            0 <= n < keys@.len() && (#[trigger] keys@[n])@ == k,
{
    let ghost cv = conns_view(connections@);
    let mut keys: Vec<String> = Vec::new();
    let mut i: usize = 0;
    while i < connections.len()
        invariant
            conns_wf(connections@),
            cv == conns_view(connections@),
            i <= connections@.len(),
            forall|a: int, b: int| 0 <= a < b < keys@.len() ==> (#[trigger] keys@[a])@ != (
            #[trigger] keys@[b])@,
            forall|n: int| 0 <= n < keys@.len() ==> any_key(cv, (#[trigger] keys@[n])@),
            forall|i2: int, l: int|
                0 <= i2 < i && 0 <= l < connections@[i2].items.entries().len() ==> exists|n: int|
                    0 <= n < keys@.len() && (#[trigger] keys@[n])@ == (#[trigger] connections@[i2]
                        .items.entries()[l]).0,
        decreases connections@.len() - i,
    {
        let conn: &ConnectionStats = &connections[i];
        let mut j: usize = 0;
        while j < conn.items.pairs.len()
            invariant
                conns_wf(connections@),
                cv == conns_view(connections@),
                i < connections@.len(),
                conn == &connections[i as int],
                j <= conn.items.pairs@.len(),
                forall|a: int, b: int| 0 <= a < b < keys@.len() ==> (#[trigger] keys@[a])@ != (
                #[trigger] keys@[b])@,
                forall|n: int| 0 <= n < keys@.len() ==> any_key(cv, (#[trigger] keys@[n])@),
                forall|i2: int, l: int|
                    0 <= i2 < i && 0 <= l < connections@[i2].items.entries().len() ==> exists|
                        n: int,
                    |
                        0 <= n < keys@.len() && (#[trigger] keys@[n])@ == (
                        #[trigger] connections@[i2].items.entries()[l]).0,
                forall|l: int|
                    0 <= l < j ==> exists|n: int|
                        0 <= n < keys@.len() && (#[trigger] keys@[n])@ == (
                        #[trigger] connections@[i as int].items.entries()[l]).0,
            decreases conn.items.pairs@.len() - j,
        {
            let key: &String = &conn.items.pairs[j].0;
            let ghost keys_before = keys@;
            let present = contains_string(&keys, key.as_str());
            if !present {
                keys.push(key.clone());
            }
            proof {
                assert(connections@[i as int].items.entries()[j as int].0 == key@);
                assert(connections@[i as int].items@.dom().contains(key@)) by {
                    connections@[i as int].items.lemma_view();
                }
                assert(cv[i as int] == connections@[i as int]@);
                assert(cv[i as int].items.dom().contains(key@));
                assert(any_key(cv, key@));
                assert forall|n: int| 0 <= n < keys_before.len() implies #[trigger] keys@[n]
                    == keys_before[n] by {}
                assert forall|a: int, b: int| 0 <= a < b < keys@.len() implies (
                #[trigger] keys@[a])@ != (#[trigger] keys@[b])@ by {
                    if b < keys_before.len() {
                        assert(keys_before[a]@ != keys_before[b]@);
                    } else {
                        assert(keys_before[a]@ != key@);
                    }
                }
                assert forall|n: int| 0 <= n < keys@.len() implies any_key(
                    cv,
                    (#[trigger] keys@[n])@,
                ) by {
                    if n < keys_before.len() {
                        assert(any_key(cv, keys_before[n]@));
                    }
                }
                assert(exists|n: int|
                    0 <= n < keys@.len() && (#[trigger] keys@[n])@ == key@) by {
                    if present {
                        let n = choose|n: int|
                            0 <= n < keys_before.len() && (#[trigger] keys_before[n])@ == key@;
                        assert(keys@[n]@ == key@);
                    } else {
                        assert(keys@[keys@.len() - 1]@ == key@);
                    }
                }
                assert forall|i2: int, l: int|
                    0 <= i2 < i && 0 <= l < connections@[i2].items.entries().len() implies exists|
                    n: int,
                |
                    0 <= n < keys@.len() && (#[trigger] keys@[n])@ == (#[trigger] connections@[i2]
                        .items.entries()[l]).0 by {
                    let n = choose|n: int|
                        0 <= n < keys_before.len() && (#[trigger] keys_before[n])@
                            == connections@[i2].items.entries()[l].0;
                    assert(keys@[n]@ == connections@[i2].items.entries()[l].0);
                }
                assert forall|l: int| 0 <= l < j + 1 implies exists|n: int|
                    0 <= n < keys@.len() && (#[trigger] keys@[n])@ == (
                    #[trigger] connections@[i as int].items.entries()[l]).0 by {
                    if l < j {
                        let n = choose|n: int|
                            0 <= n < keys_before.len() && (#[trigger] keys_before[n])@
                                == connections@[i as int].items.entries()[l].0;
                        assert(keys@[n]@ == connections@[i as int].items.entries()[l].0);
                    }
                }
            }
            j += 1;
        }
        i += 1;
    }
    proof {
        assert forall|k: Seq<char>| any_key(cv, k) implies exists|n: int|
            0 <= n < keys@.len() && (#[trigger] keys@[n])@ == k by {
            let i2 = choose|i2: int| 0 <= i2 < cv.len() && (#[trigger] cv[i2]).items.dom()
                .contains(k);
            assert(cv[i2] == connections@[i2]@);
            assert(connections@[i2].items@.dom().contains(k));
            connections@[i2].items.lemma_view();
            let l = choose|l: int|
                0 <= l < connections@[i2].items.entries().len() && (#[trigger] connections@[i2]
                    .items.entries()[l]).0 == k;
            assert(connections@[i2].items.entries()[l].0 == k);
        }
    }
    keys
}

/// Whether a key is already collected.
fn contains_string(keys: &Vec<String>, key: &str) -> (r: bool)
    ensures
        r == exists|n: int| 0 <= n < keys@.len() && (#[trigger] keys@[n])@ == key@,
{
    let mut n: usize = 0;
    while n < keys.len()
        invariant
            n <= keys@.len(),
            forall|m: int| 0 <= m < n ==> (#[trigger] keys@[m])@ != key@,
        decreases keys@.len() - n,
    {
        if crate::text::str_eq(keys[n].as_str(), key) {
            return true;
        }
        n += 1;
    }
    false
}

/// Sums one key over all connections.
fn aggregate_key(connections: &Vec<ConnectionStats>, key: &String) -> (r:
    AggregatedStatsItemValue)
    requires
        conns_wf(connections@),
    ensures
        r@ == spec_agg_item(conns_view(connections@), key@),
{
    let ghost cv = conns_view(connections@);
    let mut acc_val: i128 = 0;
    let mut has_v: bool = false;
    let mut acc_delta: i128 = 0;
    let mut has_d: bool = false;
    let mut j: usize = 0;
    proof {
        assert(cv.take(0) =~= Seq::<ConnView>::empty());
    }
    while j < connections.len()
        invariant
            conns_wf(connections@),
            cv == conns_view(connections@),
            j <= connections@.len(),
            acc_val == val_sum(cv.take(j as int), key@),
            acc_delta == delta_sum(cv.take(j as int), key@),
            has_v == any_val(cv.take(j as int), key@),
            has_d == any_delta(cv.take(j as int), key@),
            -(j as int) * MAX_STAT_MICROS <= acc_val <= (j as int) * MAX_STAT_MICROS,
            -(j as int) * MAX_STAT_MICROS <= acc_delta <= (j as int) * MAX_STAT_MICROS,
        decreases connections@.len() - j,
    {
        let conn: &ConnectionStats = &connections[j];
        proof {
            assert(connections@[j as int].wf());
            assert(cv[j as int] == connections@[j as int]@);
        }
        let mut v_add: i64 = 0;
        let mut v_has: bool = false;
        let mut d_add: i64 = 0;
        let mut d_has: bool = false;
        match conn.items.get(key.as_str()) {
            None => {
                proof {
                    assert(!cv[j as int].items.dom().contains(key@));
                    assert(!has_val(cv[j as int], key@));
                    assert(!has_delta(cv[j as int], key@));
                }
            },
            Some(item) => {
                proof {
                    assert(cv[j as int].items.dom().contains(key@));
                    assert(cv[j as int].items[key@] == item@);
                    assert(item.wf());
                }
                if let Some(n) = item.value.as_number() {
                    v_add = n.micros;
                    v_has = true;
                }
                if let Some(d) = &item.delta_per_sec {
                    d_add = d.micros;
                    d_has = true;
                }
            },
        }
        proof {
            assert(v_has == has_val(cv[j as int], key@));
            assert(d_has == has_delta(cv[j as int], key@));
            assert(v_add == val_contrib(cv[j as int], key@));
            assert(d_add == delta_contrib(cv[j as int], key@));
            lemma_val_sum_take(cv, key@, j as int);
            assert((j as int + 1) * MAX_STAT_MICROS == (j as int) * MAX_STAT_MICROS
                + MAX_STAT_MICROS) by (nonlinear_arith);
        }
        acc_val = acc_val + v_add as i128;
        acc_delta = acc_delta + d_add as i128;
        let ghost old_has_v = has_v;
        let ghost old_has_d = has_d;
        has_v = has_v || v_has;
        has_d = has_d || d_has;
        proof {
            assert(cv.take(j as int + 1).drop_last() =~= cv.take(j as int));
            assert(cv.take(j as int + 1).last() == cv[j as int]);
            assert(has_v == any_val(cv.take(j as int + 1), key@)) by {
                if has_v {
                    if old_has_v {
                        let w = choose|w: int|
                            0 <= w < cv.take(j as int).len() && has_val(
                                #[trigger] cv.take(j as int)[w],
                                key@,
                            );
                        assert(has_val(cv.take(j as int + 1)[w], key@));
                    } else {
                        assert(has_val(cv.take(j as int + 1)[j as int], key@));
                    }
                } else {
                    if any_val(cv.take(j as int + 1), key@) {
                        let w = choose|w: int|
                            0 <= w < cv.take(j as int + 1).len() && has_val(
                                #[trigger] cv.take(j as int + 1)[w],
                                key@,
                            );
                        if w < j {
                            assert(has_val(cv.take(j as int)[w], key@));
                        }
                        assert(false);
                    }
                }
            }
            assert(has_d == any_delta(cv.take(j as int + 1), key@)) by {
                if has_d {
                    if old_has_d {
                        let w = choose|w: int|
                            0 <= w < cv.take(j as int).len() && has_delta(
                                #[trigger] cv.take(j as int)[w],
                                key@,
                            );
                        assert(has_delta(cv.take(j as int + 1)[w], key@));
                    } else {
                        assert(has_delta(cv.take(j as int + 1)[j as int], key@));
                    }
                } else {
                    if any_delta(cv.take(j as int + 1), key@) {
                        let w = choose|w: int|
                            0 <= w < cv.take(j as int + 1).len() && has_delta(
                                #[trigger] cv.take(j as int + 1)[w],
                                key@,
                            );
                        if w < j {
                            assert(has_delta(cv.take(j as int)[w], key@));
                        }
                        assert(false);
                    }
                }
            }
        }
        j += 1;
    }
    proof {
        assert(cv.take(connections@.len() as int) =~= cv);
    }
    AggregatedStatsItemValue {
        value_sum: if has_v {
            Some(acc_val)
        } else {
            None
        },
        delta_per_sec: if has_d {
            Some(acc_delta)
        } else {
            None
        },
    }
}

} // verus!
