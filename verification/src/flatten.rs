//! Flattening a nested stats object into a dot-joined key space.
use crate::kvmap::KvMap;
use crate::num::MAX_STAT_MICROS;
use crate::raw::{lemma_raw_fields_view, raw_fields_view, raw_view, RawValue, RawView};
use crate::value::{SpecValue, StatsItemValue};
use vstd::prelude::*;

verus! {

/// The flattened key for a child `k` under `prefix`.
pub open spec fn join_key(prefix: Seq<char>, k: Seq<char>) -> Seq<char> {
    if prefix.len() == 0 {
        k
    } else {
        prefix + seq!['.'] + k
    }
}

/// The flat map of one value placed at `prefix`: scalars become single
/// entries, objects flatten recursively, and arrays, nulls and numbers
/// outside the representable range disappear.
pub open spec fn flat_of(prefix: Seq<char>, v: RawView) -> Map<Seq<char>, SpecValue>
    decreases v,
{
    match v {
        RawView::Num(m) => if -MAX_STAT_MICROS <= m <= MAX_STAT_MICROS {
            Map::empty().insert(prefix, SpecValue::Num(m))
        } else {
            Map::empty()
        },
        RawView::Bool(b) => Map::empty().insert(prefix, SpecValue::Flag(b)),
        RawView::Text(s) => Map::empty().insert(prefix, SpecValue::Text(s)),
        RawView::Obj(fields) => flat_of_fields(prefix, fields),
        _ => Map::empty(),
    }
}

/// The flat map of an object's fields under `prefix`, later fields
/// overriding earlier ones on a key collision.
pub open spec fn flat_of_fields(prefix: Seq<char>, fields: Seq<(Seq<char>, RawView)>) -> Map<
    Seq<char>,
    SpecValue,
>
    decreases fields,
{
    if fields.len() == 0 {
        Map::empty()
    } else {
        flat_of_fields(prefix, fields.drop_last()).union_prefer_right(
            flat_of(join_key(prefix, fields.last().0), fields.last().1),
        )
    }
}

/// The stat items of one connection object: every top-level field flattened,
/// except `connection_id` and `timestamp`, which the record consumes
/// separately.
pub open spec fn flat_top(fields: Seq<(Seq<char>, RawView)>) -> Map<Seq<char>, SpecValue>
    decreases fields,
{
    if fields.len() == 0 {
        Map::empty()
    } else {
        let rest = flat_top(fields.drop_last());
        let f = fields.last();
        if f.0 == "connection_id"@ || f.0 == "timestamp"@ {
            rest
        } else {
            rest.union_prefer_right(flat_of(f.0, f.1))
        }
    }
}

/// The mathematical values of a flat item map.
pub open spec fn view_items(m: Map<Seq<char>, StatsItemValue>) -> Map<Seq<char>, SpecValue> {
    Map::new(|k: Seq<char>| m.dom().contains(k), |k: Seq<char>| m[k]@)
}

/// Every value of the map is well-formed.
pub open spec fn items_all_wf(m: Map<Seq<char>, StatsItemValue>) -> bool {
    forall|k: Seq<char>| #[trigger] m.dom().contains(k) ==> m[k].wf()
}

proof fn lemma_flat_fields_take(prefix: Seq<char>, s: Seq<(Seq<char>, RawView)>, i: int)
    requires
        0 <= i < s.len(),
    ensures
        flat_of_fields(prefix, s.take(i + 1)) == flat_of_fields(prefix, s.take(i))
            .union_prefer_right(flat_of(join_key(prefix, s[i].0), s[i].1)),
{
    assert(s.take(i + 1).drop_last() =~= s.take(i));
    assert(s.take(i + 1).last() == s[i]);
}

proof fn lemma_flat_top_take(s: Seq<(Seq<char>, RawView)>, i: int)
    requires
        0 <= i < s.len(),
    ensures
        flat_top(s.take(i + 1)) == if s[i].0 == "connection_id"@ || s[i].0 == "timestamp"@ {
            flat_top(s.take(i))
        } else {
            flat_top(s.take(i)).union_prefer_right(flat_of(s[i].0, s[i].1))
        },
{
    assert(s.take(i + 1).drop_last() =~= s.take(i));
    assert(s.take(i + 1).last() == s[i]);
}

/// Flattens `v` into `items` under the key `key`.
fn flatten_value(key: String, v: &RawValue, items: &mut KvMap<StatsItemValue>)
    requires
        old(items).wf(),
    ensures
        final(items).wf(),
        view_items(final(items)@) == view_items(old(items)@).union_prefer_right(
            flat_of(key@, raw_view(*v)),
        ),
        items_all_wf(old(items)@) ==> items_all_wf(final(items)@),
    decreases *v,
{
    match v {
        RawValue::Number(n) => {
            if -MAX_STAT_MICROS <= n.micros && n.micros <= MAX_STAT_MICROS {
                items.insert(key, StatsItemValue::Number(*n));
            }
            assert(view_items(items@) =~= view_items(old(items)@).union_prefer_right(
                flat_of(key@, raw_view(*v)),
            ));
        },
        RawValue::Bool(b) => {
            items.insert(key, StatsItemValue::Bool(*b));
            assert(view_items(items@) =~= view_items(old(items)@).union_prefer_right(
                flat_of(key@, raw_view(*v)),
            ));
        },
        RawValue::Text(s) => {
            items.insert(key, StatsItemValue::Text(s.clone()));
            assert(view_items(items@) =~= view_items(old(items)@).union_prefer_right(
                flat_of(key@, raw_view(*v)),
            ));
        },
        RawValue::Object(fields) => {
            flatten_fields(&key, fields, items);
        },
        _ => {
            assert(view_items(items@) =~= view_items(old(items)@).union_prefer_right(
                flat_of(key@, raw_view(*v)),
            ));
        },
    }
}

/// Flattens each field of an object under `prefix` into `items`.
fn flatten_fields(prefix: &String, fields: &Vec<(String, RawValue)>, items: &mut KvMap<
    StatsItemValue,
>)
    requires
        old(items).wf(),
    ensures
        final(items).wf(),
        view_items(final(items)@) == view_items(old(items)@).union_prefer_right(
            flat_of_fields(prefix@, raw_fields_view(fields@)),
        ),
        items_all_wf(old(items)@) ==> items_all_wf(final(items)@),
    decreases fields@,
{
    let ghost fv = raw_fields_view(fields@);
    proof {
        lemma_raw_fields_view(fields@);
    }
    let mut i: usize = 0;
    while i < fields.len()
        invariant
            items.wf(),
            i <= fields.len(),
            fv == raw_fields_view(fields@),
            fv.len() == fields@.len(),
            forall|j: int| 0 <= j < fields@.len() ==> #[trigger] fv[j] == (
                fields@[j].0@,
                raw_view(fields@[j].1),
            ),
            view_items(items@) == view_items(old(items)@).union_prefer_right(
                flat_of_fields(prefix@, fv.take(i as int)),
            ),
            items_all_wf(old(items)@) ==> items_all_wf(items@),
        decreases fields@.len() - i,
    {
        let child_key: String = if prefix.as_str().is_empty() {
            fields[i].0.clone()
        } else {
            let mut ck = prefix.clone();
            ck.append(".");
            ck.append(fields[i].0.as_str());
            proof {
                reveal_strlit(".");
                assert("."@ =~= seq!['.']);
            }
            ck
        };
        assert(child_key@ == join_key(prefix@, fields@[i as int].0@));
        flatten_value(child_key, &fields[i].1, items);
        proof {
            lemma_flat_fields_take(prefix@, fv, i as int);
            assert(view_items(items@) =~= view_items(old(items)@).union_prefer_right(
                flat_of_fields(prefix@, fv.take(i as int + 1)),
            ));
        }
        i += 1;
    }
    proof {
        assert(fv.take(fields@.len() as int) =~= fv);
    }
}

/// Builds the flat stat-item map of one connection object, skipping the
/// `connection_id` and `timestamp` fields.
///
/// Values are fixed-point micro-units: a number whose magnitude exceeds
/// `MAX_STAT_MICROS` micro-units (four trillion whole units) is not
/// representable and is dropped here, the way a non-finite number is.
pub fn flatten_connection(fields: &Vec<(String, RawValue)>) -> (items: KvMap<StatsItemValue>)
    ensures
        items.wf(),
        view_items(items@) == flat_top(raw_fields_view(fields@)),
        items_all_wf(items@),
{
    let ghost fv = raw_fields_view(fields@);
    proof {
        lemma_raw_fields_view(fields@);
    }
    let mut items: KvMap<StatsItemValue> = KvMap::new();
    assert(view_items(items@) =~= flat_top(fv.take(0)));
    let mut i: usize = 0;
    while i < fields.len()
        invariant
            items.wf(),
            i <= fields.len(),
            fv == raw_fields_view(fields@),
            fv.len() == fields@.len(),
            forall|j: int| 0 <= j < fields@.len() ==> #[trigger] fv[j] == (
                fields@[j].0@,
                raw_view(fields@[j].1),
            ),
            view_items(items@) == flat_top(fv.take(i as int)),
            items_all_wf(items@),
        decreases fields@.len() - i,
    {
        let skip = crate::text::str_eq(fields[i].0.as_str(), "connection_id")
            || crate::text::str_eq(fields[i].0.as_str(), "timestamp");
        if !skip {
            flatten_value(fields[i].0.clone(), &fields[i].1, &mut items);
        }
        proof {
            lemma_flat_top_take(fv, i as int);
            assert(view_items(items@) =~= flat_top(fv.take(i as int + 1)));
        }
        i += 1;
    }
    proof {
        assert(fv.take(fields@.len() as int) =~= fv);
    }
    items
}

} // verus!
