//! The raw shape of one connection's statistics, as received from the server.
//!
//! A `RawValue` is a JSON-like tree whose numbers are already held in the
//! library's fixed-point form. Numbers that do not fit the representable
//! range are kept as `BigNumber`, which flattening drops, the way non-finite
//! numbers are dropped.
use crate::kvmap::{lemma_entries_dom, lemma_entries_index, map_of_entries};
use crate::num::FixedNum;
use vstd::prelude::*;

verus! {

/// A JSON-like value carrying fixed-point numbers.
pub enum RawValue {
    Null,
    Bool(bool),
    Number(FixedNum),
    BigNumber,
    Text(String),
    Array(Vec<RawValue>),
    Object(Vec<(String, RawValue)>),
}

/// The mathematical shape of a `RawValue`.
pub enum RawView {
    Null,
    Bool(bool),
    Num(int),
    BigNum,
    Text(Seq<char>),
    Arr(Seq<RawView>),
    Obj(Seq<(Seq<char>, RawView)>),
}

/// The views of a list of values.
pub open spec fn raw_seq_view(s: Seq<RawValue>) -> Seq<RawView>
    decreases s,
{
    if s.len() == 0 {
        Seq::empty()
    } else {
        raw_seq_view(s.drop_last()).push(raw_view(s.last()))
    }
}

/// The views of a list of object fields.
pub open spec fn raw_fields_view(s: Seq<(String, RawValue)>) -> Seq<(Seq<char>, RawView)>
    decreases s,
{
    if s.len() == 0 {
        Seq::empty()
    } else {
        raw_fields_view(s.drop_last()).push((s.last().0@, raw_view(s.last().1)))
    }
}

/// The mathematical view of a raw value.
pub open spec fn raw_view(v: RawValue) -> RawView
    decreases v,
{
    match v {
        RawValue::Null => RawView::Null,
        RawValue::Bool(b) => RawView::Bool(b),
        RawValue::Number(n) => RawView::Num(n.micros as int),
        RawValue::BigNumber => RawView::BigNum,
        RawValue::Text(s) => RawView::Text(s@),
        RawValue::Array(a) => RawView::Arr(raw_seq_view(a@)),
        RawValue::Object(fields) => RawView::Obj(raw_fields_view(fields@)),
    }
}

/// `raw_seq_view` is the pointwise view.
pub proof fn lemma_raw_seq_view(s: Seq<RawValue>)
    ensures
        raw_seq_view(s).len() == s.len(),
        forall|i: int| 0 <= i < s.len() ==> #[trigger] raw_seq_view(s)[i] == raw_view(s[i]),
    decreases s,
{
    if s.len() > 0 {
        lemma_raw_seq_view(s.drop_last());
        assert forall|i: int| 0 <= i < s.len() implies #[trigger] raw_seq_view(s)[i] == raw_view(
            s[i],
        ) by {
            if i < s.len() - 1 {
                assert(raw_seq_view(s)[i] == raw_seq_view(s.drop_last())[i]);
                assert(s.drop_last()[i] == s[i]);
            }
        }
    }
}

/// `raw_fields_view` is the pointwise view.
pub proof fn lemma_raw_fields_view(s: Seq<(String, RawValue)>)
    ensures
        raw_fields_view(s).len() == s.len(),
        forall|i: int| 0 <= i < s.len() ==> #[trigger] raw_fields_view(s)[i] == (
            s[i].0@,
            raw_view(s[i].1),
        ),
    decreases s,
{
    if s.len() > 0 {
        lemma_raw_fields_view(s.drop_last());
        assert forall|i: int| 0 <= i < s.len() implies #[trigger] raw_fields_view(s)[i] == (
            s[i].0@,
            raw_view(s[i].1),
        ) by {
            if i < s.len() - 1 {
                assert(raw_fields_view(s)[i] == raw_fields_view(s.drop_last())[i]);
                assert(s.drop_last()[i] == s[i]);
            }
        }
    }
}

/// Looks a field of a raw object up; the last occurrence of a key decides,
/// as in the map view of the field list.
pub fn find_field<'a>(fields: &'a Vec<(String, RawValue)>, name: &str) -> (r: Option<
    &'a RawValue,
>)
    ensures
        match r {
            Some(v) => map_of_entries(raw_fields_view(fields@)).dom().contains(name@)
                && map_of_entries(raw_fields_view(fields@))[name@] == raw_view(*v),
            None => !map_of_entries(raw_fields_view(fields@)).dom().contains(name@),
        },
{
    proof {
        lemma_raw_fields_view(fields@);
        lemma_entries_dom(raw_fields_view(fields@));
    }
    let ghost fv = raw_fields_view(fields@);
    let mut i: usize = fields.len();
    while i > 0
        invariant
            i <= fields.len(),
            fv == raw_fields_view(fields@),
            fv.len() == fields@.len(),
            forall|j: int| 0 <= j < fields@.len() ==> #[trigger] fv[j] == (
                fields@[j].0@,
                raw_view(fields@[j].1),
            ),
            forall|j: int| i <= j < fields@.len() ==> (#[trigger] fv[j]).0 != name@,
            forall|k: Seq<char>| #[trigger] map_of_entries(fv).dom().contains(k)
                <==> crate::kvmap::entries_have_key(fv, k),
        decreases i,
    {
        i = i - 1;
        if crate::text::str_eq(fields[i].0.as_str(), name) {
            proof {
                assert(fv[i as int].0 == name@);
                lemma_entries_index(fv, i as int);
            }
            return Some(&fields[i].1);
        }
        proof {
            assert(fv[i as int].0 == fields@[i as int].0@);
        }
    }
    proof {
        if map_of_entries(fv).dom().contains(name@) {
            let j = choose|j: int| 0 <= j < fv.len() && (#[trigger] fv[j]).0 == name@;
            assert(false);
        }
    }
    None
}

} // verus!
