//! Stat item values and their display forms.
use crate::num::FixedNum;
use crate::text::{
    all_ascii, chars_of, comma_str, format_u64, push_micros, render_micros, string_from_ascii,
};
use vstd::prelude::*;

verus! {

/// The mathematical value of a stat item.
pub enum SpecValue {
    Num(int),
    Flag(bool),
    Text(Seq<char>),
}

/// A scalar stat value: a number, a boolean, or a string.
#[derive(Clone, Debug)]
pub enum StatsItemValue {
    Number(FixedNum),
    Bool(bool),
    Text(String),
}

impl View for StatsItemValue {
    type V = SpecValue;

    open spec fn view(&self) -> SpecValue {
        match self {
            StatsItemValue::Number(n) => SpecValue::Num(n.micros as int),
            StatsItemValue::Bool(b) => SpecValue::Flag(*b),
            StatsItemValue::Text(s) => SpecValue::Text(s@),
        }
    }
}

impl StatsItemValue {
    /// Numbers lie in the representable range.
    pub open spec fn wf(self) -> bool {
        match self {
            StatsItemValue::Number(n) => n.wf(),
            _ => true,
        }
    }

    /// The numeric value, if the item is a number.
    pub fn as_number(&self) -> (r: Option<FixedNum>)
        ensures
            match r {
                Some(n) => self@ == SpecValue::Num(n.micros as int),
                None => !(self@ is Num),
            },
    {
        if let StatsItemValue::Number(n) = self {
            Some(*n)
        } else {
            None
        }
    }

    /// An exact copy of the value.
    pub fn duplicate(&self) -> (r: Self)
        ensures
            r@ == self@,
            self.wf() ==> r.wf(),
    {
        match self {
            StatsItemValue::Number(n) => StatsItemValue::Number(*n),
            StatsItemValue::Bool(b) => StatsItemValue::Bool(*b),
            StatsItemValue::Text(s) => StatsItemValue::Text(s.clone()),
        }
    }

    /// Renders the value in its natural display form.
    pub fn render(&self) -> (s: String)
        requires
            self.wf(),
        ensures
            s@ == spec_render_value(self@),
    {
        match self {
            StatsItemValue::Number(n) => {
                let mut out: Vec<u8> = Vec::new();
                push_micros(&mut out, n.micros);
                proof {
                    assert(chars_of(out@) =~= render_micros(n.micros as int));
                    assert(all_ascii(Seq::<u8>::empty()));
                }
                string_from_ascii(out)
            },
            StatsItemValue::Bool(b) => {
                proof {
                    reveal_strlit("true");
                    reveal_strlit("false");
                    assert("true"@ =~= seq!['t', 'r', 'u', 'e']);
                    assert("false"@ =~= seq!['f', 'a', 'l', 's', 'e']);
                }
                if *b {
                    "true".to_owned()
                } else {
                    "false".to_owned()
                }
            },
            StatsItemValue::Text(s) => s.clone(),
        }
    }
}

impl PartialEq for StatsItemValue {
    fn eq(&self, other: &Self) -> (r: bool) {
        match (self, other) {
            (StatsItemValue::Number(a), StatsItemValue::Number(b)) => a.micros == b.micros,
            (StatsItemValue::Bool(a), StatsItemValue::Bool(b)) => *a == *b,
            (StatsItemValue::Text(a), StatsItemValue::Text(b)) => a.eq(b),
            _ => false,
        }
    }
}

impl Eq for StatsItemValue {

}

impl vstd::std_specs::cmp::PartialEqSpecImpl for StatsItemValue {
    open spec fn obeys_eq_spec() -> bool {
        true
    }

    open spec fn eq_spec(&self, other: &Self) -> bool {
        self@ == other@
    }
}

/// How a stat value is shown: numbers in decimal, booleans as `true`/`false`,
/// strings as themselves.
pub open spec fn spec_render_value(v: SpecValue) -> Seq<char> {
    match v {
        SpecValue::Num(m) => render_micros(m),
        SpecValue::Flag(b) => if b {
            seq!['t', 'r', 'u', 'e']
        } else {
            seq!['f', 'a', 'l', 's', 'e']
        },
        SpecValue::Text(s) => s,
    }
}

/// The micro-unit value truncated to whole units, negative values to zero,
/// as the dashboard shows a connection's stat value.
pub open spec fn micros_as_units(m: int) -> nat {
    if m < 0 {
        0
    } else {
        (m / 1_000_000) as nat
    }
}

/// The micro-unit value rounded to the nearest whole unit, negative values
/// to zero, as the dashboard shows rates and sums.
pub open spec fn micros_rounded(m: int) -> nat {
    if m < 0 {
        0
    } else {
        ((m + 500_000) / 1_000_000) as nat
    }
}

/// `micros_rounded`, saturated at the largest `u64`, for aggregated sums.
pub open spec fn micros_rounded_sat(m: int) -> nat {
    if micros_rounded(m) > u64::MAX {
        u64::MAX as nat
    } else {
        micros_rounded(m)
    }
}

/// A stat value of one connection, with its rate of change since the
/// previous observation, when one exists.
#[derive(Clone, Debug)]
pub struct ConnectionStatsItemValue {
    pub value: StatsItemValue,
    pub delta_per_sec: Option<FixedNum>,
}

/// The mathematical value of a connection's stat item.
pub struct ConnItemView {
    pub value: SpecValue,
    pub delta_per_sec: Option<int>,
}

impl View for ConnectionStatsItemValue {
    type V = ConnItemView;

    open spec fn view(&self) -> ConnItemView {
        ConnItemView {
            value: self.value@,
            delta_per_sec: match self.delta_per_sec {
                Some(d) => Some(d.micros as int),
                None => None,
            },
        }
    }
}

impl ConnectionStatsItemValue {
    /// The value and the rate lie in the representable range.
    pub open spec fn wf(self) -> bool {
        &&& self.value.wf()
        &&& match self.delta_per_sec {
            Some(d) => d.wf(),
            None => true,
        }
    }

    /// The value as the dashboard shows it: numbers truncated to whole units
    /// with thousands separators, other values in their natural form.
    pub fn format_value(&self) -> (s: String)
        requires
            self.wf(),
        ensures
            s@ == match self@.value {
                SpecValue::Num(m) => comma_str(micros_as_units(m)),
                v => spec_render_value(v),
            },
    {
        if let StatsItemValue::Number(n) = &self.value {
            let units: u64 = if n.micros < 0 {
                0
            } else {
                (n.micros / 1_000_000) as u64
            };
            format_u64(units)
        } else {
            self.value.render()
        }
    }

    /// The rate as the dashboard shows it: rounded to whole units, blank when
    /// absent.
    pub fn format_delta_per_sec(&self) -> (s: String)
        requires
            self.wf(),
        ensures
            s@ == match self@.delta_per_sec {
                Some(d) => comma_str(micros_rounded(d)),
                None => Seq::<char>::empty(),
            },
    {
        if let Some(d) = &self.delta_per_sec {
            let units: u64 = if d.micros < 0 {
                0
            } else {
                ((d.micros + 500_000) / 1_000_000) as u64
            };
            format_u64(units)
        } else {
            String::new()
        }
    }
}

/// One key's aggregation across all surviving connections: the sum of the
/// numeric values and the sum of the available rates, each absent when no
/// connection contributed.
#[derive(Clone, Copy, Debug)]
pub struct AggregatedStatsItemValue {
    pub value_sum: Option<i128>,
    pub delta_per_sec: Option<i128>,
}

/// The mathematical value of an aggregated stat item.
pub struct AggItemView {
    pub value_sum: Option<int>,
    pub delta_per_sec: Option<int>,
}

impl View for AggregatedStatsItemValue {
    type V = AggItemView;

    open spec fn view(&self) -> AggItemView {
        AggItemView {
            value_sum: match self.value_sum {
                Some(v) => Some(v as int),
                None => None,
            },
            delta_per_sec: match self.delta_per_sec {
                Some(v) => Some(v as int),
                None => None,
            },
        }
    }
}

impl AggregatedStatsItemValue {
    /// The sum as the dashboard shows it: rounded to whole units, saturated,
    /// blank when absent.
    pub fn format_value_sum(&self) -> (s: String)
        ensures
            s@ == match self@.value_sum {
                Some(v) => comma_str(micros_rounded_sat(v)),
                None => Seq::<char>::empty(),
            },
    {
        if let Some(v) = &self.value_sum {
            format_u64(round_sum(*v))
        } else {
            String::new()
        }
    }

    /// The summed rate as the dashboard shows it: rounded to whole units,
    /// saturated, blank when absent.
    pub fn format_delta_per_sec(&self) -> (s: String)
        ensures
            s@ == match self@.delta_per_sec {
                Some(v) => comma_str(micros_rounded_sat(v)),
                None => Seq::<char>::empty(),
            },
    {
        if let Some(v) = &self.delta_per_sec {
            format_u64(round_sum(*v))
        } else {
            String::new()
        }
    }
}

/// Rounds a micro-unit sum to whole units, negative sums to zero, saturating
/// at the largest `u64`.
fn round_sum(v: i128) -> (r: u64)
    ensures
        r == micros_rounded_sat(v as int),
{
    if v < 0 {
        0
    } else {
        let q: u128 = (v as u128 + 500_000) / 1_000_000;
        if q > u64::MAX as u128 {
            u64::MAX
        } else {
            q as u64
        }
    }
}

} // verus!
