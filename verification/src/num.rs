//! Fixed-point representation of stat values.
//!
//! Stat values and rates are held in micro-units (millionths), so that the
//! delta arithmetic of the pipeline is exact integer arithmetic. The
//! representable range is symmetric and bounded so that sums over arbitrarily
//! many connections stay within `i128`.
use vstd::prelude::*;

verus! {

/// Largest magnitude, in micro-units, that a single stat value or rate may have.
pub const MAX_STAT_MICROS: i64 = 4_000_000_000_000_000_000;

/// A stat number in micro-units: `micros` stands for `micros / 1_000_000` units.
#[derive(Clone, Copy, Debug, PartialEq, Eq, Structural)]
pub struct FixedNum {
    pub micros: i64,
}

impl FixedNum {
    /// The value lies in the representable range.
    pub open spec fn wf(self) -> bool {
        -MAX_STAT_MICROS <= self.micros <= MAX_STAT_MICROS
    }

    /// Builds a number from micro-units; rejects values outside the range.
    pub fn from_micros(micros: i64) -> (r: Option<FixedNum>)
        ensures
            r is Some <==> -MAX_STAT_MICROS <= micros <= MAX_STAT_MICROS,
            r is Some ==> r->0.micros == micros && r->0.wf(),
    {
        if -MAX_STAT_MICROS <= micros && micros <= MAX_STAT_MICROS {
            Some(FixedNum { micros })
        } else {
            None
        }
    }

    /// Builds a number from whole units; rejects values outside the range.
    pub fn from_units(units: i64) -> (r: Option<FixedNum>)
        ensures
            r is Some <==> -MAX_STAT_MICROS <= units * 1_000_000 <= MAX_STAT_MICROS,
            r is Some ==> r->0.micros == units * 1_000_000 && r->0.wf(),
    {
        if -4_000_000_000_000 <= units && units <= 4_000_000_000_000 {
            Some(FixedNum { micros: units * 1_000_000 })
        } else {
            assert(units * 1_000_000 > MAX_STAT_MICROS || units * 1_000_000 < -MAX_STAT_MICROS)
                by (nonlinear_arith)
                requires
                    units > 4_000_000_000_000 || units < -4_000_000_000_000,
            ;
            None
        }
    }
}

/// Division truncating toward zero, for a positive divisor.
pub open spec fn div_trunc(a: int, b: int) -> int
    recommends
        b > 0,
{
    if a >= 0 {
        a / b
    } else {
        -((-a) / b)
    }
}

/// The rate of change, in micro-units per second, from `v0` to `v1` over
/// `dt` microseconds: `(v1 - v0) / dt` seconds, truncated toward zero.
/// `None` when the elapsed time is zero or negative, or when the rate falls
/// outside the representable range.
pub open spec fn spec_rate(v1: int, v0: int, dt: int) -> Option<int> {
    if dt <= 0 {
        None
    } else {
        let q = div_trunc((v1 - v0) * 1_000_000, dt);
        if -MAX_STAT_MICROS <= q <= MAX_STAT_MICROS {
            Some(q)
        } else {
            None
        }
    }
}

/// Computes `spec_rate` on fixed-point values.
pub fn rate_per_sec(v1: FixedNum, v0: FixedNum, dt_micros: i128) -> (r: Option<FixedNum>)
    requires
        v1.wf(),
        v0.wf(),
    ensures
        r is Some <==> spec_rate(v1.micros as int, v0.micros as int, dt_micros as int) is Some,
        r is Some ==> r->0.wf() && Some(r->0.micros as int) == spec_rate(
            v1.micros as int,
            v0.micros as int,
            dt_micros as int,
        ),
{
    if dt_micros <= 0 {
        return None;
    }
    let dv: i128 = v1.micros as i128 - v0.micros as i128;
    let neg: bool = dv < 0;
    let mag: u128 = if neg {
        (-dv) as u128
    } else {
        dv as u128
    };
    let scaled: u128 = mag * 1_000_000;
    let q: u128 = scaled / (dt_micros as u128);
    assert(q <= scaled);
    if q > MAX_STAT_MICROS as u128 {
        assert(div_trunc((v1.micros - v0.micros) * 1_000_000, dt_micros as int) > MAX_STAT_MICROS
            || div_trunc((v1.micros - v0.micros) * 1_000_000, dt_micros as int) < -MAX_STAT_MICROS);
        return None;
    }
    let m: i64 = if neg {
        -(q as i64)
    } else {
        q as i64
    };
    Some(FixedNum { micros: m })
}

} // verus!
