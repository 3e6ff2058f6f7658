//! Milliseconds since the Unix epoch, and the calendar day they fall on.

use vstd::prelude::*;

use crate::calendar::{max_dse, min_dse, Date, MAX_YEAR, MIN_YEAR};

verus! {

/// Milliseconds per day.
pub const MS_PER_DAY: i64 = 86_400_000;

/// A count of milliseconds since 1970-01-01T00:00:00 UTC; negative for
/// earlier instants.
#[derive(Clone, Copy, PartialEq, Eq, Structural, Debug)]
pub struct MsSinceEpoch(pub i64);

impl MsSinceEpoch {
    /// The calendar day this instant falls on, or `None` when it lies
    /// outside the representable date range.
    pub fn as_naive_date(&self) -> (r: Option<Date>)
        ensures
            (r is Some) <==> (min_dse() * MS_PER_DAY <= self.0 < (max_dse() + 1) * MS_PER_DAY),
            r matches Some(d) ==> d.valid() && d.dse() == self.0 as int / MS_PER_DAY as int,
    {
        proof {
            crate::calendar::lemma_max_dse();
            crate::calendar::lemma_dby_bounds(MIN_YEAR as int);
            crate::calendar::lemma_dby_bounds(MAX_YEAR as int + 1);
            vstd::arithmetic::div_mod::lemma_fundamental_div_mod(self.0 as int, MS_PER_DAY as int);
        }
        let days = self.0.checked_div_euclid(MS_PER_DAY).unwrap();
        let lo = crate::calendar::days_before_year_e(MIN_YEAR) as i64;
        let hi = crate::calendar::max_dse_e() as i64;
        if days < lo || days > hi {
            proof {
                lemma_day_ms_bounds(self.0 as int, days as int);
            }
            return None;
        }
        proof {
            lemma_day_ms_bounds(self.0 as int, days as int);
        }
        Some(Date::from_dse(days as i32))
    }
}

/// An instant lies in the day range exactly when its day quotient does.
proof fn lemma_day_ms_bounds(ms: int, days: int)
    requires
        days == ms / MS_PER_DAY as int,
    ensures
        (min_dse() <= days <= max_dse()) <==> (min_dse() * MS_PER_DAY <= ms < (max_dse() + 1)
            * MS_PER_DAY),
{
    vstd::arithmetic::div_mod::lemma_fundamental_div_mod(ms, MS_PER_DAY as int);
    let q = ms / MS_PER_DAY as int;
    let r = ms % MS_PER_DAY as int;
    assert((min_dse() <= q <= max_dse()) <==> (min_dse() * MS_PER_DAY <= MS_PER_DAY * q + r < (
    max_dse() + 1) * MS_PER_DAY)) by (nonlinear_arith)
        requires
            0 <= r < MS_PER_DAY,
    ;
}

} // verus!
