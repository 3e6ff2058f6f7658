//! Month-aligned padding and rounding of exact timestamp ranges: each
//! endpoint is moved by whole months and snapped to a multiple of a
//! configurable month interval, the start downward and the end upward,
//! always landing on day 1 at midnight.

use vstd::prelude::*;

use crate::calendar::{valid_ymd, Date, MAX_YEAR, MIN_YEAR};
use crate::timestamp::Timestamp;
use crate::year_month_day::month_index;
use core::ops::Range;

verus! {

/// An exact timestamp range.
pub struct DateTimeRange(pub Range<Timestamp>);

/// Where rounding sends a month: `mi` is a zero-based index on the
/// unbounded month axis (year times twelve plus month). The month's
/// 1-based position in its year is moved down (toward January) or up to a
/// multiple of the interval; an interval of one changes nothing.
pub open spec fn rounded_month_index(mi: int, interval: int, round_up: bool) -> int {
    let m1: int = mi % 12 + 1;
    let r1: int = if interval > 1 {
        if round_up {
            m1 + ((interval - (m1 % interval)) % interval)
        } else {
            m1 - (m1 % interval)
        }
    } else {
        m1
    };
    12 * (mi / 12) + r1 - 1
}

/// Rounding is idempotent: a month already rounded for interval `I` is
/// left in place, for the intervals that divide a year evenly. (For an
/// interval that does not divide twelve, a rounded month that crossed a
/// year boundary can change its position in the year, so a second pass
/// may move it again.)
pub proof fn lemma_rounding_idempotent(mi: int, interval: int, round_up: bool)
    requires
        1 <= interval <= 12,
        12int % interval == 0,
    ensures
        rounded_month_index(rounded_month_index(mi, interval, round_up), interval, round_up)
            == rounded_month_index(mi, interval, round_up),
{
    let m1: int = mi % 12 + 1;
    let r1: int = if interval > 1 {
        if round_up {
            m1 + ((interval - (m1 % interval)) % interval)
        } else {
            m1 - (m1 % interval)
        }
    } else {
        m1
    };
    let rm = rounded_month_index(mi, interval, round_up);
    assert(rm == 12 * (mi / 12) + r1 - 1);
    vstd::arithmetic::div_mod::lemma_fundamental_div_mod(mi, 12);
    if interval > 1 {
        assert(r1 % interval == 0) by (nonlinear_arith)
            requires
                1 <= interval <= 12,
                0 <= m1 % interval < interval,
                0 <= (interval - (m1 % interval)) % interval < interval,
                (r1 == m1 - (m1 % interval)) || (r1 == m1 + ((interval - (m1 % interval))
                    % interval)),
                interval > 1,
        ;
        assert(-10 <= r1 <= 23) by (nonlinear_arith)
            requires
                0 <= mi % 12 < 12,
                m1 == mi % 12 + 1,
                0 <= m1 % interval < interval <= 12,
                0 <= (interval - (m1 % interval)) % interval < interval <= 12,
                (r1 == m1 - (m1 % interval)) || (r1 == m1 + ((interval - (m1 % interval))
                    % interval)),
        ;
        let m1b = rm % 12 + 1;
        assert(m1b == r1 || m1b == r1 + 12 || m1b == r1 - 12) by (nonlinear_arith)
            requires
                rm == 12 * (mi / 12) + r1 - 1,
                -10 <= r1 <= 23,
                m1b == rm % 12 + 1,
        ;
        assert(m1b % interval == 0) by (nonlinear_arith)
            requires
                m1b == r1 || m1b == r1 + 12 || m1b == r1 - 12,
                r1 % interval == 0,
                12int % interval == 0,
                1 < interval <= 12,
        ;
        assert((interval - (m1b % interval)) % interval == 0) by (nonlinear_arith)
            requires
                m1b % interval == 0,
                1 < interval <= 12,
        ;
        assert(12 * (rm / 12) + m1b - 1 == rm) by {
            vstd::arithmetic::div_mod::lemma_fundamental_div_mod(rm, 12);
        }
    } else {
        assert(12 * (rm / 12) + (rm % 12 + 1) - 1 == rm) by {
            vstd::arithmetic::div_mod::lemma_fundamental_div_mod(rm, 12);
        }
    }
}

/// A month index determines the year and the month: two rounded endpoints
/// with equal indices are the same calendar month.
pub proof fn lemma_month_index_injective(y1: int, m1: int, y2: int, m2: int)
    requires
        1 <= m1 <= 12,
        1 <= m2 <= 12,
        month_index(y1, m1) == month_index(y2, m2),
    ensures
        y1 == y2,
        m1 == m2,
{
    assert(y1 == y2 && m1 == m2) by (nonlinear_arith)
        requires
            1 <= m1 <= 12,
            1 <= m2 <= 12,
            y1 * 12 + m1 - 1 == y2 * 12 + m2 - 1,
    ;
}

/// Pad a timestamp's month by `padding_mths` and round it to a multiple
/// of `rounding_interval_mths` months, down (toward January) or up; the
/// result is day 1 of the rounded month, at midnight.
pub fn round_date(dt: &Timestamp, padding_mths: i32, rounding_interval_mths: i32, round_up: bool)
    -> (r: Timestamp)
    requires
        dt.valid(),
        1 <= rounding_interval_mths <= 12,
        -24_000_000 <= padding_mths <= 24_000_000,
        MIN_YEAR <= rounded_month_index(
            month_index(dt.date.yr as int, dt.date.mth1 as int) + padding_mths,
            rounding_interval_mths as int,
            round_up,
        ) / 12 <= MAX_YEAR,
    ensures
        r.date.valid(),
        r.date.day1 == 1,
        r.secs == 0,
        r.nanos == 0,
        month_index(r.date.yr as int, r.date.mth1 as int) == rounded_month_index(
            month_index(dt.date.yr as int, dt.date.mth1 as int) + padding_mths,
            rounding_interval_mths as int,
            round_up,
        ),
{
    let iv = rounding_interval_mths as i64;
    let mi: i64 = dt.date.yr as i64 * 12 + (dt.date.mth1 as i64 - 1) + padding_mths as i64;
    let m1: i64 = mi.checked_rem_euclid(12).unwrap() + 1;
    let r1: i64 = if rounding_interval_mths > 1 {
        if round_up {
            m1 + (iv - m1.checked_rem_euclid(iv).unwrap()).checked_rem_euclid(iv).unwrap()
        } else {
            m1 - m1.checked_rem_euclid(iv).unwrap()
        }
    } else {
        m1
    };
    let rm: i64 = 12 * mi.checked_div_euclid(12).unwrap() + r1 - 1;
    proof {
        vstd::arithmetic::div_mod::lemma_fundamental_div_mod(mi as int, 12);
        vstd::arithmetic::div_mod::lemma_fundamental_div_mod(rm as int, 12);
    }
    let y = rm.checked_div_euclid(12).unwrap() as i32;
    let m = (rm.checked_rem_euclid(12).unwrap() + 1) as u32;
    Timestamp { date: Date { yr: y, mth1: m, day1: 1 }, secs: 0, nanos: 0 }
}

impl DateTimeRange {
    /// Both endpoints of a padded-and-rounded range stay representable.
    pub open spec fn can_round(range: Range<Timestamp>, pad_mths: int, nearest_mths: int) -> bool {
        &&& range.start.valid()
        &&& range.end.valid()
        &&& 1 <= nearest_mths <= 12
        &&& -24_000_000 <= pad_mths <= 24_000_000
        &&& MIN_YEAR <= rounded_month_index(
            month_index(range.start.date.yr as int, range.start.date.mth1 as int) - pad_mths,
            nearest_mths,
            false,
        ) / 12 <= MAX_YEAR
        &&& MIN_YEAR <= rounded_month_index(
            month_index(range.end.date.yr as int, range.end.date.mth1 as int) + pad_mths,
            nearest_mths,
            true,
        ) / 12 <= MAX_YEAR
    }

    /// Pad a range outward by whole months and round each endpoint to the
    /// month interval: the start down, the end up.
    pub fn pad_and_round_range_dt(dt: &Range<Timestamp>, pad_mths: i32, nearest_mths: i32) -> (r:
        Range<Timestamp>)
        requires
            DateTimeRange::can_round(*dt, pad_mths as int, nearest_mths as int),
        ensures
            r.start.date.valid() && r.start.date.day1 == 1 && r.start.secs == 0 && r.start.nanos
                == 0,
            r.end.date.valid() && r.end.date.day1 == 1 && r.end.secs == 0 && r.end.nanos == 0,
            month_index(r.start.date.yr as int, r.start.date.mth1 as int) == rounded_month_index(
                month_index(dt.start.date.yr as int, dt.start.date.mth1 as int) - pad_mths,
                nearest_mths as int,
                false,
            ),
            month_index(r.end.date.yr as int, r.end.date.mth1 as int) == rounded_month_index(
                month_index(dt.end.date.yr as int, dt.end.date.mth1 as int) + pad_mths,
                nearest_mths as int,
                true,
            ),
    {
        let start = round_date(&dt.start, 0 - pad_mths, nearest_mths, false);
        let end = round_date(&dt.end, pad_mths, nearest_mths, true);
        Range { start, end }
    }

    /// Pad and round this range; see `pad_and_round_range_dt`.
    pub fn pad_and_round_range(&self, pad_mths: i32, nearest_mths: i32) -> (r: DateTimeRange)
        requires
            DateTimeRange::can_round(self.0, pad_mths as int, nearest_mths as int),
        ensures
            r.0.start.date.valid() && r.0.start.date.day1 == 1 && r.0.start.secs == 0
                && r.0.start.nanos == 0,
            r.0.end.date.valid() && r.0.end.date.day1 == 1 && r.0.end.secs == 0 && r.0.end.nanos
                == 0,
            month_index(r.0.start.date.yr as int, r.0.start.date.mth1 as int)
                == rounded_month_index(
                month_index(self.0.start.date.yr as int, self.0.start.date.mth1 as int) - pad_mths,
                nearest_mths as int,
                false,
            ),
            month_index(r.0.end.date.yr as int, r.0.end.date.mth1 as int) == rounded_month_index(
                month_index(self.0.end.date.yr as int, self.0.end.date.mth1 as int) + pad_mths,
                nearest_mths as int,
                true,
            ),
    {
        let start = round_date(&self.0.start, 0 - pad_mths, nearest_mths, false);
        let end = round_date(&self.0.end, pad_mths, nearest_mths, true);
        DateTimeRange(Range { start, end })
    }
}

} // verus!
