//! ISO-8601 week numbering: Monday-starting weeks, numbered within an ISO
//! week-year whose boundaries follow the week containing the year's first
//! Thursday. The week-year of a date near January 1 can differ from its
//! calendar year.

use vstd::prelude::*;

use crate::calendar::{
    days_before_year, days_in_year, lemma_dby_bounds, lemma_dby_monotonic, lemma_dse_in_year,
    lemma_max_dse, days_before_year_e, max_dse, min_dse, Date, MAX_YEAR, MIN_YEAR,
};

verus! {

/// Day of week of epoch day `n`, 0 = Monday .. 6 = Sunday (day 0,
/// 1970-01-01, was a Thursday).
pub open spec fn weekday_from_monday(n: int) -> int {
    (n + 3) % 7
}

/// Day number of the Thursday in the week containing epoch day `n`.
pub open spec fn thursday_of_week(n: int) -> int {
    n + 3 - weekday_from_monday(n)
}

/// Day number of the first Thursday of calendar year `y`; ISO week 1 of
/// `y` is the week containing it.
pub open spec fn first_thursday(y: int) -> int {
    days_before_year(y) + (3 - weekday_from_monday(days_before_year(y))) % 7
}

/// The calendar year containing epoch day `n`.
pub open spec fn year_of_dse(n: int) -> int {
    choose|y: int| #[trigger] days_before_year(y) <= n < days_before_year(y + 1)
}

/// ISO week-year of the date with epoch day `n`: the calendar year of its
/// week's Thursday.
pub open spec fn iso_year_of(n: int) -> int {
    year_of_dse(thursday_of_week(n))
}

/// ISO week number of the date with epoch day `n` within its week-year.
pub open spec fn iso_week_of(n: int) -> int {
    (thursday_of_week(n) - first_thursday(iso_year_of(n))) / 7 + 1
}

/// Number of ISO weeks in week-year `y` (52 or 53).
pub open spec fn iso_weeks_in_year(y: int) -> int {
    (first_thursday(y + 1) - first_thursday(y)) / 7
}

/// `year_of_dse` picks the one year whose days bracket `n`.
pub proof fn lemma_year_of_dse(n: int, y: int)
    requires
        days_before_year(y) <= n < days_before_year(y + 1),
    ensures
        year_of_dse(n) == y,
{
    assert(exists|yy: int|
        #[trigger] days_before_year(yy) <= n < days_before_year(yy + 1)) by {
        assert(days_before_year(y) <= n < days_before_year(y + 1));
    }
    let yc = year_of_dse(n);
    if yc < y {
        lemma_dby_monotonic(yc + 1, y);
    } else if yc > y {
        lemma_dby_monotonic(y + 1, yc);
    }
}

/// Thursdays are exactly the days ≡ 0 (mod 7); the Thursday of `n`'s week
/// is within 3 days of `n` and is a fixed point of `thursday_of_week`.
pub proof fn lemma_thursday(n: int)
    ensures
        thursday_of_week(n) % 7 == 0,
        n - 3 <= thursday_of_week(n) <= n + 3,
        weekday_from_monday(n) == 0 ==> thursday_of_week(n) == n + 3,
        thursday_of_week(thursday_of_week(n)) == thursday_of_week(n),
{
    let r = (n + 3) % 7;
    assert((n + 3) == 7 * ((n + 3) / 7) + r) by {
        vstd::arithmetic::div_mod::lemma_fundamental_div_mod(n + 3, 7);
    }
    let q = (n + 3) / 7;
    assert((7 * q) % 7 == 0) by (nonlinear_arith);
    assert(thursday_of_week(n) == 7 * q);
    assert((7 * q + 3) % 7 == 3) by (nonlinear_arith);
}

/// The first Thursday of a year lies within its first week: at most six
/// days past January 1, and it is a Thursday.
pub proof fn lemma_first_thursday(y: int)
    ensures
        days_before_year(y) <= first_thursday(y) <= days_before_year(y) + 6,
        first_thursday(y) % 7 == 0,
        thursday_of_week(first_thursday(y)) == first_thursday(y),
{
    let j = days_before_year(y);
    let wd = weekday_from_monday(j);
    let off = (3 - wd) % 7;
    assert(0 <= wd < 7 && 0 <= off < 7);
    assert((j + off) % 7 == 0) by {
        vstd::arithmetic::div_mod::lemma_fundamental_div_mod(j + 3, 7);
        vstd::arithmetic::div_mod::lemma_fundamental_div_mod(3 - wd, 7);
        let q1 = (j + 3) / 7;
        let q2 = (3 - wd) / 7;
        assert(j + off == 7 * (q1 - q2)) by (nonlinear_arith)
            requires
                j + 3 == 7 * q1 + wd,
                3 - wd == 7 * q2 + off,
        ;
        assert((7 * (q1 - q2)) % 7 == 0) by (nonlinear_arith);
    }
    lemma_thursday(first_thursday(y));
    assert(weekday_from_monday(j + off) == (j + off + 3) % 7);
    assert(thursday_of_week(j + off) == j + off) by {
        assert((j + off + 3) % 7 == 3) by {
            vstd::arithmetic::div_mod::lemma_fundamental_div_mod(j + off, 7);
            let q = (j + off) / 7;
            assert((7 * q + 3) % 7 == 3) by (nonlinear_arith);
        }
    }
}

/// Two Thursdays differ by a whole number of weeks.
pub proof fn lemma_thursday_diff(t1: int, t2: int)
    requires
        t1 % 7 == 0,
        t2 % 7 == 0,
    ensures
        7 * ((t2 - t1) / 7) == t2 - t1,
{
    vstd::arithmetic::div_mod::lemma_fundamental_div_mod(t1, 7);
    vstd::arithmetic::div_mod::lemma_fundamental_div_mod(t2, 7);
    let q1 = t1 / 7;
    let q2 = t2 / 7;
    assert((t2 - t1) == 7 * (q2 - q1)) by (nonlinear_arith)
        requires
            t1 == 7 * q1,
            t2 == 7 * q2,
    ;
    assert((7 * (q2 - q1)) / 7 == q2 - q1) by (nonlinear_arith);
}

/// Day number of the Monday of ISO week `w` of week-year `y`.
pub open spec fn monday_of_week(y: int, w: int) -> int {
    first_thursday(y) - 3 + 7 * (w - 1)
}

/// A week-year has 52 or 53 ISO weeks, spanning exactly the days between
/// its first Thursday and the next year's.
pub proof fn lemma_weeks_in_year(y: int)
    ensures
        52 <= iso_weeks_in_year(y) <= 53,
        7 * iso_weeks_in_year(y) == first_thursday(y + 1) - first_thursday(y),
{
    lemma_first_thursday(y);
    lemma_first_thursday(y + 1);
    lemma_thursday_diff(first_thursday(y), first_thursday(y + 1));
    lemma_dby_monotonic(y, y + 1);
    let diff = first_thursday(y + 1) - first_thursday(y);
    assert(359 <= diff <= 372);
    assert(52 <= diff / 7 <= 53) by (nonlinear_arith)
        requires
            359 <= diff <= 372,
            7 * (diff / 7) == diff,
    ;
}

/// A Monday computed from a valid (week-year, week) pair carries exactly
/// that ISO week-year and week number.
pub proof fn lemma_monday_iso(y: int, w: int)
    requires
        1 <= w <= iso_weeks_in_year(y),
    ensures
        weekday_from_monday(monday_of_week(y, w)) == 0,
        iso_year_of(monday_of_week(y, w)) == y,
        iso_week_of(monday_of_week(y, w)) == w,
        days_before_year(y) - 3 <= monday_of_week(y, w) < days_before_year(y + 1),
{
    lemma_first_thursday(y);
    lemma_first_thursday(y + 1);
    lemma_weeks_in_year(y);
    let m = monday_of_week(y, w);
    let fth = first_thursday(y);
    let th = fth + 7 * (w - 1);
    assert(m == th - 3);
    assert(th % 7 == 0 && (m + 3) % 7 == 0) by (nonlinear_arith)
        requires
            fth % 7 == 0,
            th == fth + 7 * (w - 1),
            m == th - 3,
    ;
    assert(weekday_from_monday(m) == 0);
    assert(thursday_of_week(m) == th);
    // the Thursday lies inside calendar year y
    assert(days_before_year(y) <= th) by (nonlinear_arith)
        requires
            th == fth + 7 * (w - 1),
            w >= 1,
            fth >= days_before_year(y),
    ;
    assert(th <= first_thursday(y + 1) - 7) by (nonlinear_arith)
        requires
            th == fth + 7 * (w - 1),
            w <= iso_weeks_in_year(y),
            7 * iso_weeks_in_year(y) == first_thursday(y + 1) - fth,
    ;
    assert(th < days_before_year(y + 1));
    lemma_year_of_dse(th, y);
    assert(iso_week_of(m) == (th - fth) / 7 + 1);
    assert((th - fth) / 7 == w - 1) by (nonlinear_arith)
        requires
            th == fth + 7 * (w - 1),
    ;
}

/// Every day of a week carries the same ISO week-year and week number as
/// the Monday that starts it.
pub proof fn lemma_same_week(n: int)
    ensures
        iso_year_of(n - weekday_from_monday(n)) == iso_year_of(n),
        iso_week_of(n - weekday_from_monday(n)) == iso_week_of(n),
{
    let m = n - weekday_from_monday(n);
    lemma_thursday(n);
    assert(thursday_of_week(m) == thursday_of_week(n)) by {
        vstd::arithmetic::div_mod::lemma_fundamental_div_mod(n + 3, 7);
        let q = (n + 3) / 7;
        assert(m == 7 * q - 3);
        assert((7 * q + 3) % 7 == 3) by (nonlinear_arith);
        assert(weekday_from_monday(m) == 0);
    }
}

/// Weekday over machine integers.
pub fn weekday_from_monday_e(n: i32) -> (r: u32)
    requires
        -2_000_000_000 <= n <= 2_000_000_000,
    ensures
        r == weekday_from_monday(n as int),
        r < 7,
{
    let m = (n + 3).checked_rem_euclid(7).unwrap();
    m as u32
}

/// First Thursday of year `y`, over machine integers.
pub fn first_thursday_e(y: i32) -> (r: i32)
    requires
        MIN_YEAR - 1 <= y <= MAX_YEAR + 2,
    ensures
        r == first_thursday(y as int),
{
    proof {
        lemma_dby_bounds(y as int);
    }
    let j = days_before_year_e(y);
    let wd = weekday_from_monday_e(j);
    let off = (3 - wd as i32).checked_rem_euclid(7).unwrap();
    j + off
}

/// ISO week-year and week number of a date.
pub fn iso_week_and_year(d: &Date) -> (r: (i32, u32))
    requires
        d.valid(),
    ensures
        r.0 == iso_year_of(d.dse()),
        r.1 == iso_week_of(d.dse()),
        1 <= r.1 <= 53,
        MIN_YEAR - 1 <= r.0 <= MAX_YEAR + 1,
{
    proof {
        lemma_dby_bounds(d.yr as int);
        lemma_dby_bounds(d.yr as int - 1);
        lemma_dby_bounds(d.yr as int + 1);
        lemma_dby_bounds(d.yr as int + 2);
        lemma_dse_in_year(d.yr as int, d.mth1 as int, d.day1 as int);
        lemma_thursday(d.dse());
    }
    let n = d.days_since_epoch_e();
    let wd = weekday_from_monday_e(n);
    let th = n + 3 - wd as i32;
    // The Thursday lies in the date's year or one of its neighbours.
    let mut ty = d.yr;
    if th < days_before_year_e(ty) {
        ty = ty - 1;
    } else if th >= days_before_year_e(ty + 1) {
        ty = ty + 1;
    }
    proof {
        lemma_dby_monotonic(d.yr as int - 1, d.yr as int);
        lemma_dby_monotonic(d.yr as int + 1, d.yr as int + 2);
        lemma_year_of_dse(th as int, ty as int);
        lemma_first_thursday(ty as int);
        lemma_thursday_diff(first_thursday(ty as int), th as int);
        lemma_dby_bounds(ty as int);
        lemma_dby_bounds(ty as int + 1);
    }
    let fth = first_thursday_e(ty);
    let wk = ((th - fth) as u32) / 7 + 1;
    proof {
        let diff = th - fth;
        assert(diff as int / 7 <= 52 && diff as int / 7 >= 0) by {
            assert(7 * (diff as int / 7) == diff) by {
                lemma_thursday_diff(fth as int, th as int);
            }
            assert(diff < days_in_year(ty as int) + 0) by {
                lemma_dby_monotonic(ty as int, ty as int + 1);
            }
        }
    }
    (ty, wk)
}

/// Number of ISO weeks in week-year `y`, over machine integers.
pub fn iso_weeks_in_year_e(y: i32) -> (r: u32)
    requires
        MIN_YEAR - 1 <= y <= MAX_YEAR + 1,
    ensures
        r == iso_weeks_in_year(y as int),
        52 <= r <= 53,
{
    proof {
        lemma_weeks_in_year(y as int);
        lemma_first_thursday(y as int);
        lemma_first_thursday(y as int + 1);
        lemma_dby_bounds(y as int);
        lemma_dby_bounds(y as int + 1);
    }
    let fth = first_thursday_e(y);
    let fth_next = first_thursday_e(y + 1);
    ((fth_next - fth) as u32) / 7
}

/// The Monday that starts ISO week `week` of week-year `yr`, or `None`
/// when the week number is out of range for that year or the Monday is
/// not representable.
pub fn monday_of_isoywd(yr: i32, week: u32) -> (r: Option<Date>)
    ensures
        (r is Some) <==> (1 <= week <= iso_weeks_in_year(yr as int) && min_dse()
            <= monday_of_week(yr as int, week as int) <= max_dse()),
        r matches Some(d) ==> {
            &&& d.valid()
            &&& d.dse() == monday_of_week(yr as int, week as int)
            &&& weekday_from_monday(d.dse()) == 0
            &&& iso_year_of(d.dse()) == yr
            &&& iso_week_of(d.dse()) == week
        },
{
    proof {
        lemma_max_dse();
        lemma_dby_bounds(MIN_YEAR as int);
        lemma_dby_bounds(MAX_YEAR as int + 1);
    }
    if yr < MIN_YEAR - 1 || yr > MAX_YEAR + 1 {
        proof {
            if 1 <= week <= iso_weeks_in_year(yr as int) {
                lemma_weeks_in_year(yr as int);
                lemma_first_thursday(yr as int);
                lemma_first_thursday(yr as int + 1);
                if yr < MIN_YEAR - 1 {
                    // every Monday of such a year ends before the range
                    lemma_dby_monotonic(yr as int + 1, MIN_YEAR as int);
                    assert(monday_of_week(yr as int, week as int) <= first_thursday(
                        yr as int + 1) - 10) by (nonlinear_arith)
                        requires
                            week <= iso_weeks_in_year(yr as int),
                            7 * iso_weeks_in_year(yr as int) == first_thursday(yr as int + 1)
                                - first_thursday(yr as int),
                    ;
                } else {
                    lemma_dby_monotonic(MAX_YEAR as int + 1, yr as int);
                    assert(monday_of_week(yr as int, week as int) >= first_thursday(yr as int)
                        - 3 + 0) by (nonlinear_arith)
                        requires
                            week >= 1,
                    ;
                }
            }
        }
        return None;
    }
    let nweeks = iso_weeks_in_year_e(yr);
    if week < 1 || week > nweeks {
        return None;
    }
    proof {
        lemma_monday_iso(yr as int, week as int);
        lemma_first_thursday(yr as int);
        lemma_dby_bounds(yr as int);
        lemma_dby_bounds(yr as int + 1);
    }
    let fth = first_thursday_e(yr);
    let monday = fth - 3 + 7 * (week as i32 - 1);
    let lo = days_before_year_e(MIN_YEAR);
    let hi = days_before_year_e(MAX_YEAR + 1) - 1;
    if monday < lo || monday > hi {
        return None;
    }
    Some(Date::from_dse(monday))
}

} // verus!
