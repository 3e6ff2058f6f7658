//! The Gregorian calendar model: leap years, month lengths, day numbering
//! relative to the Unix epoch, and the `Date` value type.

use vstd::prelude::*;

verus! {

/// Smallest representable year.
pub const MIN_YEAR: i32 = -262143;

/// Largest representable year.
pub const MAX_YEAR: i32 = 262142;

/// A year is a leap year if it is divisible by 4 but not by 100, or
/// divisible by 400.
pub open spec fn is_leap_year(y: int) -> bool {
    (y % 4 == 0 && y % 100 != 0) || y % 400 == 0
}

/// Number of days in month `m` (1-based) of year `y`.
pub open spec fn days_in_month(y: int, m: int) -> int {
    if m == 2 {
        if is_leap_year(y) {
            29
        } else {
            28
        }
    } else if m == 4 || m == 6 || m == 9 || m == 11 {
        30
    } else {
        31
    }
}

/// A (year, month, day) triple denotes a real, representable calendar date.
pub open spec fn valid_ymd(y: int, m: int, d: int) -> bool {
    &&& MIN_YEAR <= y <= MAX_YEAR
    &&& 1 <= m <= 12
    &&& 1 <= d <= days_in_month(y, m)
}

/// Number of days in year `y`.
pub open spec fn days_in_year(y: int) -> int {
    if is_leap_year(y) {
        366
    } else {
        365
    }
}

/// Days from January 1 of year `y` to the first day of month `m` of the
/// same year.
pub open spec fn days_before_month(y: int, m: int) -> int
    decreases m,
{
    if m <= 1 {
        0
    } else {
        days_before_month(y, m - 1) + days_in_month(y, m - 1)
    }
}

/// Days from 1970-01-01 to January 1 of year `y`; negative for earlier
/// years.
pub open spec fn days_before_year(y: int) -> int
    decreases (if y >= 1970 { y - 1970 } else { 1970 - y }),
{
    if y > 1970 {
        days_before_year(y - 1) + days_in_year(y - 1)
    } else if y < 1970 {
        days_before_year(y + 1) - days_in_year(y)
    } else {
        0
    }
}

/// The day number of (y, m, d) counted from the Unix epoch, 1970-01-01
/// being day 0.
pub open spec fn dse_ymd(y: int, m: int, d: int) -> int {
    days_before_year(y) + days_before_month(y, m) + d - 1
}

/// A calendar date: year, 1-based month, 1-based day of month.
/// Like `YearMonthDay` it is a transparent triple; operations that need a
/// real calendar date require `valid()`.
#[derive(Clone, Copy, PartialEq, Eq, Structural, Debug, Hash, PartialOrd, Ord)]
pub struct Date {
    pub yr: i32,
    pub mth1: u32,
    pub day1: u32,
}

impl Date {
    /// The triple denotes a real, representable calendar date.
    pub open spec fn valid(self) -> bool {
        valid_ymd(self.yr as int, self.mth1 as int, self.day1 as int)
    }

    /// Day number from the Unix epoch.
    pub open spec fn dse(self) -> int {
        dse_ymd(self.yr as int, self.mth1 as int, self.day1 as int)
    }
}

/// The sum of all twelve month lengths is the length of the year.
pub proof fn lemma_months_fill_year(y: int)
    ensures
        days_before_month(y, 13) == days_in_year(y),
{
    reveal_with_fuel(days_before_month, 14);
}

/// `days_before_month` grows by whole month lengths: it is strictly
/// monotonic in the month and bounded by the year length.
pub proof fn lemma_dbm_monotonic(y: int, m1: int, m2: int)
    requires
        1 <= m1 <= m2 <= 13,
    ensures
        days_before_month(y, m1) <= days_before_month(y, m2),
        m1 < m2 ==> days_before_month(y, m1) + days_in_month(y, m1) <= days_before_month(y, m2),
    decreases m2 - m1,
{
    if m1 < m2 {
        lemma_dbm_monotonic(y, m1 + 1, m2);
    }
}

/// Bounds for `days_before_year` on the representable range: at most 366
/// days per year away from the epoch.
pub proof fn lemma_dby_bounds(y: int)
    requires
        MIN_YEAR - 1 <= y <= MAX_YEAR + 2,
    ensures
        365 * (y - 1970) <= days_before_year(y) <= 366 * (y - 1970) || 366 * (y - 1970)
            <= days_before_year(y) <= 365 * (y - 1970),
        y >= 1970 ==> 365 * (y - 1970) <= days_before_year(y) <= 366 * (y - 1970),
        y <= 1970 ==> 366 * (y - 1970) <= days_before_year(y) <= 365 * (y - 1970),
    decreases (if y >= 1970 { y - 1970 } else { 1970 - y }),
{
    if y > 1970 {
        lemma_dby_bounds(y - 1);
    } else if y < 1970 {
        lemma_dby_bounds(y + 1);
    }
}

/// `days_before_year` is strictly monotonic: each year contributes at
/// least 365 days.
pub proof fn lemma_dby_monotonic(y1: int, y2: int)
    requires
        y1 <= y2,
    ensures
        days_before_year(y1) + 365 * (y2 - y1) <= days_before_year(y2),
        days_before_year(y2) <= days_before_year(y1) + 366 * (y2 - y1),
    decreases y2 - y1,
{
    if y1 < y2 {
        lemma_dby_monotonic(y1, y2 - 1);
    }
}

/// Each year adds its own length to the day count.
pub proof fn lemma_dby_succ(y: int)
    ensures
        days_before_year(y + 1) == days_before_year(y) + days_in_year(y),
{
    if y + 1 > 1970 {
        assert(days_before_year(y + 1) == days_before_year(y) + days_in_year(y));
    } else {
        assert(days_before_year(y) == days_before_year(y + 1) - days_in_year(y));
    }
}

/// Day number of the first representable date.
pub open spec fn min_dse() -> int {
    days_before_year(MIN_YEAR as int)
}

/// Day number of the last representable date.
pub open spec fn max_dse() -> int {
    dse_ymd(MAX_YEAR as int, 12, 31)
}

/// The last representable date is the day before January 1 of the first
/// unrepresentable year.
pub proof fn lemma_max_dse()
    ensures
        max_dse() == days_before_year(MAX_YEAR + 1) - 1,
{
    lemma_months_fill_year(MAX_YEAR as int);
    lemma_dbm_monotonic(MAX_YEAR as int, 12, 13);
}

/// A valid date's day number lies within its year: between the year's
/// first day and its last.
pub proof fn lemma_dse_in_year(y: int, m: int, d: int)
    requires
        1 <= m <= 12,
        1 <= d <= days_in_month(y, m),
    ensures
        days_before_year(y) <= dse_ymd(y, m, d) < days_before_year(y) + days_in_year(y),
{
    lemma_dbm_monotonic(y, 1, m);
    lemma_dbm_monotonic(y, m, 13);
    lemma_months_fill_year(y);
}

/// For valid dates, the (year, month, day) ordering and the day-number
/// ordering agree.
pub proof fn lemma_date_order(a: Date, b: Date)
    requires
        a.valid(),
        b.valid(),
    ensures
        (a.dse() < b.dse()) <==> (a.yr < b.yr || (a.yr == b.yr && a.mth1 < b.mth1) || (a.yr
            == b.yr && a.mth1 == b.mth1 && a.day1 < b.day1)),
        (a.dse() == b.dse()) <==> (a == b),
{
    lemma_dse_in_year(a.yr as int, a.mth1 as int, a.day1 as int);
    lemma_dse_in_year(b.yr as int, b.mth1 as int, b.day1 as int);
    if a.yr == b.yr {
        if a.mth1 < b.mth1 {
            lemma_dbm_monotonic(a.yr as int, a.mth1 as int, b.mth1 as int);
        } else if b.mth1 < a.mth1 {
            lemma_dbm_monotonic(a.yr as int, b.mth1 as int, a.mth1 as int);
        }
    } else if a.yr < b.yr {
        lemma_dby_monotonic(a.yr as int + 1, b.yr as int);
    } else {
        lemma_dby_monotonic(b.yr as int + 1, a.yr as int);
    }
}

impl Date {
    /// The largest representable date, used as the saturating sentinel for
    /// unbounded range ends.
    pub open spec fn max_spec() -> Date {
        Date { yr: MAX_YEAR, mth1: 12, day1: 31 }
    }

    /// The largest representable date.
    pub fn max_date() -> (r: Date)
        ensures
            r == Date::max_spec(),
            r.valid(),
    {
        Date { yr: MAX_YEAR, mth1: 12, day1: 31 }
    }
}

/// Leap-year test over machine integers.
pub fn is_leap_year_e(y: i32) -> (r: bool)
    ensures
        r == is_leap_year(y as int),
{
    let m4 = y.checked_rem_euclid(4).unwrap();
    let m100 = y.checked_rem_euclid(100).unwrap();
    let m400 = y.checked_rem_euclid(400).unwrap();
    (m4 == 0 && m100 != 0) || m400 == 0
}

/// Month length over machine integers.
pub fn days_in_month_e(y: i32, m: u32) -> (r: u32)
    requires
        1 <= m <= 12,
    ensures
        r == days_in_month(y as int, m as int),
        28 <= r <= 31,
{
    if m == 2 {
        if is_leap_year_e(y) {
            29
        } else {
            28
        }
    } else if m == 4 || m == 6 || m == 9 || m == 11 {
        30
    } else {
        31
    }
}

/// Year length over machine integers.
pub fn days_in_year_e(y: i32) -> (r: u32)
    ensures
        r == days_in_year(y as int),
{
    if is_leap_year_e(y) {
        366
    } else {
        365
    }
}

/// Days from January 1 to the first of month `m`, over machine integers.
pub fn days_before_month_e(y: i32, m: u32) -> (r: u32)
    requires
        1 <= m <= 13,
    ensures
        r == days_before_month(y as int, m as int),
{
    let mut mm: u32 = 1;
    let mut acc: u32 = 0;
    while mm < m
        invariant
            1 <= mm <= m <= 13,
            acc == days_before_month(y as int, mm as int),
            acc <= 366,
        decreases m - mm,
    {
        proof {
            lemma_dbm_monotonic(y as int, mm as int + 1, 13);
            lemma_months_fill_year(y as int);
        }
        acc = acc + days_in_month_e(y, mm);
        mm = mm + 1;
    }
    acc
}

/// Days from the epoch to January 1 of year `y`, over machine integers.
pub fn days_before_year_e(y: i32) -> (r: i32)
    requires
        MIN_YEAR - 1 <= y <= MAX_YEAR + 2,
    ensures
        r == days_before_year(y as int),
{
    let mut cy: i32 = 1970;
    let mut acc: i32 = 0;
    if y >= 1970 {
        while cy < y
            invariant
                1970 <= cy <= y <= MAX_YEAR + 2,
                acc == days_before_year(cy as int),
            decreases y - cy,
        {
            proof {
                lemma_dby_bounds(cy as int);
                lemma_dby_bounds(cy as int + 1);
            }
            acc = acc + days_in_year_e(cy) as i32;
            cy = cy + 1;
        }
    } else {
        while cy > y
            invariant
                MIN_YEAR - 1 <= y <= cy <= 1970,
                acc == days_before_year(cy as int),
            decreases cy - y,
        {
            proof {
                lemma_dby_bounds(cy as int);
                lemma_dby_bounds(cy as int - 1);
            }
            cy = cy - 1;
            acc = acc - days_in_year_e(cy) as i32;
        }
    }
    acc
}

/// Every valid date's day number lies between the smallest and largest
/// representable day numbers, all within 97 million days of the epoch.
pub proof fn lemma_dse_bounds(d: Date)
    requires
        d.valid(),
    ensures
        min_dse() <= d.dse() <= max_dse(),
        -97_000_000 <= min_dse(),
        max_dse() <= 97_000_000,
{
    lemma_dse_in_year(d.yr as int, d.mth1 as int, d.day1 as int);
    lemma_dby_monotonic(MIN_YEAR as int, d.yr as int);
    lemma_dby_succ(d.yr as int);
    lemma_dby_monotonic(d.yr as int + 1, MAX_YEAR as int + 1);
    lemma_max_dse();
    lemma_dby_bounds(MIN_YEAR as int);
    lemma_dby_bounds(MAX_YEAR as int + 1);
}

/// The largest representable day number, over machine integers.
pub fn max_dse_e() -> (r: i32)
    ensures
        r == max_dse(),
        94_000_000 <= r <= 96_000_000,
{
    proof {
        lemma_max_dse();
        lemma_dby_bounds(MAX_YEAR as int + 1);
    }
    days_before_year_e(MAX_YEAR + 1) - 1
}

/// Compare two valid dates by day number.
pub fn date_lt(a: &Date, b: &Date) -> (r: bool)
    requires
        a.valid(),
        b.valid(),
    ensures
        r == (a.dse() < b.dse()),
{
    proof {
        lemma_date_order(*a, *b);
    }
    if a.yr != b.yr {
        a.yr < b.yr
    } else if a.mth1 != b.mth1 {
        a.mth1 < b.mth1
    } else {
        a.day1 < b.day1
    }
}

impl Date {
    /// Construct a date, checking calendar validity; the counterpart of
    /// the invalid-date rejection rule in parsing.
    pub fn from_ymd(yr: i32, mth1: u32, day1: u32) -> (r: Option<Date>)
        ensures
            r == (if valid_ymd(yr as int, mth1 as int, day1 as int) {
                Some(Date { yr, mth1, day1 })
            } else {
                None::<Date>
            }),
    {
        if yr < MIN_YEAR || yr > MAX_YEAR || mth1 < 1 || mth1 > 12 {
            return None;
        }
        if day1 < 1 || day1 > days_in_month_e(yr, mth1) {
            return None;
        }
        Some(Date { yr, mth1, day1 })
    }

    /// Day number from the Unix epoch.
    pub fn days_since_epoch_e(&self) -> (r: i32)
        requires
            self.valid(),
        ensures
            r == self.dse(),
    {
        proof {
            lemma_dby_bounds(self.yr as int);
            lemma_dbm_monotonic(self.yr as int, self.mth1 as int, 13);
            lemma_months_fill_year(self.yr as int);
        }
        let dby = days_before_year_e(self.yr);
        let dbm = days_before_month_e(self.yr, self.mth1);
        dby + dbm as i32 + self.day1 as i32 - 1
    }

    /// The next calendar day; `None` only at the largest representable
    /// date.
    pub fn succ(self) -> (r: Option<Date>)
        requires
            self.valid(),
        ensures
            (r is Some) <==> self != Date::max_spec(),
            r matches Some(n) ==> n.valid() && n.dse() == self.dse() + 1,
    {
        let dim = days_in_month_e(self.yr, self.mth1);
        if self.day1 < dim {
            Some(Date { yr: self.yr, mth1: self.mth1, day1: self.day1 + 1 })
        } else if self.mth1 < 12 {
            Some(Date { yr: self.yr, mth1: self.mth1 + 1, day1: 1 })
        } else if self.yr < MAX_YEAR {
            proof {
                lemma_months_fill_year(self.yr as int);
            }
            Some(Date { yr: self.yr + 1, mth1: 1, day1: 1 })
        } else {
            None
        }
    }

    /// The date a signed number of days later (or earlier, for a negative
    /// count); `None` when it would leave the representable range.
    pub fn add_days(&self, days: i32) -> (r: Option<Date>)
        requires
            self.valid(),
        ensures
            (r is Some) <==> min_dse() <= self.dse() + days <= max_dse(),
            r matches Some(d) ==> d.valid() && d.dse() == self.dse() + days,
    {
        proof {
            lemma_dse_bounds(*self);
            lemma_max_dse();
            lemma_dby_bounds(MIN_YEAR as int);
        }
        let n = self.days_since_epoch_e();
        let target: i64 = n as i64 + days as i64;
        let lo = days_before_year_e(MIN_YEAR) as i64;
        let hi = max_dse_e() as i64;
        if target < lo || target > hi {
            return None;
        }
        Some(Date::from_dse(target as i32))
    }

    /// Days from this date to `other`: positive when `other` is later.
    pub fn days_between(&self, other: &Date) -> (r: i32)
        requires
            self.valid(),
            other.valid(),
        ensures
            r == other.dse() - self.dse(),
    {
        proof {
            lemma_dse_bounds(*self);
            lemma_dse_bounds(*other);
        }
        other.days_since_epoch_e() - self.days_since_epoch_e()
    }

    /// Reconstruct the date with the given day number.
    pub fn from_dse(n: i32) -> (r: Date)
        requires
            min_dse() <= n <= max_dse(),
        ensures
            r.valid(),
            r.dse() == n,
    {
        proof {
            lemma_max_dse();
            lemma_dby_bounds(MIN_YEAR as int);
            lemma_dby_bounds(MAX_YEAR as int + 1);
        }
        let mut y: i32 = 1970;
        let mut acc: i32 = 0;
        while acc + days_in_year_e(y) as i32 <= n
            invariant
                min_dse() <= n <= max_dse(),
                MIN_YEAR <= y <= MAX_YEAR + 1,
                acc == days_before_year(y as int),
                -97_000_000 <= acc <= 97_000_000,
                acc + days_in_year(y as int) <= n ==> y <= MAX_YEAR,
            decreases MAX_YEAR + 1 - y,
        {
            proof {
                lemma_dby_bounds(y as int);
                lemma_dby_bounds(y as int + 1);
                lemma_max_dse();
                lemma_dby_monotonic(y as int + 2, MAX_YEAR as int + 1);
            }
            acc = acc + days_in_year_e(y) as i32;
            y = y + 1;
        }
        while acc > n
            invariant
                min_dse() <= n,
                MIN_YEAR <= y <= MAX_YEAR + 1,
                acc == days_before_year(y as int),
                -97_000_000 <= acc <= 97_000_000,
                n < acc + days_in_year(y as int),
                acc > n ==> y > MIN_YEAR,
            decreases y - MIN_YEAR,
        {
            proof {
                lemma_dby_bounds(y as int);
                lemma_dby_bounds(y as int - 1);
                lemma_dby_monotonic(MIN_YEAR as int, y as int - 1);
            }
            y = y - 1;
            acc = acc - days_in_year_e(y) as i32;
        }
        let rem: u32 = (n - acc) as u32;
        let mut m: u32 = 1;
        let mut off: u32 = 0;
        proof {
            lemma_months_fill_year(y as int);
        }
        while off + days_in_month_e(y, m) <= rem
            invariant
                1 <= m <= 12,
                off == days_before_month(y as int, m as int),
                off <= rem,
                rem < days_in_year(y as int),
                days_before_month(y as int, 13) == days_in_year(y as int),
                MIN_YEAR <= y <= MAX_YEAR,
            decreases 13 - m,
        {
            proof {
                lemma_dbm_monotonic(y as int, m as int + 1, 13);
            }
            off = off + days_in_month_e(y, m);
            m = m + 1;
        }
        Date { yr: y, mth1: m, day1: rem - off + 1 }
    }
}

} // verus!
