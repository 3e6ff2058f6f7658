//! Partial dates: a tagged union over four granularities — a whole year,
//! a calendar month, an exact day, an ISO week — with the wire-format
//! grammar (`y-`, `ym-`, `ymd-`, `yw-`), and the half-open boundary
//! computation `start()` / `end()`.

use vstd::prelude::*;
use vstd::string::*;

use crate::calendar::{
    days_before_year, dse_ymd, lemma_date_order, lemma_dse_in_year, lemma_months_fill_year,
    max_dse, min_dse, valid_ymd, Date, MAX_YEAR, MIN_YEAR,
};
use crate::digits::{
    dec_digits, fmt_int, fmt_int_pad, parse_uint_part, push_int, push_int_pad, push_uint_pad,
    spec_parse_uint, zero_pad,
};
use crate::errors::ParseError;
use crate::iso_week::{
    iso_week_of, iso_weeks_in_year, iso_year_of, lemma_monday_iso, lemma_weeks_in_year,
    monday_of_isoywd, monday_of_week, weekday_from_monday,
};
use crate::split::{lemma_split_len, split_dash, split_dash_e};
use crate::timestamp::{rfc3339_format, rfc3339_parse, Timestamp};
use crate::year_month::YearMonth;

verus! {

/// An imprecise point in time: one of four granularities.
#[derive(Clone, Copy, PartialEq, Eq, Structural, Debug)]
pub enum PartialDate {
    Y(i32),
    Ym(YearMonth),
    Ymd(Date),
    Yw { yr: i32, week: u32 },
}

impl PartialDate {
    /// The variant denotes a period with a representable first day — the
    /// inputs on which `start` and `end` are defined.
    pub open spec fn wf(self) -> bool {
        match self {
            PartialDate::Y(yr) => MIN_YEAR <= yr <= MAX_YEAR,
            PartialDate::Ym(ym) => MIN_YEAR <= ym.yr <= MAX_YEAR && 1 <= ym.mth1 <= 12,
            PartialDate::Ymd(d) => d.valid(),
            PartialDate::Yw { yr, week } => 1 <= week <= iso_weeks_in_year(yr as int) && min_dse()
                <= monday_of_week(yr as int, week as int) <= max_dse(),
        }
    }

    /// Decide `wf` at run time.
    pub fn is_wf(&self) -> (r: bool)
        ensures
            r == self.wf(),
    {
        match self {
            PartialDate::Y(yr) => MIN_YEAR <= *yr && *yr <= MAX_YEAR,
            PartialDate::Ym(ym) => MIN_YEAR <= ym.yr && ym.yr <= MAX_YEAR && 1 <= ym.mth1
                && ym.mth1 <= 12,
            PartialDate::Ymd(d) => {
                match Date::from_ymd(d.yr, d.mth1, d.day1) {
                    Some(_) => true,
                    None => false,
                }
            },
            PartialDate::Yw { yr, week } => {
                match monday_of_isoywd(*yr, *week) {
                    Some(_) => true,
                    None => false,
                }
            },
        }
    }

    /// Day number of the first instant the period includes.
    pub open spec fn start_dse(self) -> int {
        match self {
            PartialDate::Y(yr) => days_before_year(yr as int),
            PartialDate::Ym(ym) => dse_ymd(ym.yr as int, ym.mth1 as int, 1),
            PartialDate::Ymd(d) => d.dse(),
            PartialDate::Yw { yr, week } => monday_of_week(yr as int, week as int),
        }
    }

    /// The first day included in the period.
    pub fn start(&self) -> (r: Date)
        requires
            self.wf(),
        ensures
            r.valid(),
            r.dse() == self.start_dse(),
            (*self) matches PartialDate::Y(yr) ==> r == (Date { yr: yr, mth1: 1, day1: 1 }),
            (*self) matches PartialDate::Ym(ym) ==> r == (Date { yr: ym.yr, mth1: ym.mth1, day1: 1 }),
            (*self) matches PartialDate::Ymd(d) ==> r == d,
            (*self) matches PartialDate::Yw { yr, week } ==> weekday_from_monday(r.dse()) == 0
                && iso_year_of(r.dse()) == yr && iso_week_of(r.dse()) == week,
    {
        match self {
            PartialDate::Y(yr) => Date { yr: *yr, mth1: 1, day1: 1 },
            PartialDate::Ym(ym) => Date { yr: ym.yr, mth1: ym.mth1, day1: 1 },
            PartialDate::Ymd(d) => *d,
            PartialDate::Yw { yr, week } => {
                match monday_of_isoywd(*yr, *week) {
                    Some(d) => d,
                    None => vstd::pervasive::unreached(),
                }
            },
        }
    }

    /// Day number of the first instant the period excludes, saturating at
    /// the largest representable day: one year, month, day or week past
    /// `start_dse`.
    pub open spec fn end_dse(self) -> int {
        match self {
            PartialDate::Y(yr) => if yr < MAX_YEAR {
                days_before_year(yr as int + 1)
            } else {
                max_dse()
            },
            PartialDate::Ym(ym) => if ym.mth1 < 12 {
                dse_ymd(ym.yr as int, ym.mth1 as int + 1, 1)
            } else if ym.yr < MAX_YEAR {
                dse_ymd(ym.yr as int + 1, 1, 1)
            } else {
                max_dse()
            },
            PartialDate::Ymd(d) => if d.dse() < max_dse() {
                d.dse() + 1
            } else {
                max_dse()
            },
            PartialDate::Yw { yr, week } => if monday_of_week(yr as int, week as int) + 7
                <= max_dse() {
                monday_of_week(yr as int, week as int) + 7
            } else {
                max_dse()
            },
        }
    }

    /// The first day *not* in the period: the exclusive upper bound,
    /// saturating to the largest representable date when the next period
    /// does not exist. Except at that sentinel, the bound lies strictly
    /// after `start`.
    pub fn end(&self) -> (r: Date)
        requires
            self.wf(),
        ensures
            r.valid(),
            r.dse() == self.end_dse(),
            r == Date::max_spec() || self.start_dse() < r.dse(),
    {
        match self {
            PartialDate::Y(yr) => {
                if *yr < MAX_YEAR {
                    proof {
                        crate::calendar::lemma_dby_succ(*yr as int);
                    }
                    Date { yr: *yr + 1, mth1: 1, day1: 1 }
                } else {
                    Date::max_date()
                }
            },
            PartialDate::Ym(ym) => {
                if ym.mth1 < 12 {
                    proof {
                        lemma_dse_in_year(ym.yr as int, ym.mth1 as int, 1);
                        lemma_dse_in_year(ym.yr as int, ym.mth1 as int + 1, 1);
                    }
                    Date { yr: ym.yr, mth1: ym.mth1 + 1, day1: 1 }
                } else if ym.yr < MAX_YEAR {
                    proof {
                        lemma_months_fill_year(ym.yr as int);
                        lemma_dse_in_year(ym.yr as int, 12, 1);
                        crate::calendar::lemma_dby_succ(ym.yr as int);
                    }
                    Date { yr: ym.yr + 1, mth1: 1, day1: 1 }
                } else {
                    proof {
                        lemma_dse_in_year(ym.yr as int, 12, 1);
                        lemma_date_order(
                            Date { yr: ym.yr, mth1: ym.mth1, day1: 1 },
                            Date::max_spec(),
                        );
                    }
                    Date::max_date()
                }
            },
            PartialDate::Ymd(d) => {
                proof {
                    lemma_date_order(*d, Date::max_spec());
                    crate::calendar::lemma_dse_bounds(*d);
                }
                match d.succ() {
                    Some(n) => n,
                    None => *d,
                }
            },
            PartialDate::Yw { yr, week } => {
                proof {
                    lemma_weeks_in_year(*yr as int);
                    lemma_weeks_in_year(*yr as int + 1);
                    lemma_monday_iso(*yr as int, *week as int);
                }
                match monday_of_isoywd(*yr, *week + 1) {
                    Some(d) => d,
                    None => {
                        proof {
                            crate::iso_week::lemma_first_thursday(*yr as int);
                            crate::iso_week::lemma_first_thursday(*yr as int + 1);
                            crate::calendar::lemma_max_dse();
                            if *yr >= MAX_YEAR + 2 {
                                crate::calendar::lemma_dby_monotonic(
                                    MAX_YEAR as int + 1,
                                    *yr as int,
                                );
                                assert(false);
                            }
                        }
                        match monday_of_isoywd(*yr + 1, 1) {
                            Some(d) => d,
                            None => Date::max_date(),
                        }
                    },
                }
            },
        }
    }
}

/// What `PartialDate::parse` returns: split on dashes, match the
/// discriminator and arity, parse each numeric component, and for `ymd`
/// check that the triple is a real calendar date.
pub open spec fn spec_parse(s: Seq<char>) -> Result<PartialDate, ParseError> {
    let parts = split_dash(s);
    if parts.len() == 2 && parts[0] == seq!['y'] {
        match spec_parse_uint(parts[1], i32::MAX as int) {
            Some(y) => Ok(PartialDate::Y(y as i32)),
            None => Err(ParseError::Year),
        }
    } else if parts.len() == 3 && parts[0] == seq!['y', 'm'] {
        if spec_parse_uint(parts[1], i32::MAX as int) is None {
            Err(ParseError::Year)
        } else if spec_parse_uint(parts[2], u32::MAX as int) is None {
            Err(ParseError::Month)
        } else {
            Ok(
                PartialDate::Ym(
                    YearMonth {
                        yr: spec_parse_uint(parts[1], i32::MAX as int).unwrap() as i32,
                        mth1: spec_parse_uint(parts[2], u32::MAX as int).unwrap() as u32,
                    },
                ),
            )
        }
    } else if parts.len() == 4 && parts[0] == seq!['y', 'm', 'd'] {
        if spec_parse_uint(parts[1], i32::MAX as int) is None {
            Err(ParseError::Year)
        } else if spec_parse_uint(parts[2], u32::MAX as int) is None {
            Err(ParseError::Month)
        } else if spec_parse_uint(parts[3], u32::MAX as int) is None {
            Err(ParseError::Day)
        } else {
            let y = spec_parse_uint(parts[1], i32::MAX as int).unwrap();
            let m = spec_parse_uint(parts[2], u32::MAX as int).unwrap();
            let d = spec_parse_uint(parts[3], u32::MAX as int).unwrap();
            if valid_ymd(y, m, d) {
                Ok(PartialDate::Ymd(Date { yr: y as i32, mth1: m as u32, day1: d as u32 }))
            } else {
                Err(ParseError::InvalidDate)
            }
        }
    } else if parts.len() == 3 && parts[0] == seq!['y', 'w'] {
        if spec_parse_uint(parts[1], i32::MAX as int) is None {
            Err(ParseError::Year)
        } else if spec_parse_uint(parts[2], u32::MAX as int) is None {
            Err(ParseError::Week)
        } else {
            Ok(
                PartialDate::Yw {
                    yr: spec_parse_uint(parts[1], i32::MAX as int).unwrap() as i32,
                    week: spec_parse_uint(parts[2], u32::MAX as int).unwrap() as u32,
                },
            )
        }
    } else {
        Err(ParseError::Format)
    }
}

/// What `PartialDate::to_string` returns: the discriminator, the year
/// zero-padded to four digits (unpadded for `y-`), and two-digit month,
/// day or week components.
pub open spec fn spec_format(pd: PartialDate) -> Seq<char> {
    match pd {
        PartialDate::Y(yr) => seq!['y', '-'].add(fmt_int(yr as int)),
        PartialDate::Ym(ym) => seq!['y', 'm', '-'].add(fmt_int_pad(ym.yr as int, 4)).add(
            seq!['-'],
        ).add(zero_pad(dec_digits(ym.mth1 as int), 2)),
        PartialDate::Ymd(d) => seq!['y', 'm', 'd', '-'].add(fmt_int_pad(d.yr as int, 4)).add(
            seq!['-'],
        ).add(zero_pad(dec_digits(d.mth1 as int), 2)).add(seq!['-']).add(
            zero_pad(dec_digits(d.day1 as int), 2),
        ),
        PartialDate::Yw { yr, week } => seq!['y', 'w', '-'].add(fmt_int_pad(yr as int, 4)).add(
            seq!['-'],
        ).add(zero_pad(dec_digits(week as int), 2)),
    }
}

impl PartialDate {
    /// Parse the wire format.
    pub fn parse(s: &str) -> (r: Result<PartialDate, ParseError>)
        ensures
            r == spec_parse(s@),
    {
        proof {
            lemma_split_len(s@);
        }
        let parts = split_dash_e(s);
        let n = parts.len();
        proof {
            assert(parts.deep_view()[0] == parts@[0]@);
        }
        let p0 = parts[0];
        let l0 = p0.unicode_len();
        if n == 2 && l0 == 1 && p0.get_char(0) == 'y' {
            proof {
                assert(p0@ =~= seq!['y']);
                assert(parts.deep_view()[1] == parts@[1]@);
            }
            match parse_uint_part(parts[1], i32::MAX as u32) {
                Some(v) => Ok(PartialDate::Y(v as i32)),
                None => Err(ParseError::Year),
            }
        } else if n == 3 && l0 == 2 && p0.get_char(0) == 'y' && p0.get_char(1) == 'm' {
            proof {
                assert(p0@ =~= seq!['y', 'm']);
                assert(parts.deep_view()[1] == parts@[1]@);
                assert(parts.deep_view()[2] == parts@[2]@);
            }
            let yr = match parse_uint_part(parts[1], i32::MAX as u32) {
                Some(v) => v as i32,
                None => {
                    return Err(ParseError::Year);
                },
            };
            let mth1 = match parse_uint_part(parts[2], u32::MAX) {
                Some(v) => v,
                None => {
                    return Err(ParseError::Month);
                },
            };
            Ok(PartialDate::Ym(YearMonth { yr, mth1 }))
        } else if n == 4 && l0 == 3 && p0.get_char(0) == 'y' && p0.get_char(1) == 'm'
            && p0.get_char(2) == 'd' {
            proof {
                assert(p0@ =~= seq!['y', 'm', 'd']);
                assert(parts.deep_view()[1] == parts@[1]@);
                assert(parts.deep_view()[2] == parts@[2]@);
                assert(parts.deep_view()[3] == parts@[3]@);
            }
            let yr = match parse_uint_part(parts[1], i32::MAX as u32) {
                Some(v) => v as i32,
                None => {
                    return Err(ParseError::Year);
                },
            };
            let mth1 = match parse_uint_part(parts[2], u32::MAX) {
                Some(v) => v,
                None => {
                    return Err(ParseError::Month);
                },
            };
            let day1 = match parse_uint_part(parts[3], u32::MAX) {
                Some(v) => v,
                None => {
                    return Err(ParseError::Day);
                },
            };
            match Date::from_ymd(yr, mth1, day1) {
                Some(d) => Ok(PartialDate::Ymd(d)),
                None => Err(ParseError::InvalidDate),
            }
        } else if n == 3 && l0 == 2 && p0.get_char(0) == 'y' && p0.get_char(1) == 'w' {
            proof {
                assert(p0@ =~= seq!['y', 'w']);
                assert(parts.deep_view()[1] == parts@[1]@);
                assert(parts.deep_view()[2] == parts@[2]@);
            }
            let yr = match parse_uint_part(parts[1], i32::MAX as u32) {
                Some(v) => v as i32,
                None => {
                    return Err(ParseError::Year);
                },
            };
            let week = match parse_uint_part(parts[2], u32::MAX) {
                Some(v) => v,
                None => {
                    return Err(ParseError::Week);
                },
            };
            Ok(PartialDate::Yw { yr, week })
        } else {
            Err(ParseError::Format)
        }
    }

    /// Render the wire format.
    pub fn to_string(&self) -> (r: String)
        ensures
            r@ == spec_format(*self),
    {
        proof {
            reveal_strlit("y-");
            reveal_strlit("ym-");
            reveal_strlit("ymd-");
            reveal_strlit("yw-");
            reveal_strlit("-");
        }
        let mut out = String::new();
        match self {
            PartialDate::Y(yr) => {
                out.append("y-");
                push_int(&mut out, *yr);
            },
            PartialDate::Ym(ym) => {
                out.append("ym-");
                push_int_pad(&mut out, ym.yr, 4);
                out.append("-");
                push_uint_pad(&mut out, ym.mth1, 2);
            },
            PartialDate::Ymd(d) => {
                out.append("ymd-");
                push_int_pad(&mut out, d.yr, 4);
                out.append("-");
                push_uint_pad(&mut out, d.mth1, 2);
                out.append("-");
                push_uint_pad(&mut out, d.day1, 2);
            },
            PartialDate::Yw { yr, week } => {
                out.append("yw-");
                push_int_pad(&mut out, *yr, 4);
                out.append("-");
                push_uint_pad(&mut out, *week, 2);
            },
        }
        proof {
            assert(out@ =~= spec_format(*self));
        }
        out
    }
}

/// Boundary ordering: a well-formed partial date's period is non-empty —
/// its start lies strictly before its exclusive end — except when the end
/// saturates at the largest representable day.
pub proof fn lemma_boundary_ordering(pd: PartialDate)
    requires
        pd.wf(),
    ensures
        pd.start_dse() < pd.end_dse() || pd.end_dse() == max_dse(),
{
    match pd {
        PartialDate::Y(yr) => {
            if yr < MAX_YEAR {
                crate::calendar::lemma_dby_succ(yr as int);
            }
        },
        PartialDate::Ym(ym) => {
            if ym.mth1 < 12 {
                lemma_dse_in_year(ym.yr as int, ym.mth1 as int, 1);
                lemma_dse_in_year(ym.yr as int, ym.mth1 as int + 1, 1);
            } else if ym.yr < MAX_YEAR {
                lemma_months_fill_year(ym.yr as int);
                lemma_dse_in_year(ym.yr as int, 12, 1);
                crate::calendar::lemma_dby_succ(ym.yr as int);
            }
        },
        PartialDate::Ymd(_) => {},
        PartialDate::Yw { .. } => {},
    }
}

/// The ISO-week partial date of the week containing epoch day `n`.
pub open spec fn week_pd_of(n: int) -> PartialDate {
    PartialDate::Yw { yr: iso_year_of(n) as i32, week: iso_week_of(n) as u32 }
}

/// Cursor over the ISO weeks touching a date range: stands on the Monday
/// of the week to report next. Yields `(week, following week)` pairs, and
/// — unlike the day iterator — still yields one final pair when the
/// cursor lands exactly on the range's end.
pub struct WeekIterator {
    pub current_date: Date,
    pub end_date: Date,
}

/// Cursor over the calendar months touching a date range. Yields
/// `(month, following month)` pairs, including the month whose first day
/// equals the range's end.
pub struct MonthIterator {
    pub current_year: i32,
    pub current_month: u32,
    pub end_date: Date,
}

/// Cursor over the calendar years touching a date range. Yields
/// `(year, following year)` pairs, including the year whose first day
/// equals the range's end.
pub struct YearIterator {
    pub current_year: i32,
    pub end_date: Date,
}

impl PartialDate {
    /// The ISO weeks of a range, starting at the Monday of the week
    /// containing the range's start.
    pub fn iter_weeks(range: core::ops::Range<Date>) -> (r: WeekIterator)
        requires
            range.start.valid(),
            range.end.valid(),
            range.start.dse() - weekday_from_monday(range.start.dse()) >= min_dse(),
        ensures
            r.wf(),
            r.end_date == range.end,
            r.current_date.dse() == range.start.dse() - weekday_from_monday(range.start.dse()),
            weekday_from_monday(r.current_date.dse()) == 0,
            week_pd_of(r.current_date.dse()) == week_pd_of(range.start.dse()),
    {
        proof {
            crate::iso_week::lemma_thursday(range.start.dse());
            crate::iso_week::lemma_same_week(range.start.dse());
            crate::calendar::lemma_dse_bounds(range.start);
        }
        let n = range.start.days_since_epoch_e();
        let wd = crate::iso_week::weekday_from_monday_e(n);
        let start_monday = Date::from_dse(n - wd as i32);
        WeekIterator { current_date: start_monday, end_date: range.end }
    }

    /// The calendar months of a range, starting at the month containing
    /// the range's start.
    pub fn iter_months(range: core::ops::Range<Date>) -> (r: MonthIterator)
        requires
            range.end.valid(),
        ensures
            r.wf(),
            r.current_year == range.start.yr,
            r.current_month == range.start.mth1,
            r.end_date == range.end,
    {
        MonthIterator {
            current_year: range.start.yr,
            current_month: range.start.mth1,
            end_date: range.end,
        }
    }

    /// The calendar years of a range, starting at the year of the range's
    /// start.
    pub fn iter_years(range: core::ops::Range<Date>) -> (r: YearIterator)
        requires
            range.end.valid(),
        ensures
            r.wf(),
            r.current_year == range.start.yr,
            r.end_date == range.end,
    {
        YearIterator { current_year: range.start.yr, end_date: range.end }
    }
}

impl WeekIterator {
    /// Cursor and bound are real dates.
    pub open spec fn wf(self) -> bool {
        self.current_date.valid() && self.end_date.valid()
    }

    /// Yield the week under the cursor paired with the following week and
    /// advance a week; at the range's end, yield one final pair. The
    /// iteration also ends when the following Monday would not be
    /// representable.
    pub fn next(&mut self) -> (r: Option<(PartialDate, PartialDate)>)
        requires
            old(self).wf(),
        ensures
            final(self).wf(),
            final(self).end_date == old(self).end_date,
            ({
                let c = old(self).current_date.dse();
                let e = old(self).end_date.dse();
                &&& (c > e ==> r is None && *final(self) == *old(self))
                &&& (c == e ==> {
                    &&& (r matches Some(p) && p.0 == week_pd_of(c))
                    &&& (c + 7 <= max_dse() ==> r.unwrap().1 == week_pd_of(c + 7) && final(self).current_date.dse() == (if e + 1 <= max_dse() {
                        e + 1
                    } else {
                        max_dse()
                    }))
                    &&& (c + 7 > max_dse() ==> r.unwrap().1 == week_pd_of(c) && final(self).current_date == old(self).current_date)
                })
                &&& (c < e ==> {
                    &&& (c + 7 <= max_dse() ==> (r matches Some(p) && p.0 == week_pd_of(c) && p.1
                        == week_pd_of(c + 7)) && final(self).current_date.dse() == c + 7)
                    &&& (c + 7 > max_dse() ==> r is None && *final(self) == *old(self))
                })
            }),
    {
        let c = self.current_date;
        let e = self.end_date;
        proof {
            lemma_date_order(c, e);
        }
        if !crate::calendar::date_lt(&c, &e) {
            if c == e {
                let (iso_y, iso_w) = crate::iso_week::iso_week_and_year(&c);
                let week_pd = PartialDate::Yw { yr: iso_y, week: iso_w };
                proof {
                    crate::calendar::lemma_dse_bounds(c);
                }
                let n = c.days_since_epoch_e();
                let maxn = crate::calendar::max_dse_e();
                if n > maxn - 7 {
                    return Some((week_pd, week_pd));
                }
                let next_date = Date::from_dse(n + 7);
                let (ny, nw) = crate::iso_week::iso_week_and_year(&next_date);
                let next_week_pd = PartialDate::Yw { yr: ny, week: nw };
                self.current_date = match e.succ() {
                    Some(d) => d,
                    None => Date::max_date(),
                };
                proof {
                    lemma_date_order(old(self).end_date, Date::max_spec());
                }
                return Some((week_pd, next_week_pd));
            }
            return None;
        }
        let (iso_y, iso_w) = crate::iso_week::iso_week_and_year(&c);
        let week_pd = PartialDate::Yw { yr: iso_y, week: iso_w };
        proof {
            crate::calendar::lemma_dse_bounds(c);
        }
        let n = c.days_since_epoch_e();
        let maxn = crate::calendar::max_dse_e();
        if n > maxn - 7 {
            return None;
        }
        let next_date = Date::from_dse(n + 7);
        let (ny, nw) = crate::iso_week::iso_week_and_year(&next_date);
        self.current_date = next_date;
        Some((week_pd, PartialDate::Yw { yr: ny, week: nw }))
    }
}

impl MonthIterator {
    /// The bound is a real date.
    pub open spec fn wf(self) -> bool {
        self.end_date.valid()
    }

    /// Yield the month under the cursor paired with the following month
    /// and advance a month, including the month whose first day equals
    /// the range's end; after that final month the cursor is left on a
    /// month past the end, so the next pull stops. Ends when the cursor
    /// or the following month is not representable.
    pub fn next(&mut self) -> (r: Option<(PartialDate, PartialDate)>)
        requires
            old(self).wf(),
        ensures
            final(self).wf(),
            final(self).end_date == old(self).end_date,
            ({
                let cy = old(self).current_year as int;
                let cm = old(self).current_month as int;
                let e = old(self).end_date.dse();
                let ny = if cm == 12 {
                    cy + 1
                } else {
                    cy
                };
                let nm = if cm == 12 {
                    1int
                } else {
                    cm + 1
                };
                &&& (!valid_ymd(cy, cm, 1) ==> r is None && *final(self) == *old(self))
                &&& ((valid_ymd(cy, cm, 1) && dse_ymd(cy, cm, 1) > e) ==> r is None && *final(self)
                    == *old(self))
                &&& ((valid_ymd(cy, cm, 1) && dse_ymd(cy, cm, 1) <= e) ==> {
                    &&& (!valid_ymd(ny, nm, 1) ==> r is None && *final(self) == *old(self))
                    &&& (valid_ymd(ny, nm, 1) ==> {
                        &&& (r matches Some(p) && p.0 == PartialDate::Ym(
                            YearMonth { yr: cy as i32, mth1: cm as u32 },
                        ) && p.1 == PartialDate::Ym(YearMonth { yr: ny as i32, mth1: nm as u32 }))
                        &&& (dse_ymd(ny, nm, 1) <= e ==> final(self).current_year == ny && final(self).current_month == nm)
                        &&& ((dse_ymd(ny, nm, 1) > e && e + 32 > max_dse()) ==> final(self).current_year == ny && final(self).current_month == nm)
                        &&& ((dse_ymd(ny, nm, 1) > e && e + 32 <= max_dse()) ==> {
                            // the cursor skips to the month containing the
                            // thirty-second day past the end, which starts
                            // after the end
                            let fy = final(self).current_year as int;
                            let fm = final(self).current_month as int;
                            &&& valid_ymd(fy, fm, 1)
                            &&& dse_ymd(fy, fm, 1) > e
                            &&& dse_ymd(fy, fm, 1) <= e + 32 < dse_ymd(fy, fm, 1)
                                + crate::calendar::days_in_month(fy, fm)
                        })
                    })
                })
            }),
    {
        let e = self.end_date;
        let current_date = match Date::from_ymd(self.current_year, self.current_month, 1) {
            Some(d) => d,
            None => {
                return None;
            },
        };
        proof {
            lemma_date_order(current_date, e);
        }
        if crate::calendar::date_lt(&e, &current_date) {
            return None;
        }
        let month_pd = PartialDate::Ym(
            YearMonth { yr: self.current_year, mth1: self.current_month },
        );
        let (next_year, next_month) = if self.current_month == 12 {
            (self.current_year + 1, 1)
        } else {
            (self.current_year, self.current_month + 1)
        };
        let next_month_pd = PartialDate::Ym(YearMonth { yr: next_year, mth1: next_month });
        let next_date = match Date::from_ymd(next_year, next_month, 1) {
            Some(d) => d,
            None => {
                return None;
            },
        };
        proof {
            lemma_date_order(next_date, e);
        }
        self.current_year = next_year;
        self.current_month = next_month;
        if crate::calendar::date_lt(&e, &next_date) {
            proof {
                crate::calendar::lemma_dse_bounds(e);
            }
            let n_end = e.days_since_epoch_e();
            let maxn = crate::calendar::max_dse_e();
            if n_end <= maxn - 32 {
                let bump = Date::from_dse(n_end + 32);
                proof {
                    lemma_dse_in_year(bump.yr as int, bump.mth1 as int, bump.day1 as int);
                    crate::calendar::lemma_dbm_monotonic(bump.yr as int, 1, bump.mth1 as int);
                }
                self.current_year = bump.yr;
                self.current_month = bump.mth1;
            }
        }
        Some((month_pd, next_month_pd))
    }
}

impl YearIterator {
    /// The bound is a real date.
    pub open spec fn wf(self) -> bool {
        self.end_date.valid()
    }

    /// Yield the year under the cursor paired with the following year and
    /// advance a year, including the year whose first day equals the
    /// range's end; after that final year the cursor jumps past the end.
    /// Ends when the cursor or the following year is not representable.
    pub fn next(&mut self) -> (r: Option<(PartialDate, PartialDate)>)
        requires
            old(self).wf(),
        ensures
            final(self).wf(),
            final(self).end_date == old(self).end_date,
            ({
                let cy = old(self).current_year as int;
                let e = old(self).end_date.dse();
                &&& (!valid_ymd(cy, 1, 1) ==> r is None && *final(self) == *old(self))
                &&& ((valid_ymd(cy, 1, 1) && dse_ymd(cy, 1, 1) > e) ==> r is None && *final(self)
                    == *old(self))
                &&& ((valid_ymd(cy, 1, 1) && dse_ymd(cy, 1, 1) <= e) ==> {
                    &&& (!valid_ymd(cy + 1, 1, 1) ==> r is None && *final(self) == *old(self))
                    &&& (valid_ymd(cy + 1, 1, 1) ==> {
                        &&& (r matches Some(p) && p.0 == PartialDate::Y(cy as i32) && p.1
                            == PartialDate::Y((cy + 1) as i32))
                        &&& (dse_ymd(cy + 1, 1, 1) <= e ==> final(self).current_year == cy + 1)
                        &&& (dse_ymd(cy + 1, 1, 1) > e ==> final(self).current_year == old(self).end_date.yr + 2)
                    })
                })
            }),
    {
        let e = self.end_date;
        let current_date = match Date::from_ymd(self.current_year, 1, 1) {
            Some(d) => d,
            None => {
                return None;
            },
        };
        proof {
            lemma_date_order(current_date, e);
        }
        if crate::calendar::date_lt(&e, &current_date) {
            return None;
        }
        let year_pd = PartialDate::Y(self.current_year);
        let next_year = self.current_year + 1;
        let next_year_pd = PartialDate::Y(next_year);
        let next_date = match Date::from_ymd(next_year, 1, 1) {
            Some(d) => d,
            None => {
                return None;
            },
        };
        proof {
            lemma_date_order(next_date, e);
        }
        self.current_year = next_year;
        if crate::calendar::date_lt(&e, &next_date) {
            self.current_year = e.yr + 2;
        }
        Some((year_pd, next_year_pd))
    }
}

/// A formatted numeric component parses back to its value: it is one or
/// more digits (dash-free, no sign), and its value is the number it was
/// built from.
pub(crate) proof fn lemma_component_round_trip(v: int, w: int, bound: int)
    requires
        0 <= v <= bound,
    ensures
        spec_parse_uint(zero_pad(dec_digits(v), w), bound) == Some(v),
        crate::split::dash_free(zero_pad(dec_digits(v), w)),
        zero_pad(dec_digits(v), w).len() >= 1,
{
    crate::digits::lemma_dec_digits(v);
    crate::digits::lemma_zero_pad(dec_digits(v), w);
    let s = zero_pad(dec_digits(v), w);
    assert(s.len() >= 1);
    assert(crate::digits::all_digits(s));
    assert forall|i: int| 0 <= i < s.len() implies #[trigger] s[i] != '-' by {
        assert(crate::digits::is_digit(s[i]));
    }
    assert(s[0] != '+') by {
        assert(crate::digits::is_digit(s[0]));
    }
}

/// Round trip: parsing a formatted partial date gives the value back.
/// Negative years are excluded: the dash of a negative year would be
/// taken for a delimiter; an exact-day value must also be a real calendar
/// date, as any constructed by this library is.
#[verifier::rlimit(60)]
#[verifier::spinoff_prover]
pub proof fn lemma_parse_format_round_trip(pd: PartialDate)
    requires
        pd matches PartialDate::Y(yr) ==> yr >= 0,
        pd matches PartialDate::Ym(ym) ==> ym.yr >= 0,
        pd matches PartialDate::Ymd(d) ==> d.yr >= 0 && d.valid(),
        pd matches PartialDate::Yw { yr, week } ==> yr >= 0,
    ensures
        spec_parse(spec_format(pd)) == Ok::<PartialDate, ParseError>(pd),
{
    let s = spec_format(pd);
    match pd {
        PartialDate::Y(yr) => {
            lemma_component_round_trip(yr as int, 0, i32::MAX as int);
            let num = dec_digits(yr as int);
            crate::digits::lemma_zero_pad(num, 0);
            assert(zero_pad(num, 0) =~= num);
            assert(s =~= seq!['y'].add(seq!['-']).add(num));
            crate::split::lemma_split_prepend(s, seq!['y'], num);
            crate::split::lemma_split_dash_free(num);
            let parts = split_dash(s);
            assert(parts =~= seq![seq!['y'], num]);
        },
        PartialDate::Ym(ym) => {
            lemma_component_round_trip(ym.yr as int, 4, i32::MAX as int);
            lemma_component_round_trip(ym.mth1 as int, 2, u32::MAX as int);
            let p1 = fmt_int_pad(ym.yr as int, 4);
            let p2 = zero_pad(dec_digits(ym.mth1 as int), 2);
            assert(p1 == zero_pad(dec_digits(ym.yr as int), 4));
            let rest = p1.add(seq!['-']).add(p2);
            assert(s =~= seq!['y', 'm'].add(seq!['-']).add(rest));
            crate::split::lemma_split_prepend(s, seq!['y', 'm'], rest);
            assert(rest =~= p1.add(seq!['-']).add(p2));
            crate::split::lemma_split_prepend(rest, p1, p2);
            crate::split::lemma_split_dash_free(p2);
            let parts = split_dash(s);
            assert(parts =~= seq![seq!['y', 'm'], p1, p2]);
        },
        PartialDate::Ymd(d) => {
            lemma_component_round_trip(d.yr as int, 4, i32::MAX as int);
            lemma_component_round_trip(d.mth1 as int, 2, u32::MAX as int);
            lemma_component_round_trip(d.day1 as int, 2, u32::MAX as int);
            let p1 = fmt_int_pad(d.yr as int, 4);
            let p2 = zero_pad(dec_digits(d.mth1 as int), 2);
            let p3 = zero_pad(dec_digits(d.day1 as int), 2);
            assert(p1 == zero_pad(dec_digits(d.yr as int), 4));
            let rest2 = p2.add(seq!['-']).add(p3);
            let rest1 = p1.add(seq!['-']).add(rest2);
            assert(s =~= seq!['y', 'm', 'd'].add(seq!['-']).add(rest1));
            crate::split::lemma_split_prepend(s, seq!['y', 'm', 'd'], rest1);
            assert(rest1 =~= p1.add(seq!['-']).add(rest2));
            crate::split::lemma_split_prepend(rest1, p1, rest2);
            assert(rest2 =~= p2.add(seq!['-']).add(p3));
            crate::split::lemma_split_prepend(rest2, p2, p3);
            crate::split::lemma_split_dash_free(p3);
            let parts = split_dash(s);
            assert(parts =~= seq![seq!['y', 'm', 'd'], p1, p2, p3]);
        },
        PartialDate::Yw { yr, week } => {
            lemma_component_round_trip(yr as int, 4, i32::MAX as int);
            lemma_component_round_trip(week as int, 2, u32::MAX as int);
            let p1 = fmt_int_pad(yr as int, 4);
            let p2 = zero_pad(dec_digits(week as int), 2);
            assert(p1 == zero_pad(dec_digits(yr as int), 4));
            let rest = p1.add(seq!['-']).add(p2);
            assert(s =~= seq!['y', 'w'].add(seq!['-']).add(rest));
            crate::split::lemma_split_prepend(s, seq!['y', 'w'], rest);
            assert(rest =~= p1.add(seq!['-']).add(p2));
            crate::split::lemma_split_prepend(rest, p1, p2);
            crate::split::lemma_split_dash_free(p2);
            let parts = split_dash(s);
            assert(parts =~= seq![seq!['y', 'w'], p1, p2]);
        },
    }
}

/// A semantic time: an imprecise period (`Range`) or an exact instant
/// (`Point`).
#[derive(Clone, Copy, PartialEq, Eq, Structural, Debug)]
pub enum SemanticTime {
    Range(PartialDate),
    Point(Timestamp),
}

/// What reading a semantic time from text gives, first match wins: the
/// legacy `pt-` prefix followed by an RFC 3339 timestamp (accepted for
/// backward compatibility, never written), then a bare RFC 3339
/// timestamp, then the partial-date grammar.
pub open spec fn spec_parse_semantic(s: Seq<char>) -> Result<SemanticTime, ParseError> {
    if s.len() >= 3 && s.subrange(0, 3) == seq!['p', 't', '-'] {
        match rfc3339_parse(s.skip(3)) {
            Some(t) => Ok(SemanticTime::Point(t)),
            None => Err(ParseError::Timestamp),
        }
    } else if rfc3339_parse(s) is Some {
        Ok(SemanticTime::Point(rfc3339_parse(s).unwrap()))
    } else {
        match spec_parse(s) {
            Ok(pd) => Ok(SemanticTime::Range(pd)),
            Err(e) => Err(e),
        }
    }
}

impl SemanticTime {
    /// The variants on which `start`, `end` and `to_string` are defined.
    pub open spec fn wf(self) -> bool {
        match self {
            SemanticTime::Range(pd) => pd.wf(),
            SemanticTime::Point(t) => t.valid(),
        }
    }

    /// Decide `wf` at run time.
    pub fn is_wf(&self) -> (r: bool)
        ensures
            r == self.wf(),
    {
        match self {
            SemanticTime::Range(pd) => pd.is_wf(),
            SemanticTime::Point(t) => t.is_valid(),
        }
    }

    /// Wrap a partial date.
    pub fn from_partial(pd: PartialDate) -> (r: Self)
        ensures
            r == SemanticTime::Range(pd),
    {
        SemanticTime::Range(pd)
    }

    /// Wrap an exact timestamp.
    pub fn from_datetime(dt: Timestamp) -> (r: Self)
        ensures
            r == SemanticTime::Point(dt),
    {
        SemanticTime::Point(dt)
    }

    /// The first day of the period; for a point, the day it falls on.
    pub fn start(&self) -> (r: Date)
        requires
            self.wf(),
        ensures
            r.valid(),
            (*self) matches SemanticTime::Range(pd) ==> r.dse() == pd.start_dse(),
            (*self) matches SemanticTime::Point(t) ==> r == t.date,
    {
        match self {
            SemanticTime::Range(pd) => pd.start(),
            SemanticTime::Point(t) => t.date,
        }
    }

    /// The exclusive end day of the period; for a point, the day it falls
    /// on (zero width in calendar-day terms).
    pub fn end(&self) -> (r: Date)
        requires
            self.wf(),
        ensures
            r.valid(),
            (*self) matches SemanticTime::Range(pd) ==> r.dse() == pd.end_dse(),
            (*self) matches SemanticTime::Point(t) ==> r == t.date,
    {
        match self {
            SemanticTime::Range(pd) => pd.end(),
            SemanticTime::Point(t) => t.date,
        }
    }

    /// Read a semantic time from text.
    pub fn parse(s: &str) -> (r: Result<SemanticTime, ParseError>)
        ensures
            r == spec_parse_semantic(s@),
    {
        let len = s.unicode_len();
        if len >= 3 && s.get_char(0) == 'p' && s.get_char(1) == 't' && s.get_char(2) == '-' {
            proof {
                assert(s@.subrange(0, 3) =~= seq!['p', 't', '-']);
            }
            let rest = s.substring_char(3, len);
            proof {
                assert(rest@ =~= s@.skip(3));
            }
            return match crate::timestamp::parse_rfc3339(rest) {
                Some(t) => Ok(SemanticTime::Point(t)),
                None => Err(ParseError::Timestamp),
            };
        }
        proof {
            if s@.len() >= 3 && s@.subrange(0, 3) == seq!['p', 't', '-'] {
                assert(s@[0] == 'p' && s@[1] == 't' && s@[2] == '-');
            }
        }
        if let Some(t) = crate::timestamp::parse_rfc3339(s) {
            return Ok(SemanticTime::Point(t));
        }
        match PartialDate::parse(s) {
            Ok(pd) => Ok(SemanticTime::Range(pd)),
            Err(e) => Err(e),
        }
    }

    /// Render as text: a point as its RFC 3339 timestamp, a range in the
    /// partial-date grammar. The legacy `pt-` prefix is never written.
    pub fn to_string(&self) -> (r: String)
        requires
            self.wf(),
        ensures
            (*self) matches SemanticTime::Range(pd) ==> r@ == spec_format(pd),
            (*self) matches SemanticTime::Point(t) ==> r@ == rfc3339_format(t),
    {
        match self {
            SemanticTime::Range(pd) => pd.to_string(),
            SemanticTime::Point(t) => crate::timestamp::format_rfc3339(t),
        }
    }
}

/// A partial date decomposed into its optional components.
pub struct Ymdw {
    pub yr: i32,
    pub mth1: Option<i32>,
    pub week: Option<u32>,
    pub day: Option<i32>,
}

/// What `PartialDate::from_ymdw` returns: a week wins over a day, a day
/// needs a month and a real calendar date, a month alone gives a
/// year-month, and a bare year gives a year.
pub open spec fn spec_from_ymdw(
    yr: i32,
    mth1: Option<i32>,
    week: Option<u32>,
    day: Option<i32>,
) -> Result<PartialDate, ParseError> {
    if week is Some {
        Ok(PartialDate::Yw { yr, week: week.unwrap() })
    } else if day is Some {
        if mth1 is None {
            Err(ParseError::NoMonth)
        } else if valid_ymd(yr as int, mth1.unwrap() as u32 as int, day.unwrap() as u32 as int) {
            Ok(
                PartialDate::Ymd(
                    Date { yr, mth1: mth1.unwrap() as u32, day1: day.unwrap() as u32 },
                ),
            )
        } else {
            Err(ParseError::InvalidDate)
        }
    } else if mth1 is Some {
        Ok(PartialDate::Ym(YearMonth { yr, mth1: mth1.unwrap() as u32 }))
    } else {
        Ok(PartialDate::Y(yr))
    }
}

impl PartialDate {
    /// Build a partial date from optional components.
    pub fn from_ymdw(yr: i32, mth1: Option<i32>, week: Option<u32>, day: Option<i32>) -> (r:
        Result<PartialDate, ParseError>)
        ensures
            r == spec_from_ymdw(yr, mth1, week, day),
    {
        if let Some(week) = week {
            return Ok(PartialDate::Yw { yr, week });
        }
        if let Some(day) = day {
            let Some(m) = mth1 else {
                return Err(ParseError::NoMonth);
            };
            let mu = #[verifier::truncate] (m as u32);
            let du = #[verifier::truncate] (day as u32);
            let Some(nd) = Date::from_ymd(yr, mu, du) else {
                return Err(ParseError::InvalidDate);
            };
            return Ok(PartialDate::Ymd(nd));
        }
        if let Some(m) = mth1 {
            return Ok(PartialDate::Ym(YearMonth { yr, mth1: #[verifier::truncate] (m as u32) }));
        }
        Ok(PartialDate::Y(yr))
    }

    /// Decompose into optional components.
    pub fn as_ymdw(self) -> (r: Ymdw)
        ensures
            self matches PartialDate::Y(yr) ==> r.yr == yr && r.mth1 is None && r.week is None
                && r.day is None,
            self matches PartialDate::Ym(ym) ==> r.yr == ym.yr && r.mth1 == Some(ym.mth1 as i32)
                && r.week is None && r.day is None,
            self matches PartialDate::Ymd(d) ==> r.yr == d.yr && r.mth1 == Some(d.mth1 as i32)
                && r.week is None && r.day == Some(d.day1 as i32),
            self matches PartialDate::Yw { yr, week } ==> r.yr == yr && r.mth1 is None && r.week
                == Some(week) && r.day is None,
    {
        match self {
            PartialDate::Y(yr) => Ymdw { yr, mth1: None, week: None, day: None },
            PartialDate::Ym(ym) => Ymdw {
                yr: ym.yr,
                mth1: Some(ym.mth1 as i32),
                week: None,
                day: None,
            },
            PartialDate::Ymd(d) => Ymdw {
                yr: d.yr,
                mth1: Some(d.mth1 as i32),
                week: None,
                day: Some(d.day1 as i32),
            },
            PartialDate::Yw { yr, week } => Ymdw { yr, mth1: None, week: Some(week), day: None },
        }
    }
}

} // verus!
