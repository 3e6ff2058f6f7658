//! A calendar month: year plus 1-based month. Ordered by year, then
//! month.

use vstd::prelude::*;
use vstd::string::*;

use crate::calendar::{valid_ymd, Date, MAX_YEAR, MIN_YEAR};
use crate::date_unit::{DateUnit, DateUnitType};
use crate::digits::{
    dec_digits, fmt_int, push_int, push_uint_pad, spec_parse_uint, parse_uint_part, zero_pad,
};
use crate::errors::ParseError;
use crate::split::{lemma_split_len, split_dash, split_dash_e};
use crate::year_month_day::{YearMonthDay, YmdSuccession};
use core::ops::Range;

verus! {

#[derive(Clone, Copy, PartialEq, Eq, Structural, Debug, Hash, PartialOrd, Ord)]
pub struct YearMonth {
    pub yr: i32,
    pub mth1: u32,
}

/// What `YearMonth::parse` returns for a given input: the first
/// dash-separated token as the year, the second as the month; parts past
/// the second are ignored.
pub open spec fn spec_parse_year_month(s: Seq<char>) -> Result<YearMonth, ParseError> {
    let parts = split_dash(s);
    if spec_parse_uint(parts[0], i32::MAX as int) is None {
        Err(ParseError::Year)
    } else if parts.len() < 2 || spec_parse_uint(parts[1], u32::MAX as int) is None {
        Err(ParseError::Month)
    } else {
        Ok(
            YearMonth {
                yr: spec_parse_uint(parts[0], i32::MAX as int).unwrap() as i32,
                mth1: spec_parse_uint(parts[1], u32::MAX as int).unwrap() as u32,
            },
        )
    }
}

/// What `YearMonth::to_string` returns: the year unpadded, a dash, the
/// month zero-padded to two digits.
pub open spec fn spec_year_month_string(ym: YearMonth) -> Seq<char> {
    fmt_int(ym.yr as int).add(seq!['-']).add(zero_pad(dec_digits(ym.mth1 as int), 2))
}

impl YearMonth {
    /// Parse a `YYYY-MM` string.
    pub fn parse(s: &str) -> (r: Result<YearMonth, ParseError>)
        ensures
            r == spec_parse_year_month(s@),
    {
        proof {
            lemma_split_len(s@);
        }
        let parts = split_dash_e(s);
        proof {
            assert(parts.deep_view()[0] == parts@[0]@);
        }
        let yr = match parse_uint_part(parts[0], i32::MAX as u32) {
            Some(v) => v as i32,
            None => {
                return Err(ParseError::Year);
            },
        };
        if parts.len() < 2 {
            return Err(ParseError::Month);
        }
        proof {
            assert(parts.deep_view()[1] == parts@[1]@);
        }
        let mth1 = match parse_uint_part(parts[1], u32::MAX) {
            Some(v) => v,
            None => {
                return Err(ParseError::Month);
            },
        };
        Ok(YearMonth { yr, mth1 })
    }

    /// Render as `YYYY-MM`.
    pub fn to_string(&self) -> (r: String)
        ensures
            r@ == spec_year_month_string(*self),
    {
        proof {
            reveal_strlit("-");
        }
        let mut out = String::new();
        push_int(&mut out, self.yr);
        out.append("-");
        push_uint_pad(&mut out, self.mth1, 2);
        proof {
            assert(out@ =~= spec_year_month_string(*self));
        }
        out
    }

    /// The first day of this month, as a triple.
    pub fn start_of_month(&self) -> (r: YearMonthDay)
        ensures
            r == (YearMonthDay { yr: self.yr, mth1: self.mth1, day1: 1 }),
    {
        YearMonthDay { yr: self.yr, mth1: self.mth1, day1: 1 }
    }

    /// The month containing a date.
    pub fn from_nd(nd: Date) -> (r: YearMonth)
        ensures
            r == (YearMonth { yr: nd.yr, mth1: nd.mth1 }),
    {
        YearMonth { yr: nd.yr, mth1: nd.mth1 }
    }

    /// The first day of this month, as a date.
    pub fn to_nd(&self) -> (r: Date)
        requires
            MIN_YEAR <= self.yr <= MAX_YEAR,
            1 <= self.mth1 <= 12,
        ensures
            r == (Date { yr: self.yr, mth1: self.mth1, day1: 1 }),
            r.valid(),
    {
        Date { yr: self.yr, mth1: self.mth1, day1: 1 }
    }

    /// The next month, December wrapping to January of the next year.
    pub fn succ(&self) -> (r: YearMonth)
        requires
            1 <= self.mth1 <= 12,
            self.mth1 == 12 ==> self.yr < i32::MAX,
        ensures
            r == (if self.mth1 == 12 {
                YearMonth { yr: (self.yr + 1) as i32, mth1: 1 }
            } else {
                YearMonth { yr: self.yr, mth1: (self.mth1 + 1) as u32 }
            }),
    {
        if self.mth1 == 12 {
            YearMonth { yr: self.yr + 1, mth1: 1 }
        } else {
            YearMonth { yr: self.yr, mth1: self.mth1 + 1 }
        }
    }

    /// The previous month, January wrapping to December of the previous
    /// year.
    pub fn pred(&self) -> (r: YearMonth)
        requires
            1 <= self.mth1 <= 12,
            self.mth1 == 1 ==> self.yr > i32::MIN,
        ensures
            r == (if self.mth1 == 1 {
                YearMonth { yr: (self.yr - 1) as i32, mth1: 12 }
            } else {
                YearMonth { yr: self.yr, mth1: (self.mth1 - 1) as u32 }
            }),
    {
        if self.mth1 == 1 {
            YearMonth { yr: self.yr - 1, mth1: 12 }
        } else {
            YearMonth { yr: self.yr, mth1: self.mth1 - 1 }
        }
    }

    /// The dates of this month as a half-open range: its first day up to
    /// the next month's first day.
    pub fn dates(&self) -> (r: Range<Date>)
        requires
            MIN_YEAR <= self.yr <= MAX_YEAR,
            1 <= self.mth1 <= 12,
            self.mth1 == 12 ==> self.yr < MAX_YEAR,
        ensures
            r.start == (Date { yr: self.yr, mth1: self.mth1, day1: 1 }),
            r.end == (if self.mth1 == 12 {
                Date { yr: (self.yr + 1) as i32, mth1: 1, day1: 1 }
            } else {
                Date { yr: self.yr, mth1: (self.mth1 + 1) as u32, day1: 1 }
            }),
            r.start.valid() && r.end.valid(),
            r.start.dse() < r.end.dse(),
    {
        let start = self.to_nd();
        let next = self.succ();
        let end = next.to_nd();
        proof {
            crate::calendar::lemma_date_order(start, end);
        }
        Range { start, end }
    }

    /// The months stepping from this one by `num_months` at a time,
    /// starting with this month itself.
    pub fn months(self, num_months: i32) -> (r: MonthsIter)
        ensures
            r.inner.cur == (YearMonthDay { yr: self.yr, mth1: self.mth1, day1: 1 }),
            r.inner.step == (DateUnit { value: num_months, ty: DateUnitType::Months }),
    {
        let start = self.start_of_month();
        MonthsIter {
            inner: start.succ(DateUnit { value: num_months, ty: DateUnitType::Months }),
        }
    }
}

/// The months yielded by `YearMonth::months`: the month part of a
/// `YearMonthDay` succession.
pub struct MonthsIter {
    pub inner: YmdSuccession,
}

impl MonthsIter {
    /// Yield the current month and step; `None` only when the next step
    /// would leave machine integers.
    pub fn next(&mut self) -> (r: Option<YearMonth>)
        ensures
            old(self).inner.can_step() ==> r == Some(
                YearMonth { yr: old(self).inner.cur.yr, mth1: old(self).inner.cur.mth1 },
            ) && final(self).inner.cur == old(self).inner.cur.add_spec(old(self).inner.step)
                && final(self).inner.step == old(self).inner.step,
            !old(self).inner.can_step() ==> r is None && *final(self) == *old(self),
    {
        match self.inner.next() {
            Some(ymd) => Some(ymd.ym()),
            None => None,
        }
    }
}

} // verus!
