//! A (year, month, day) triple used by successive-addition logic. The
//! month is 1-based and kept in [1, 12]; the day is 1-based and *not*
//! required to exist in its month — the triple becomes calendar-checked
//! only when turned into a `Date`.

use vstd::prelude::*;

use crate::date_unit::{DateUnit, DateUnitType};
use crate::year_month::YearMonth;

verus! {

#[derive(Clone, Copy, PartialEq, Eq, Structural, Debug)]
pub struct YearMonthDay {
    pub yr: i32,
    pub mth1: u32,
    pub day1: u32,
}

/// Zero-based index of a month on the unbounded month axis.
pub open spec fn month_index(yr: int, mth1: int) -> int {
    yr * 12 + mth1 - 1
}

impl YearMonthDay {
    /// The month part of the triple.
    pub fn ym(&self) -> (r: YearMonth)
        ensures
            r == (YearMonth { yr: self.yr, mth1: self.mth1 }),
    {
        YearMonth { yr: self.yr, mth1: self.mth1 }
    }

    /// The result of `add` stays within machine integers.
    pub open spec fn can_add(self, du: DateUnit) -> bool {
        match du.ty {
            DateUnitType::Years => i32::MIN <= self.yr + du.value <= i32::MAX,
            DateUnitType::Months => i32::MIN <= (month_index(self.yr as int, self.mth1 as int)
                + du.value) / 12 <= i32::MAX,
            _ => false,
        }
    }

    /// The triple `add` returns: the same day, with the month moved along
    /// the month axis (for months) or the year axis (for years).
    pub open spec fn add_spec(self, du: DateUnit) -> YearMonthDay {
        match du.ty {
            DateUnitType::Years => YearMonthDay {
                yr: (self.yr + du.value) as i32,
                mth1: self.mth1,
                day1: self.day1,
            },
            _ => {
                let t = month_index(self.yr as int, self.mth1 as int) + du.value;
                YearMonthDay { yr: (t / 12) as i32, mth1: (t % 12 + 1) as u32, day1: self.day1 }
            },
        }
    }

    /// Move the triple by whole months, normalizing year/month overflow
    /// in either direction; the day is kept as is.
    pub fn add_months(&self, mths: i32) -> (r: YearMonthDay)
        requires
            1 <= self.mth1 <= 12,
            self.can_add(DateUnit { value: mths, ty: DateUnitType::Months }),
        ensures
            r == self.add_spec(DateUnit { value: mths, ty: DateUnitType::Months }),
            month_index(r.yr as int, r.mth1 as int) == month_index(self.yr as int, self.mth1 as int)
                + mths,
            1 <= r.mth1 <= 12,
            r.day1 == self.day1,
    {
        let t: i64 = self.yr as i64 * 12 + (self.mth1 as i64 - 1) + mths as i64;
        let yr = t.checked_div_euclid(12).unwrap();
        let m = t.checked_rem_euclid(12).unwrap();
        proof {
            vstd::arithmetic::div_mod::lemma_fundamental_div_mod(t as int, 12);
        }
        YearMonthDay { yr: yr as i32, mth1: (m + 1) as u32, day1: self.day1 }
    }

    /// Add a typed delta. Only year and month deltas are defined.
    pub fn add(&self, du: &DateUnit) -> (r: YearMonthDay)
        requires
            du.ty matches DateUnitType::Years || du.ty matches DateUnitType::Months,
            du.ty matches DateUnitType::Months ==> 1 <= self.mth1 <= 12,
            self.can_add(*du),
        ensures
            r == self.add_spec(*du),
    {
        match du.ty {
            DateUnitType::Years => YearMonthDay {
                yr: self.yr + du.value,
                mth1: self.mth1,
                day1: self.day1,
            },
            DateUnitType::Months => self.add_months(du.value),
            DateUnitType::Days => vstd::pervasive::unreached(),
            DateUnitType::Weeks => vstd::pervasive::unreached(),
        }
    }

    /// The succession of triples starting at `self` and stepping by
    /// `step`: first `self`, then `self + step`, and so on.
    pub fn succ(self, step: DateUnit) -> (r: YmdSuccession)
        ensures
            r.cur == self,
            r.step == step,
    {
        YmdSuccession { cur: self, step }
    }
}

/// The state of a `YearMonthDay` succession: the triple to yield next and
/// the step. Each pull yields the current triple and advances by the
/// step; it ends only when the step is untyped for addition or the next
/// triple would leave machine integers.
pub struct YmdSuccession {
    pub cur: YearMonthDay,
    pub step: DateUnit,
}

impl YmdSuccession {
    /// The succession can produce another element and advance.
    pub open spec fn can_step(self) -> bool {
        &&& (self.step.ty matches DateUnitType::Years || self.step.ty matches DateUnitType::Months)
        &&& (self.step.ty matches DateUnitType::Months ==> 1 <= self.cur.mth1 <= 12)
        &&& self.cur.can_add(self.step)
    }

    /// Yield the current triple and advance by the step.
    pub fn next(&mut self) -> (r: Option<YearMonthDay>)
        ensures
            old(self).can_step() ==> r == Some(old(self).cur) && final(self).cur == old(
                self,
            ).cur.add_spec(old(self).step) && final(self).step == old(self).step,
            !old(self).can_step() ==> r is None && *final(self) == *old(self),
    {
        match self.step.ty {
            DateUnitType::Years => {
                let v = self.step.value;
                if (v >= 0 && self.cur.yr > i32::MAX - v) || (v < 0 && self.cur.yr < i32::MIN - v) {
                    return None;
                }
            },
            DateUnitType::Months => {
                if self.cur.mth1 < 1 || self.cur.mth1 > 12 {
                    return None;
                }
                let t: i64 = self.cur.yr as i64 * 12 + (self.cur.mth1 as i64 - 1)
                    + self.step.value as i64;
                let q = t.checked_div_euclid(12).unwrap();
                if q < i32::MIN as i64 || q > i32::MAX as i64 {
                    return None;
                }
            },
            DateUnitType::Days => {
                return None;
            },
            DateUnitType::Weeks => {
                return None;
            },
        }
        let out = self.cur;
        self.cur = out.add(&self.step);
        Some(out)
    }
}

} // verus!
