//! Walking a half-open date range one day at a time.

use vstd::prelude::*;

use crate::calendar::{date_lt, Date};
use core::ops::Range;

verus! {

/// Cursor over the days of a half-open range: yields each date from the
/// start up to, but excluding, the end.
pub struct DaysBetweenIter {
    pub current: Option<Date>,
    pub end: Date,
}

impl DaysBetweenIter {
    /// The cursor and bound are real dates.
    pub open spec fn wf(self) -> bool {
        &&& (self.current matches Some(c) ==> c.valid())
        &&& self.end.valid()
    }

    /// Yield the cursor and advance it one day, or stop at the end of the
    /// range (or just past the largest representable date).
    pub fn next(&mut self) -> (r: Option<Date>)
        requires
            old(self).wf(),
        ensures
            final(self).wf(),
            final(self).end == old(self).end,
            old(self).current is None ==> r is None && *final(self) == *old(self),
            old(self).current matches Some(c) ==> {
                &&& c.dse() >= old(self).end.dse() ==> r is None && *final(self) == *old(self)
                &&& c.dse() < old(self).end.dse() ==> {
                    &&& r == Some(c)
                    &&& (c == Date::max_spec() ==> final(self).current is None)
                    &&& (c != Date::max_spec() ==> (final(self).current matches Some(n)
                        && n.valid() && n.dse() == c.dse() + 1))
                }
            },
    {
        if let Some(current) = self.current {
            if !date_lt(&current, &self.end) {
                return None;
            }
            self.current = current.succ();
            Some(current)
        } else {
            None
        }
    }
}

/// Extension of a date range: iterate through the dates it contains.
pub trait NaiveDateRangeExt {
    /// An iterator over each date in the range, inclusive of the start
    /// and exclusive of the end.
    fn days_between_iter(&self) -> DaysBetweenIter;
}

impl NaiveDateRangeExt for Range<Date> {
    fn days_between_iter(&self) -> (r: DaysBetweenIter) {
        DaysBetweenIter { current: Some(self.start), end: self.end }
    }
}

/// The day iterator of a range, with its contract: it starts at the
/// range's start and is bounded by the range's end.
pub fn days_of_range(range: &Range<Date>) -> (r: DaysBetweenIter)
    ensures
        r.current == Some(range.start),
        r.end == range.end,
{
    DaysBetweenIter { current: Some(range.start), end: range.end }
}

} // verus!
