//! An exact instant in time, held as plain values: a calendar date, the
//! seconds of the day, and the nanoseconds of the second. Reading and
//! writing the RFC 3339 text form is delegated to the chrono crate.

use vstd::prelude::*;

use crate::calendar::{valid_ymd, Date};
use chrono::{Datelike, Timelike};

verus! {

/// An exact timestamp in the zoneless calendar / UTC. `nanos` may reach
/// two billion minus one to represent a leap second, which can only fall
/// on the last second of a minute.
#[derive(Clone, Copy, PartialEq, Eq, Structural, Debug)]
pub struct Timestamp {
    pub date: Date,
    pub secs: u32,
    pub nanos: u32,
}

impl Timestamp {
    /// The fields denote a real instant.
    pub open spec fn valid(self) -> bool {
        &&& self.date.valid()
        &&& self.secs < 86400
        &&& self.nanos < 2_000_000_000
        &&& (self.nanos >= 1_000_000_000 ==> self.secs % 60 == 59)
    }

    /// Decide `valid` at run time.
    pub fn is_valid(&self) -> (r: bool)
        ensures
            r == self.valid(),
    {
        let date_ok = match Date::from_ymd(self.date.yr, self.date.mth1, self.date.day1) {
            Some(_) => true,
            None => false,
        };
        date_ok && self.secs < 86400 && self.nanos < 2_000_000_000 && (self.nanos < 1_000_000_000
            || self.secs % 60 == 59)
    }

    /// The midnight that starts a day.
    pub fn midnight(date: Date) -> (r: Timestamp)
        ensures
            r == (Timestamp { date, secs: 0, nanos: 0 }),
    {
        Timestamp { date, secs: 0, nanos: 0 }
    }
}

/// The instant an RFC 3339 string denotes (converted to UTC), or `None`
/// when the string is not a timestamp; a function of the characters
/// alone.
pub uninterp spec fn rfc3339_parse(s: Seq<char>) -> Option<Timestamp>;

/// The RFC 3339 rendering of an instant; a function of its fields alone.
pub uninterp spec fn rfc3339_format(t: Timestamp) -> Seq<char>;

/// Relies on chrono's `DateTime::parse_from_rfc3339` and its conversion
/// to UTC: what a timestamp string denotes depends on the characters
/// alone, and the parsed instant carries a date within chrono's year
/// range, seconds below a day, and nanoseconds below two billion with a
/// leap second only on a minute's last second.
#[verifier::external_body]
pub(crate) fn parse_rfc3339(s: &str) -> (r: Option<Timestamp>)
    ensures
        r == rfc3339_parse(s@),
        r matches Some(t) ==> t.valid(),
{
    let dt: chrono::DateTime<chrono::Utc> = match chrono::DateTime::parse_from_rfc3339(s) {
        Ok(d) => d.into(),
        Err(_) => {
            return None;
        },
    };
    let nd = dt.date_naive();
    Some(
        Timestamp {
            date: Date { yr: nd.year(), mth1: nd.month(), day1: nd.day() },
            secs: dt.time().num_seconds_from_midnight(),
            nanos: dt.time().nanosecond(),
        },
    )
}

/// Relies on chrono's `DateTime::to_rfc3339`: the rendering of an instant
/// depends on its fields alone.
#[verifier::external_body]
pub(crate) fn format_rfc3339(t: &Timestamp) -> (r: String)
    requires
        t.valid(),
    ensures
        r@ == rfc3339_format(*t),
{
    let nd = chrono::NaiveDate::from_ymd_opt(t.date.yr, t.date.mth1, t.date.day1).unwrap();
    let nt = chrono::NaiveTime::from_num_seconds_from_midnight_opt(t.secs, t.nanos).unwrap();
    let ndt = chrono::NaiveDateTime::new(nd, nt);
    let dt = chrono::DateTime::<chrono::Utc>::from_naive_utc_and_offset(ndt, chrono::Utc);
    dt.to_rfc3339()
}

} // verus!
