//! Calendar-date abstraction layer: partial dates at four granularities
//! (year, year-month, exact day, ISO week), a semantic-time union over
//! partial dates and exact timestamps, month-aligned range rounding, and
//! calendar decomposition into days, weeks, months and years.

pub mod calendar;
pub mod date_unit;
pub mod datetime_range;
pub mod digits;
pub mod epoch;
pub mod errors;
pub mod iso_week;
pub mod naive_date_ext;
pub mod naive_date_range;
pub mod partial;
pub mod split;
pub mod timestamp;
pub mod year_month;
pub mod year_month_day;

pub use calendar::Date;
pub use naive_date_range::NaiveDateRangeExt;
pub use partial::{PartialDate, SemanticTime};

use vstd::prelude::*;

use crate::calendar::valid_ymd;
use crate::digits::{parse_uint_part, spec_parse_uint};
use crate::partial::spec_parse;
use crate::split::{lemma_split_len, split_dash, split_dash_e};
use crate::timestamp::{rfc3339_parse, Timestamp};

verus! {

/// A date read from `YYYY-MM-DD` text: defined when three dash-separated
/// non-negative numbers name a real calendar date.
pub open spec fn spec_parse_iso_date(s: Seq<char>) -> Option<Date> {
    let parts = split_dash(s);
    if parts.len() == 3 && spec_parse_uint(parts[0], i32::MAX as int) is Some && spec_parse_uint(
        parts[1],
        u32::MAX as int,
    ) is Some && spec_parse_uint(parts[2], u32::MAX as int) is Some {
        let y = spec_parse_uint(parts[0], i32::MAX as int).unwrap();
        let m = spec_parse_uint(parts[1], u32::MAX as int).unwrap();
        let d = spec_parse_uint(parts[2], u32::MAX as int).unwrap();
        if valid_ymd(y, m, d) {
            Some(Date { yr: y as i32, mth1: m as u32, day1: d as u32 })
        } else {
            None
        }
    } else {
        None
    }
}

/// Read a date from `YYYY-MM-DD` text.
pub fn parse_iso_date(s: &str) -> (r: Option<Date>)
    ensures
        r == spec_parse_iso_date(s@),
{
    proof {
        lemma_split_len(s@);
    }
    let parts = split_dash_e(s);
    if parts.len() != 3 {
        return None;
    }
    proof {
        assert(parts.deep_view()[0] == parts@[0]@);
        assert(parts.deep_view()[1] == parts@[1]@);
        assert(parts.deep_view()[2] == parts@[2]@);
    }
    let Some(y) = parse_uint_part(parts[0], i32::MAX as u32) else {
        return None;
    };
    let Some(m) = parse_uint_part(parts[1], u32::MAX) else {
        return None;
    };
    let Some(d) = parse_uint_part(parts[2], u32::MAX) else {
        return None;
    };
    Date::from_ymd(y as i32, m, d)
}

/// The `YYYY-MM-DD` rendering of a date: the year zero-padded to four
/// digits, month and day to two.
pub open spec fn spec_iso_date_string(d: Date) -> Seq<char> {
    crate::digits::fmt_int_pad(d.yr as int, 4).add(seq!['-']).add(
        crate::digits::zero_pad(crate::digits::dec_digits(d.mth1 as int), 2),
    ).add(seq!['-']).add(crate::digits::zero_pad(crate::digits::dec_digits(d.day1 as int), 2))
}

/// Render a date as `YYYY-MM-DD`.
pub fn format_iso_date(d: &Date) -> (r: String)
    ensures
        r@ == spec_iso_date_string(*d),
{
    proof {
        reveal_strlit("-");
    }
    let mut out = String::new();
    crate::digits::push_int_pad(&mut out, d.yr, 4);
    out.append("-");
    crate::digits::push_uint_pad(&mut out, d.mth1, 2);
    out.append("-");
    crate::digits::push_uint_pad(&mut out, d.day1, 2);
    proof {
        assert(out@ =~= spec_iso_date_string(*d));
    }
    out
}

/// Round trip for the ISO date form: parsing a rendered date gives the
/// date back. Negative years are excluded: their minus sign would be
/// taken for a delimiter.
pub proof fn lemma_iso_date_round_trip(d: Date)
    requires
        d.valid(),
        d.yr >= 0,
    ensures
        spec_parse_iso_date(spec_iso_date_string(d)) == Some(d),
{
    crate::partial::lemma_component_round_trip(d.yr as int, 4, i32::MAX as int);
    crate::partial::lemma_component_round_trip(d.mth1 as int, 2, u32::MAX as int);
    crate::partial::lemma_component_round_trip(d.day1 as int, 2, u32::MAX as int);
    let s = spec_iso_date_string(d);
    let p1 = crate::digits::fmt_int_pad(d.yr as int, 4);
    let p2 = crate::digits::zero_pad(crate::digits::dec_digits(d.mth1 as int), 2);
    let p3 = crate::digits::zero_pad(crate::digits::dec_digits(d.day1 as int), 2);
    assert(p1 == crate::digits::zero_pad(crate::digits::dec_digits(d.yr as int), 4));
    let rest = p2.add(seq!['-']).add(p3);
    assert(s =~= p1.add(seq!['-']).add(rest));
    crate::split::lemma_split_prepend(s, p1, rest);
    assert(rest =~= p2.add(seq!['-']).add(p3));
    crate::split::lemma_split_prepend(rest, p2, p3);
    crate::split::lemma_split_dash_free(p3);
    let parts = split_dash(s);
    assert(parts =~= seq![p1, p2, p3]);
}

/// A date from `YYYY-MM-DD` text that is known to be well-formed.
pub fn naivedate(s: &str) -> (r: Date)
    requires
        spec_parse_iso_date(s@) is Some,
    ensures
        Some(r) == spec_parse_iso_date(s@),
{
    match parse_iso_date(s) {
        Some(d) => d,
        None => vstd::pervasive::unreached(),
    }
}

/// The midnight instant that starts a day.
pub fn utc_datetime(nd: Date) -> (r: Timestamp)
    ensures
        r == (Timestamp { date: nd, secs: 0, nanos: 0 }),
{
    Timestamp::midnight(nd)
}

/// A partial date from wire-format text that is known to be well-formed.
pub fn partial_date(s: &str) -> (r: PartialDate)
    requires
        spec_parse(s@) is Ok,
    ensures
        Ok::<PartialDate, crate::errors::ParseError>(r) == spec_parse(s@),
{
    match PartialDate::parse(s) {
        Ok(pd) => pd,
        Err(_) => vstd::pervasive::unreached(),
    }
}

/// The semantic time spanning a partial date given as wire-format text.
pub fn semantic_time(s: &str) -> (r: SemanticTime)
    requires
        spec_parse(s@) is Ok,
    ensures
        r == SemanticTime::Range(spec_parse(s@).unwrap()),
{
    SemanticTime::from_partial(partial_date(s))
}

/// A timestamp from RFC 3339 text that is known to be well-formed.
pub fn datetime(s: &str) -> (r: Timestamp)
    requires
        rfc3339_parse(s@) is Some,
    ensures
        Some(r) == rfc3339_parse(s@),
{
    match crate::timestamp::parse_rfc3339(s) {
        Some(t) => t,
        None => vstd::pervasive::unreached(),
    }
}

/// A timestamp from RFC 3339 text, or `None` when the text is not a
/// timestamp: the checked counterpart of `datetime`.
pub fn datetime_opt(s: &str) -> (r: Option<Timestamp>)
    ensures
        r == rfc3339_parse(s@),
{
    match crate::timestamp::parse_rfc3339(s) {
        Some(_) => Some(datetime(s)),
        None => None,
    }
}

} // verus!
