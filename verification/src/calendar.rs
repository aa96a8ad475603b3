//! Calendar dates, times of day and New York local time.
use chrono::{Datelike, Timelike};
use vstd::prelude::*;

verus! {

/// A date of the proleptic Gregorian calendar.
#[derive(Clone, Copy, Debug, PartialEq, Eq, Structural)]
pub struct CivilDate {
    pub year: i32,
    pub month: u32,
    pub day: u32,
}

/// A time of day, as seconds after midnight.
#[derive(Clone, Copy, Debug, PartialEq, Eq, Structural)]
pub struct TimeOfDay {
    pub secs: u32,
}

impl TimeOfDay {
    /// Hour, minute and second form a time (`NaiveTime::from_hms_opt`):
    /// hours below 24, minutes and seconds below 60.
    pub open spec fn hms_valid(h: u32, m: u32, s: u32) -> bool {
        h < 24 && m < 60 && s < 60
    }

    /// The time of day `h:m:s`, when valid.
    pub fn from_hms(h: u32, m: u32, s: u32) -> (r: Option<TimeOfDay>)
        ensures
            r is Some <==> Self::hms_valid(h, m, s),
            r matches Some(t) ==> t.secs == h * 3600 + m * 60 + s,
    {
        if h < 24 && m < 60 && s < 60 {
            Some(TimeOfDay { secs: h * 3600 + m * 60 + s })
        } else {
            None
        }
    }

    /// Midnight.
    pub fn midnight() -> (t: TimeOfDay)
        ensures
            t.secs == 0,
    {
        TimeOfDay { secs: 0 }
    }

    /// The time of day `total` seconds after some midnight (negative totals
    /// count back), as `rem_euclid(86400)` gives it.
    pub fn from_total_seconds(total: i64) -> (t: TimeOfDay)
        ensures
            t.secs as int == total as int % 86400,
    {
        let n = total % 86400;
        let n = if n < 0 {
            n + 86400
        } else {
            n
        };
        TimeOfDay { secs: n as u32 }
    }
}

/// The date that chrono reads from `s` in the format `%Y%m%d`.
pub uninterp spec fn parsed_ymd(s: Seq<char>) -> Option<CivilDate>;

/// Calls `NaiveDate::parse_from_str(s, "%Y%m%d")`; the date it gives (or
/// its failure) is named `parsed_ymd` of `s`; chrono's parsing rules are not
/// restated.
#[verifier::external_body]
pub(crate) fn parse_ymd(s: &str) -> (r: Option<CivilDate>)
    ensures
        r == parsed_ymd(s@),
{
    match chrono::NaiveDate::parse_from_str(s, "%Y%m%d") {
        Ok(d) => Some(CivilDate { year: d.year(), month: d.month(), day: d.day() }),
        Err(_) => None,
    }
}

/// The time of day that chrono reads from `s` in the format `%H:%M:%S`.
pub uninterp spec fn parsed_hms(s: Seq<char>) -> Option<TimeOfDay>;

/// Calls `NaiveTime::parse_from_str(s, "%H:%M:%S")`; the time it gives (or
/// its failure) is named `parsed_hms` of `s`.
#[verifier::external_body]
pub(crate) fn parse_hms(s: &str) -> (r: Option<TimeOfDay>)
    ensures
        r == parsed_hms(s@),
{
    match chrono::NaiveTime::parse_from_str(s, "%H:%M:%S") {
        Ok(t) => Some(TimeOfDay { secs: t.num_seconds_from_midnight() }),
        Err(_) => None,
    }
}

/// The unix time of a wall-clock date and time in New York, when that local
/// time exists and is not ambiguous.
pub uninterp spec fn ny_to_utc(d: CivilDate, secs: u32) -> Option<i64>;

/// Reads a date and time of day as New York local time (`chrono_tz`'s
/// `America/New_York`) and gives its unix time; the result is named
/// `ny_to_utc` of the arguments. Local times that do not exist or are
/// ambiguous, and invalid dates, give `None`.
#[verifier::external_body]
pub(crate) fn ny_local_to_utc(d: CivilDate, t: TimeOfDay) -> (r: Option<i64>)
    ensures
        r == ny_to_utc(d, t.secs),
{
    let date = match chrono::NaiveDate::from_ymd_opt(d.year, d.month, d.day) {
        Some(date) => date,
        None => return None,
    };
    let time = match chrono::NaiveTime::from_num_seconds_from_midnight_opt(t.secs, 0) {
        Some(time) => time,
        None => return None,
    };
    match date.and_time(time).and_local_timezone(chrono_tz::America::New_York).single() {
        Some(dt) => Some(dt.timestamp()),
        None => None,
    }
}

/// The New York wall-clock time of day at a unix time.
pub uninterp spec fn ny_time_of(utc: int) -> TimeOfDay;

/// The time of day in New York (`chrono_tz`'s `America/New_York`) at the
/// unix time `utc`; named `ny_time_of`.
#[verifier::external_body]
pub(crate) fn ny_time_of_day(utc: i64) -> (t: TimeOfDay)
    requires
        crate::clock::timestamp_in_range(utc as int),
    ensures
        t == ny_time_of(utc as int),
{
    let dt = chrono::DateTime::from_timestamp(utc, 0).unwrap_or_default();
    TimeOfDay { secs: dt.with_timezone(&chrono_tz::America::New_York).time().num_seconds_from_midnight() }
}

/// The New York calendar date at a unix time.
pub uninterp spec fn ny_date_of(utc: int) -> CivilDate;

/// The date in New York (`chrono_tz`'s `America/New_York`) at the unix time
/// `utc`; named `ny_date_of`. chrono's `date_naive` panics when the local
/// time leaves its range, so the instant must lie a full day inside that
/// range (New York's offsets are all under a day); the local date is then a
/// date that chrono represents.
#[verifier::external_body]
pub(crate) fn ny_date_of_day(utc: i64) -> (d: CivilDate)
    requires
        crate::clock::local_date_in_range(utc as int),
    ensures
        d == ny_date_of(utc as int),
        valid_date(d),
{
    let date = chrono::DateTime::from_timestamp(utc, 0).unwrap_or_default().with_timezone(
        &chrono_tz::America::New_York,
    ).date_naive();
    CivilDate { year: date.year(), month: date.month(), day: date.day() }
}

/// Whether `y` is a leap year of the Gregorian calendar.
pub open spec fn is_leap_year(y: int) -> bool {
    (y % 4 == 0 && y % 100 != 0) || y % 400 == 0
}

/// The number of days of month `m` of year `y`.
pub open spec fn days_in_month(y: int, m: int) -> int {
    if m == 2 {
        if is_leap_year(y) {
            29
        } else {
            28
        }
    } else if m == 4 || m == 6 || m == 9 || m == 11 {
        30
    } else {
        31
    }
}

/// The first year that chrono's `NaiveDate` represents.
pub open spec fn min_year() -> int {
    -262143
}

/// The last year that chrono's `NaiveDate` represents.
pub open spec fn max_year() -> int {
    262142
}

/// A date that chrono's `NaiveDate` represents.
pub open spec fn valid_date(d: CivilDate) -> bool {
    &&& min_year() <= d.year <= max_year()
    &&& 1 <= d.month <= 12
    &&& 1 <= d.day <= days_in_month(d.year as int, d.month as int)
}

/// The day after `d`.
pub open spec fn civil_succ(d: CivilDate) -> CivilDate {
    if (d.day as int) < days_in_month(d.year as int, d.month as int) {
        CivilDate { year: d.year, month: d.month, day: (d.day + 1) as u32 }
    } else if d.month < 12 {
        CivilDate { year: d.year, month: (d.month + 1) as u32, day: 1 }
    } else {
        CivilDate { year: (d.year + 1) as i32, month: 1, day: 1 }
    }
}

/// The day before `d`.
pub open spec fn civil_pred(d: CivilDate) -> CivilDate {
    if d.day > 1 {
        CivilDate { year: d.year, month: d.month, day: (d.day - 1) as u32 }
    } else if d.month > 1 {
        CivilDate {
            year: d.year,
            month: (d.month - 1) as u32,
            day: days_in_month(d.year as int, d.month - 1) as u32,
        }
    } else {
        CivilDate { year: (d.year - 1) as i32, month: 12, day: 31 }
    }
}

/// `NaiveDate::succ_opt`: the next calendar date, or `None` after the last
/// date chrono represents.
#[verifier::external_body]
pub(crate) fn next_day(d: CivilDate) -> (r: Option<CivilDate>)
    requires
        valid_date(d),
    ensures
        r == (if d.year == max_year() && d.month == 12 && d.day == 31 {
            None
        } else {
            Some(civil_succ(d))
        }),
{
    match chrono::NaiveDate::from_ymd_opt(d.year, d.month, d.day).and_then(|x| x.succ_opt()) {
        Some(n) => Some(CivilDate { year: n.year(), month: n.month(), day: n.day() }),
        None => None,
    }
}

/// `NaiveDate::pred_opt`: the previous calendar date, or `None` before the
/// first date chrono represents.
#[verifier::external_body]
pub(crate) fn prev_day(d: CivilDate) -> (r: Option<CivilDate>)
    requires
        valid_date(d),
    ensures
        r == (if d.year == min_year() && d.month == 1 && d.day == 1 {
            None
        } else {
            Some(civil_pred(d))
        }),
{
    match chrono::NaiveDate::from_ymd_opt(d.year, d.month, d.day).and_then(|x| x.pred_opt()) {
        Some(n) => Some(CivilDate { year: n.year(), month: n.month(), day: n.day() }),
        None => None,
    }
}

/// The date and time that chrono reads from `s` in the format
/// `%Y%m%d %H:%M:%S`.
pub uninterp spec fn parsed_ymd_hms(s: Seq<char>) -> Option<(CivilDate, TimeOfDay)>;

/// Calls `NaiveDateTime::parse_from_str(s, "%Y%m%d %H:%M:%S")`; the date and
/// time it gives (or its failure) are named `parsed_ymd_hms` of `s`.
#[verifier::external_body]
pub(crate) fn parse_ymd_hms(s: &str) -> (r: Option<(CivilDate, TimeOfDay)>)
    ensures
        r == parsed_ymd_hms(s@),
{
    match chrono::NaiveDateTime::parse_from_str(s, "%Y%m%d %H:%M:%S") {
        Ok(dt) => Some((
            CivilDate { year: dt.year(), month: dt.month(), day: dt.day() },
            TimeOfDay { secs: dt.time().num_seconds_from_midnight() },
        )),
        Err(_) => None,
    }
}

/// The `%Y%m%d` text that chrono writes for a date.
pub uninterp spec fn ymd_text_of(d: CivilDate) -> Seq<char>;

/// The two decimal digits of a number below 100.
pub open spec fn two_digit_text(n: int) -> Seq<char> {
    seq![crate::num::digit_char(n / 10), crate::num::digit_char(n % 10)]
}

/// Calls `NaiveDate::format("%Y%m%d")` and writes the text; it is named
/// `ymd_text_of` of the date. For years 1000 to 9999, which `%Y` writes as
/// four digits with neither padding nor sign, the text is the year, the
/// month and the day, the last two zero-padded to two digits.
#[verifier::external_body]
pub(crate) fn format_ymd(d: CivilDate) -> (r: String)
    requires
        valid_date(d),
    ensures
        r@ == ymd_text_of(d),
        1000 <= d.year <= 9999 ==> r@ == crate::num::decimal(d.year as int) + two_digit_text(d.month as int)
            + two_digit_text(d.day as int),
{
    match chrono::NaiveDate::from_ymd_opt(d.year, d.month, d.day) {
        Some(date) => date.format("%Y%m%d").to_string(),
        None => String::new(),
    }
}

/// Today's date in New York at the unix time `now`, as `%Y%m%d` text.
pub fn ny_date_text(now: i64) -> (r: String)
    requires
        crate::clock::local_date_in_range(now as int),
    ensures
        r@ == ymd_text_of(ny_date_of(now as int)),
{
    format_ymd(ny_date_of_day(now))
}

} // verus!
