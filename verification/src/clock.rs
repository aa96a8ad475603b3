//! Timestamps, the clock and fresh identifiers.
use vstd::prelude::*;

verus! {

/// The first unix second that chrono represents: 1 January of year -262143
/// (`NaiveDate::MIN`), 00:00:00 UTC.
pub open spec fn min_timestamp() -> int {
    -8334601315200
}

/// The last unix second that chrono represents: 31 December of year 262142
/// (`NaiveDate::MAX`), 23:59:59 UTC.
pub open spec fn max_timestamp() -> int {
    8210266876799
}

/// Whether `secs` seconds after the unix epoch lie within the dates that
/// `chrono` can represent.
pub open spec fn timestamp_in_range(secs: int) -> bool {
    min_timestamp() <= secs <= max_timestamp()
}

/// Whether the local date of the instant `secs` can be read in any time zone
/// whose offset is less than a day: the instant lies a full day inside
/// chrono's range.
pub open spec fn local_date_in_range(secs: int) -> bool {
    min_timestamp() + 86400 <= secs <= max_timestamp() - 86400
}

/// Whether the local date of the instant `secs` can be read (see
/// `local_date_in_range`).
pub fn local_date_readable(secs: i64) -> (b: bool)
    ensures
        b == local_date_in_range(secs as int),
{
    -8334601315200i64 + 86400 <= secs && secs <= 8210266876799i64 - 86400
}

/// Calls `chrono::DateTime::<Utc>::from_timestamp(secs, 0)` and reports
/// whether it gave a date: chrono gives one exactly for the seconds from
/// `min_timestamp` to `max_timestamp` (days within `NaiveDate::MIN` and
/// `NaiveDate::MAX`).
#[verifier::external_body]
pub(crate) fn timestamp_valid(secs: i64) -> (b: bool)
    ensures
        b == timestamp_in_range(secs as int),
{
    chrono::DateTime::from_timestamp(secs, 0).is_some()
}

/// A UTC instant in unix seconds, when chrono can represent it.
pub open spec fn utc_from_secs(secs: int) -> Option<i64> {
    if timestamp_in_range(secs) && i64::MIN <= secs <= i64::MAX {
        Some(secs as i64)
    } else {
        None
    }
}

/// `DateTime::from_timestamp(secs, 0)`, with the instant kept as unix seconds.
pub fn from_timestamp(secs: i64) -> (r: Option<i64>)
    ensures
        r == utc_from_secs(secs as int),
{
    if timestamp_valid(secs) {
        Some(secs)
    } else {
        None
    }
}

/// Calls `chrono::Utc::now()`: the current time in unix seconds. Nothing is
/// claimed of the value.
#[verifier::external_body]
pub(crate) fn now_unix() -> (t: i64) {
    chrono::Utc::now().timestamp()
}

/// Calls `uuid::Uuid::now_v7()`: a fresh time-ordered identifier, as its 128
/// bits. Nothing is claimed of the value.
#[verifier::external_body]
pub(crate) fn new_id() -> (id: u128) {
    uuid::Uuid::now_v7().as_u128()
}

} // verus!
