//! Values of the realtime data store: vehicle statuses, trip directions and
//! the ways a stop time update can fail to convert.
use vstd::prelude::*;

use crate::clock::{now_unix, utc_from_secs, from_timestamp};

verus! {

/// Where a vehicle is relative to a stop.
#[derive(Debug, Clone, Copy, PartialEq, Eq, Structural)]
pub enum Status {
    Incoming,
    AtStop,
    InTransitTo,
    Spooking,
}

/// The direction of a subway trip.
#[derive(Debug, Clone, Copy, PartialEq, Eq, Structural)]
pub enum Direction {
    Northbound,
    Southbound,
}

/// Source-specific data of a stored trip.
#[derive(Debug, Clone)]
#[allow(inconsistent_fields)]
pub enum Data {
    Train { id: String, assigned: bool, express: bool },
    Bus { id: i32, deviation: i16 },
}

/// Why a stop time update could not be stored.
#[derive(Debug, Clone, Copy, PartialEq, Eq, Structural)]
pub enum IntoStopTimeError {
    StopId,
    Arrival,
    Departure,
    FakeStop,
}

/// Why a realtime trip-times import failed.
#[derive(Debug, Clone, PartialEq, Eq)]
pub enum ImportTimesError {
    /// A field that the import needs is not in the entity.
    MissingValue(String),
}

/// The query parameters of an API request: `at` asks for the data as it was
/// at that unix time.
#[derive(Debug, Clone, Copy, PartialEq, Eq, Structural)]
pub struct QueryParams {
    pub at: Option<i64>,
}

/// The time a request is answered for: the requested instant when it is a
/// representable one, else `now`.
pub open spec fn requested_time(params: QueryParams, now: i64) -> i64 {
    match params.at {
        Some(at) => match utc_from_secs(at as int) {
            Some(t) => t,
            None => now,
        },
        None => now,
    }
}

/// The time a request is answered for (see `requested_time`), given the
/// current time.
pub fn resolve_current_time(params: &QueryParams, now: i64) -> (t: i64)
    ensures
        t == requested_time(*params, now),
{
    match params.at {
        Some(at) => match from_timestamp(at) {
            Some(t) => t,
            None => now,
        },
        None => now,
    }
}

/// The time a request is answered for, read now: the requested instant when
/// it is representable; otherwise the clock's time, of which nothing is
/// claimed.
pub fn current_time(params: &QueryParams) -> (t: i64)
    ensures
        match params.at {
            Some(at) => utc_from_secs(at as int) is Some ==> t == at,
            None => true,
        },
        exists|now: i64| t == #[trigger] requested_time(*params, now),
{
    let now = now_unix();
    let t = resolve_current_time(params, now);
    assert(t == requested_time(*params, now));
    t
}

} // verus!
