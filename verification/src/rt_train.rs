//! Subway trips and stop times of the MTA's GTFS-realtime feeds, as the
//! realtime store keeps them.
use vstd::prelude::*;

use crate::calendar::{ny_local_to_utc, ny_to_utc, parse_ymd_hms, parsed_ymd_hms, CivilDate, TimeOfDay};
use crate::num::{digit_char};
use crate::clock::{from_timestamp, new_id, utc_from_secs};
use crate::clock::timestamp_in_range;
use crate::feed::{StopTimeUpdate, TripDescriptor, VehiclePosition};
use crate::ids::{
    fake_stop_id, find_char, first_index, is_fake_stop_id, slice_chars, split_express,
    split_express_route_id,
};
use crate::num::{parse_i32, parse_int_spec};
use crate::realtime::{event_time, event_time_exec};
use crate::text::{str_chars, string_from_chars};

verus! {

/// Why a trip descriptor could not become a trip.
#[derive(Debug, Clone, PartialEq, Eq)]
pub enum IntoTripError {
    TripId,
    RouteId,
    NyctTripDescriptor(String),
    TrainId,
    Direction,
    StartTime(String),
    StartDate(String),
    StopId,
}

/// Why a stop time update could not become a stop time.
#[derive(Debug, Clone, Copy, PartialEq, Eq, Structural)]
pub enum IntoStopTimeError {
    StopId,
    Arrival,
    Departure,
    FakeStop,
    StopSequence,
}

/// Source-specific data of a stored trip.
#[derive(Debug, Clone, Copy, PartialEq, Eq, Structural)]
pub enum TripData {
    Train { express: bool, assigned: bool },
    Bus { start_date: CivilDate },
}

/// A stored trip; for trains, direction 1 is north and 0 south.
#[derive(Debug)]
pub struct Trip {
    pub id: u128,
    pub mta_id: String,
    pub vehicle_id: String,
    pub route_id: String,
    pub direction: Option<i16>,
    pub created_at: i64,
    pub deviation: Option<i32>,
    pub data: TripData,
}

/// A stored stop time; instants are unix seconds.
#[derive(Debug)]
pub struct StopTime {
    pub trip_id: u128,
    pub stop_id: String,
    pub arrival: i64,
    pub departure: i64,
}

/// A stop time update together with the trip it belongs to.
pub struct StopTimeUpdateWithTrip<'a, T> {
    pub stop_time: StopTimeUpdate,
    pub trip: &'a T,
}

/// The route id of a trip descriptor split into its base route and whether
/// it is the express variant.
pub open spec fn train_route_spec(d: TripDescriptor) -> Option<(Seq<char>, bool)> {
    match d.route_id {
        Some(id) => Some(split_express(id@)),
        None => None,
    }
}

impl TripDescriptor {
    /// `(route_id, express)` of a subway trip: `SS` becomes `SI`, and a
    /// trailing `X` is removed and marks the express variant; a descriptor
    /// without a route id gives `RouteId`.
    pub fn parse_train_route_id(&self) -> (r: Result<(String, bool), IntoTripError>)
        ensures
            match r {
                Ok(x) => train_route_spec(*self) == Some((x.0@, x.1)),
                Err(e) => train_route_spec(*self) is None && e == IntoTripError::RouteId,
            },
    {
        match &self.route_id {
            Some(id) => Ok(split_express_route_id(id.as_str())),
            None => Err(IntoTripError::RouteId),
        }
    }
}

/// A string without its last character (`String::pop`).
pub open spec fn pop_last(s: Seq<char>) -> Seq<char> {
    if s.len() > 0 {
        s.drop_last()
    } else {
        s
    }
}

/// The stop time of an update, or why there is none: the stop id loses its
/// direction letter and must not name a non-existent stop; the arrival falls
/// back to the departure and the departure to the arrival, and both must be
/// representable instants.
pub open spec fn stop_time_spec(st: StopTimeUpdate) -> Result<(Seq<char>, i64, i64), IntoStopTimeError> {
    match st.stop_id {
        None => Err(IntoStopTimeError::StopId),
        Some(id) => {
            let stop = pop_last(id@);
            if is_fake_stop_id(stop) {
                Err(IntoStopTimeError::FakeStop)
            } else {
                match event_time(st.arrival, st.departure) {
                    None => Err(IntoStopTimeError::Arrival),
                    Some(a) => match event_time(st.departure, st.arrival) {
                        None => Err(IntoStopTimeError::Departure),
                        Some(d) => match utc_from_secs(a as int) {
                            None => Err(IntoStopTimeError::Arrival),
                            Some(a) => match utc_from_secs(d as int) {
                                None => Err(IntoStopTimeError::Departure),
                                Some(d) => Ok((stop, a, d)),
                            },
                        },
                    },
                }
            }
        },
    }
}

/// The stop time of a stop time update of a trip (see `stop_time_spec`).
pub fn stop_time_from_update(value: StopTimeUpdateWithTrip<Trip>) -> (r: Result<StopTime, IntoStopTimeError>)
    ensures
        match r {
            Ok(s) => stop_time_spec(value.stop_time) == Ok::<(Seq<char>, i64, i64), IntoStopTimeError>(
                (s.stop_id@, s.arrival, s.departure),
            ) && s.trip_id == value.trip.id,
            Err(e) => stop_time_spec(value.stop_time) == Err::<(Seq<char>, i64, i64), IntoStopTimeError>(e),
        },
{
    let st = &value.stop_time;
    let id = match &st.stop_id {
        Some(id) => id,
        None => return Err(IntoStopTimeError::StopId),
    };
    let mut chars = str_chars(id.as_str());
    if chars.len() > 0 {
        chars.pop();
    }
    assert(chars@ == pop_last(id@));
    if fake_stop_id(&chars) {
        return Err(IntoStopTimeError::FakeStop);
    }
    let arrival = match event_time_exec(&st.arrival, &st.departure) {
        Some(a) => a,
        None => return Err(IntoStopTimeError::Arrival),
    };
    let departure = match event_time_exec(&st.departure, &st.arrival) {
        Some(d) => d,
        None => return Err(IntoStopTimeError::Departure),
    };
    let arrival = match from_timestamp(arrival) {
        Some(a) => a,
        None => return Err(IntoStopTimeError::Arrival),
    };
    let departure = match from_timestamp(departure) {
        Some(d) => d,
        None => return Err(IntoStopTimeError::Departure),
    };
    Ok(StopTime { trip_id: value.trip.id, stop_id: string_from_chars(chars.as_slice()), arrival, departure })
}

/// The number a trip id carries for its origin, in minutes after midnight:
/// the text before its first `_`, read as an `i32` (in hundredths of a
/// minute), divided by 100 toward zero, and moved by one day into the day
/// when above 1440 or below zero. Nothing when there is no `_` or the text
/// is not an `i32`.
pub open spec fn origin_minutes(trip_id: Seq<char>) -> Option<int> {
    let k = first_index(trip_id, '_');
    if k >= trip_id.len() {
        None
    } else {
        match parse_int_spec(trip_id.subrange(0, k), true, i32::MIN as int, i32::MAX as int) {
            None => None,
            Some(v) => {
                let o = if v >= 0 {
                    v / 100
                } else {
                    -((-v) / 100)
                };
                Some(
                    if o > 1440 {
                        o - 1440
                    } else if o < 0 {
                        o + 1440
                    } else {
                        o
                    },
                )
            },
        }
    }
}

/// Two decimal digits of a number below 100.
pub open spec fn two_digits(n: int) -> Seq<char> {
    seq![digit_char(n / 10), digit_char(n % 10)]
}

/// The `HH:MM:SS` text of an origin time, when it is a time of day.
pub open spec fn origin_time_text(o: int) -> Option<Seq<char>> {
    if 0 <= o < 1440 {
        Some(two_digits(o / 60) + seq![':'] + two_digits(o % 60) + seq![':', '0', '0'])
    } else {
        None
    }
}

/// The start time text of a trip: the descriptor's, else the one its id's
/// origin gives; `None` when neither gives one.
pub open spec fn start_time_text(d: TripDescriptor) -> Option<Seq<char>> {
    match d.start_time {
        Some(t) => Some(t@),
        None => match d.trip_id {
            Some(id) => match origin_minutes(id@) {
                Some(o) => origin_time_text(o),
                None => None,
            },
            None => None,
        },
    }
}

/// The fields a trip needs before its start are all there.
pub open spec fn has_trip_fields(d: TripDescriptor) -> bool {
    &&& d.trip_id is Some
    &&& d.route_id is Some
    &&& d.nyct_trip_descriptor matches Some(n) && n.train_id is Some
}

/// The text read as the start of a trip: start date, a space, start time.
pub open spec fn start_text(d: TripDescriptor) -> Seq<char> {
    d.start_date.unwrap()@ + seq![' '] + start_time_text(d).unwrap()
}

/// The inputs on which converting a trip descriptor does not stop the
/// program: a direction that is north, south or absent; an origin in the id
/// when there is no start time; and a start that chrono reads and that is
/// one New York local time.
pub open spec fn train_trip_defined(d: TripDescriptor) -> bool {
    &&& has_trip_fields(d) ==> match d.nyct_trip_descriptor.unwrap().direction {
        Some(x) => x == 1 || x == 3,
        None => true,
    }
    &&& (has_trip_fields(d) && d.start_date is Some && d.start_time is None) ==> origin_minutes(
        d.trip_id.unwrap()@,
    ) is Some
    &&& (has_trip_fields(d) && d.start_date is Some && start_time_text(d) is Some) ==> {
        &&& parsed_ymd_hms(start_text(d)) is Some
        &&& ny_to_utc(parsed_ymd_hms(start_text(d)).unwrap().0, parsed_ymd_hms(start_text(d)).unwrap().1.secs)
            is Some
    }
}

/// The direction of a trip descriptor: north is 1 and south 0.
pub open spec fn descriptor_direction(d: TripDescriptor) -> Option<i16> {
    match d.nyct_trip_descriptor.unwrap().direction {
        Some(1i32) => Some(1i16),
        Some(_) => Some(0i16),
        None => None,
    }
}

/// The stored trip of a trip descriptor is built from it, whatever its
/// direction: it starts at the start date and time, New York time.
pub open spec fn train_trip_fields_match(t: Trip, d: TripDescriptor, id: u128) -> bool {
    let n = d.nyct_trip_descriptor.unwrap();
    let p = parsed_ymd_hms(start_text(d)).unwrap();
    &&& t.id == id
    &&& t.mta_id@ == d.trip_id.unwrap()@
    &&& t.vehicle_id@ == n.train_id.unwrap()@
    &&& t.route_id@ == split_express(d.route_id.unwrap()@).0
    &&& Some(t.created_at) == ny_to_utc(p.0, p.1.secs)
    &&& t.deviation is None
    &&& t.data == TripData::Train {
        express: split_express(d.route_id.unwrap()@).1,
        assigned: match n.is_assigned {
            Some(b) => b,
            None => false,
        },
    }
}

/// The stored trip of a trip descriptor is built from it, with the
/// descriptor's direction (see `descriptor_direction`).
pub open spec fn train_trip_matches(t: Trip, d: TripDescriptor, id: u128) -> bool {
    &&& train_trip_fields_match(t, d, id)
    &&& t.direction == descriptor_direction(d)
}

/// Formats a trip descriptor with `{:#?}` for an error message; the text is
/// not described.
#[verifier::external_body]
fn describe_trip(d: &TripDescriptor) -> String {
    format!("{:#?}", d)
}

/// The origin minutes of a trip id (see `origin_minutes`).
fn origin_minutes_exec(trip_id: &String) -> (r: Option<i32>)
    ensures
        match r {
            Some(o) => origin_minutes(trip_id@) == Some(o as int),
            None => origin_minutes(trip_id@) is None,
        },
{
    let chars = str_chars(trip_id.as_str());
    let k = find_char(&chars, '_');
    if k >= chars.len() {
        return None;
    }
    let prefix = slice_chars(&chars, 0, k);
    match parse_i32(&prefix) {
        None => None,
        Some(v) => {
            let o: i32 = v / 100;
            let o = if o > 1440 {
                o - 1440
            } else if o < 0 {
                o + 1440
            } else {
                o
            };
            Some(o)
        },
    }
}

fn digit(n: u32) -> (c: char)
    requires
        n < 10,
    ensures
        c == digit_char(n as int),
{
    let cs = ['0', '1', '2', '3', '4', '5', '6', '7', '8', '9'];
    assert(cs@ =~= seq!['0', '1', '2', '3', '4', '5', '6', '7', '8', '9']);
    cs[n as usize]
}

/// The `HH:MM:SS` text of an origin time (see `origin_time_text`).
pub(crate) fn origin_time_text_exec(o: i32) -> (r: Option<String>)
    ensures
        match r {
            Some(t) => origin_time_text(o as int) == Some(t@),
            None => origin_time_text(o as int) is None,
        },
{
    if o < 0 || o >= 1440 {
        return None;
    }
    let h = (o / 60) as u32;
    let m = (o % 60) as u32;
    let v = [digit(h / 10), digit(h % 10), ':', digit(m / 10), digit(m % 10), ':', '0', '0'];
    assert(v@ =~= two_digits(o as int / 60) + seq![':'] + two_digits(o as int % 60) + seq![':', '0', '0']);
    Some(string_from_chars(&v))
}

/// The start time text of a trip (see `start_time_text`).
fn start_time_text_exec(d: &TripDescriptor) -> (r: Option<String>)
    ensures
        match r {
            Some(t) => start_time_text(*d) == Some(t@),
            None => start_time_text(*d) is None,
        },
{
    match &d.start_time {
        Some(t) => Some(t.clone()),
        None => match &d.trip_id {
            Some(id) => match origin_minutes_exec(id) {
                Some(o) => origin_time_text_exec(o),
                None => None,
            },
            None => None,
        },
    }
}

/// The trip of a descriptor with id `id`, or the first thing missing: trip
/// id, route id, the MTA's extension, train id, start date, then a start
/// time (`RouteId` when the origin in the id is not a time of day).
pub open spec fn train_trip_result(r: Result<Trip, IntoTripError>, d: TripDescriptor, id: u128) -> bool {
    match r {
        Ok(t) => {
            &&& has_trip_fields(d)
            &&& d.start_date is Some
            &&& start_time_text(d) is Some
            &&& train_trip_matches(t, d, id)
        },
        Err(e) => {
            &&& d.trip_id is None ==> e == IntoTripError::TripId
            &&& (d.trip_id is Some && d.route_id is None) ==> e == IntoTripError::RouteId
            &&& (d.trip_id is Some && d.route_id is Some && d.nyct_trip_descriptor is None) ==> e is NyctTripDescriptor
            &&& (d.trip_id is Some && d.route_id is Some && d.nyct_trip_descriptor is Some
                && d.nyct_trip_descriptor.unwrap().train_id is None) ==> e == IntoTripError::TrainId
            &&& (has_trip_fields(d) && d.start_date is None) ==> e is StartDate
            &&& (has_trip_fields(d) && d.start_date is Some) ==> (start_time_text(d) is None && e
                == IntoTripError::RouteId)
        },
    }
}

/// The stored trip of a subway trip descriptor with id `id`, or why there
/// is none; checked in order: trip id, route id, the MTA's extension, train
/// id, start date, then a start time (`RouteId` when the origin in the id is
/// not a time of day).
pub fn train_trip_from_descriptor(d: TripDescriptor, id: u128) -> (r: Result<Trip, IntoTripError>)
    requires
        train_trip_defined(d),
    ensures
        train_trip_result(r, d, id),
{
    let trip_id = match &d.trip_id {
        Some(t) => t,
        None => return Err(IntoTripError::TripId),
    };
    let (route_id, express) = match d.parse_train_route_id() {
        Ok(x) => x,
        Err(e) => return Err(e),
    };
    let nyct = match &d.nyct_trip_descriptor {
        Some(n) => n,
        None => return Err(IntoTripError::NyctTripDescriptor(describe_trip(&d))),
    };
    let train_id = match &nyct.train_id {
        Some(t) => t,
        None => return Err(IntoTripError::TrainId),
    };
    let assigned = match nyct.is_assigned {
        Some(b) => b,
        None => false,
    };
    let direction: Option<i16> = match nyct.direction {
        Some(1) => Some(1),
        Some(_) => Some(0),
        None => None,
    };
    let start_date = match &d.start_date {
        Some(s) => s,
        None => return Err(IntoTripError::StartDate(describe_trip(&d))),
    };
    let start_time = match start_time_text_exec(&d) {
        Some(t) => t,
        None => return Err(IntoTripError::RouteId),
    };
    let mut text = str_chars(start_date.as_str());
    text.push(' ');
    let tc = str_chars(start_time.as_str());
    let ghost base = text@;
    let mut i: usize = 0;
    while i < tc.len()
        invariant
            i <= tc@.len(),
            text@ == base + tc@.subrange(0, i as int),
        decreases tc.len() - i,
    {
        text.push(tc[i]);
        i = i + 1;
        assert(text@ =~= base + tc@.subrange(0, i as int));
    }
    assert(tc@.subrange(0, tc@.len() as int) =~= tc@);
    assert(text@ =~= start_text(d));
    let text = string_from_chars(text.as_slice());
    let (date, time) = match parse_ymd_hms(text.as_str()) {
        Some(x) => x,
        None => return Err(IntoTripError::StartTime(describe_trip(&d))),
    };
    let created_at = match ny_local_to_utc(date, time) {
        Some(t) => t,
        None => return Err(IntoTripError::StartTime(describe_trip(&d))),
    };
    Ok(
        Trip {
            id,
            mta_id: trip_id.clone(),
            vehicle_id: train_id.clone(),
            route_id,
            direction,
            created_at,
            deviation: None,
            data: TripData::Train { express, assigned },
        },
    )
}

/// Whether converting a trip descriptor is defined (see
/// `train_trip_defined`).
pub fn train_trip_defined_exec(d: &TripDescriptor) -> (b: bool)
    ensures
        b == train_trip_defined(*d),
{
    let fields = match (&d.trip_id, &d.route_id, &d.nyct_trip_descriptor) {
        (Some(_), Some(_), Some(n)) => n.train_id.is_some(),
        _ => false,
    };
    assert(fields == has_trip_fields(*d));
    if fields {
        let n = d.nyct_trip_descriptor.as_ref().unwrap();
        match n.direction {
            None | Some(1) | Some(3) => {},
            Some(_) => return false,
        }
        if d.start_date.is_some() {
            if d.start_time.is_none() {
                let tid = d.trip_id.as_ref().unwrap();
                if origin_minutes_exec(tid).is_none() {
                    return false;
                }
            }
            match start_time_text_exec(d) {
                Some(t) => {
                    let mut text = str_chars(d.start_date.as_ref().unwrap().as_str());
                    text.push(' ');
                    let tc = str_chars(t.as_str());
                    let ghost base = text@;
                    let mut i: usize = 0;
                    while i < tc.len()
                        invariant
                            i <= tc@.len(),
                            text@ == base + tc@.subrange(0, i as int),
                        decreases tc.len() - i,
                    {
                        text.push(tc[i]);
                        i = i + 1;
                        assert(text@ =~= base + tc@.subrange(0, i as int));
                    }
                    assert(tc@.subrange(0, tc@.len() as int) =~= tc@);
                    assert(text@ =~= start_text(*d));
                    let text = string_from_chars(text.as_slice());
                    match parse_ymd_hms(text.as_str()) {
                        Some((date, time)) => {
                            if ny_local_to_utc(date, time).is_none() {
                                return false;
                            }
                        },
                        None => return false,
                    }
                },
                None => {},
            }
        }
    }
    true
}

/// The stored trip of a subway trip descriptor with a fresh id (see
/// `train_trip_from_descriptor`); `None` for the descriptors on which the
/// conversion is not defined (`train_trip_defined`). The id is the outside
/// world's.
pub fn try_train_trip(d: TripDescriptor) -> (r: Option<Result<Trip, IntoTripError>>)
    ensures
        r is Some <==> train_trip_defined(d),
        r matches Some(x) ==> exists|id: u128| #[trigger] train_trip_result(x, d, id),
{
    if !train_trip_defined_exec(&d) {
        return None;
    }
    let id = new_id();
    let ghost dv = d;
    let x = train_trip_from_descriptor(d, id);
    assert(train_trip_result(x, dv, id));
    Some(x)
}

/// The direction of a stop time update from its stop id's last letter:
/// `N` is north (1) and `S` south (0).
pub fn update_direction(st: &StopTimeUpdate) -> (r: Option<i16>)
    requires
        st.stop_id matches Some(id) && id@.len() > 0 && (id@.last() == 'N' || id@.last() == 'S'),
    ensures
        r == Some(if st.stop_id.unwrap()@.last() == 'N' {
            1i16
        } else {
            0i16
        }),
{
    let id = st.stop_id.as_ref().unwrap();
    let chars = str_chars(id.as_str());
    if chars[chars.len() - 1] == 'N' {
        Some(1)
    } else {
        Some(0)
    }
}

/// The stop time of an update when its trip started at `created_at`: the
/// stop id loses its direction letter and must not name a non-existent stop;
/// a missing arrival is the trip's start and a missing departure the
/// arrival; a present time that is not a representable instant, or a
/// missing stop id, gives nothing.
pub open spec fn scheduled_stop_time(st: StopTimeUpdate, created_at: i64) -> Option<(Seq<char>, i64, i64)> {
    match st.stop_id {
        None => None,
        Some(id) => {
            let stop = pop_last(id@);
            if is_fake_stop_id(stop) {
                None
            } else {
                let arrival = match st.arrival {
                    Some(a) => match a.time {
                        Some(t) => utc_from_secs(t as int),
                        None => None,
                    },
                    None => Some(created_at),
                };
                match arrival {
                    None => None,
                    Some(a) => {
                        let departure = match st.departure {
                            Some(d) => match d.time {
                                Some(t) => utc_from_secs(t as int),
                                None => None,
                            },
                            None => Some(a),
                        };
                        match departure {
                            None => None,
                            Some(d) => Some((stop, a, d)),
                        }
                    },
                }
            }
        },
    }
}

fn event_instant(e: &Option<crate::feed::StopTimeEvent>, fallback: i64) -> (r: Option<i64>)
    ensures
        r == match *e {
            Some(a) => match a.time {
                Some(t) => utc_from_secs(t as int),
                None => None,
            },
            None => Some(fallback),
        },
{
    match e {
        Some(a) => match a.time {
            Some(t) => from_timestamp(t),
            None => None,
        },
        None => Some(fallback),
    }
}

/// The stop time of an update of a trip (see `scheduled_stop_time`).
pub fn scheduled_stop_time_of(st: &StopTimeUpdate, trip: &Trip) -> (r: Option<StopTime>)
    ensures
        match r {
            Some(s) => scheduled_stop_time(*st, trip.created_at) == Some((s.stop_id@, s.arrival, s.departure))
                && s.trip_id == trip.id,
            None => scheduled_stop_time(*st, trip.created_at) is None,
        },
{
    let id = match &st.stop_id {
        Some(id) => id,
        None => return None,
    };
    let mut chars = str_chars(id.as_str());
    if chars.len() > 0 {
        chars.pop();
    }
    assert(chars@ == pop_last(id@));
    if fake_stop_id(&chars) {
        return None;
    }
    let arrival = match event_instant(&st.arrival, trip.created_at) {
        Some(a) => a,
        None => return None,
    };
    let departure = match event_instant(&st.departure, arrival) {
        Some(d) => d,
        None => return None,
    };
    Some(StopTime { trip_id: trip.id, stop_id: string_from_chars(chars.as_slice()), arrival, departure })
}

/// A trip descriptor converts to a trip (see `train_trip_from_descriptor`).
pub open spec fn train_trip_converts(d: TripDescriptor) -> bool {
    &&& has_trip_fields(d)
    &&& d.start_date is Some
    &&& start_time_text(d) is Some
}

/// A stop id ends with a direction letter.
pub open spec fn has_direction_letter(id: Seq<char>) -> bool {
    id.len() > 0 && (id.last() == 'N' || id.last() == 'S')
}

/// The direction a stop id's last letter gives: `N` is north (1), any other
/// south (0).
pub open spec fn letter_direction(id: Seq<char>) -> i16 {
    if id.last() == 'N' {
        1
    } else {
        0
    }
}

/// The inputs on which keeping the trip of a trip update does not stop the
/// program: the descriptor converts safely, and when the trip has no
/// direction, the first stop time update's stop id carries one.
pub open spec fn update_trip_defined(d: TripDescriptor, sts: Seq<StopTimeUpdate>) -> bool {
    &&& train_trip_defined(d)
    &&& (train_trip_converts(d) && descriptor_direction(d) is None && sts.len() > 0) ==> (
    sts[0].stop_id matches Some(id) && has_direction_letter(id@))
}

/// The trip kept of a trip update: some exactly when the descriptor
/// converts and a direction is known, either the descriptor's or the first
/// stop time update's.
pub open spec fn update_trip_result(r: Option<Trip>, d: TripDescriptor, sts: Seq<StopTimeUpdate>, id: u128) -> bool {
    &&& (r is Some <==> (train_trip_converts(d) && (descriptor_direction(d) is Some || sts.len() > 0)))
    &&& r matches Some(t) ==> {
        &&& train_trip_fields_match(t, d, id)
        &&& t.direction == match descriptor_direction(d) {
            Some(x) => Some(x),
            None => Some(letter_direction(sts[0].stop_id.unwrap()@)),
        }
    }
}

/// The trip of a trip update, as the feed decoder keeps it: the trip of its
/// descriptor (with id `id`), whose missing direction is read from the first
/// stop time update's stop id. None when the descriptor does not convert, or
/// when a trip without direction has no stop time update.
pub fn trip_of_update(d: TripDescriptor, sts: &Vec<StopTimeUpdate>, id: u128) -> (r: Option<Trip>)
    requires
        update_trip_defined(d, sts@),
    ensures
        update_trip_result(r, d, sts@, id),
{
    let mut trip = match train_trip_from_descriptor(d, id) {
        Ok(t) => t,
        Err(_) => return None,
    };
    if trip.direction.is_none() {
        if sts.len() == 0 {
            return None;
        }
        trip.direction = update_direction(&sts[0]);
    }
    Some(trip)
}

/// The stop times kept from a trip's stop time updates, in order (see
/// `scheduled_stop_time`).
pub open spec fn scheduled_stop_times(sts: Seq<StopTimeUpdate>, created_at: i64) -> Seq<(Seq<char>, i64, i64)>
    decreases sts.len(),
{
    if sts.len() == 0 {
        Seq::empty()
    } else {
        let prev = scheduled_stop_times(sts.drop_last(), created_at);
        match scheduled_stop_time(sts.last(), created_at) {
            Some(x) => prev.push(x),
            None => prev,
        }
    }
}

/// The stop times of a trip's stop time updates (see
/// `scheduled_stop_times`), under the trip's id.
pub fn update_stop_times(sts: &Vec<StopTimeUpdate>, trip: &Trip) -> (r: Vec<StopTime>)
    ensures
        r@.len() == scheduled_stop_times(sts@, trip.created_at).len(),
        forall|i: int|
            0 <= i < r@.len() ==> (#[trigger] r@[i]).trip_id == trip.id && (r@[i].stop_id@, r@[i].arrival, r@[i].departure)
                == scheduled_stop_times(sts@, trip.created_at)[i],
{
    let mut out: Vec<StopTime> = Vec::new();
    let mut i: usize = 0;
    while i < sts.len()
        invariant
            i <= sts@.len(),
            out@.len() == scheduled_stop_times(sts@.subrange(0, i as int), trip.created_at).len(),
            forall|j: int|
                0 <= j < out@.len() ==> (#[trigger] out@[j]).trip_id == trip.id && (out@[j].stop_id@, out@[j].arrival, out@[j].departure)
                    == scheduled_stop_times(sts@.subrange(0, i as int), trip.created_at)[j],
        decreases sts.len() - i,
    {
        let ghost pre = sts@.subrange(0, i as int);
        let ghost cur = sts@.subrange(0, i + 1);
        assert(cur.drop_last() =~= pre);
        let ghost o0 = out@;
        match scheduled_stop_time_of(&sts[i], trip) {
            Some(st) => {
                out.push(st);
                assert forall|j: int| 0 <= j < out@.len() implies (#[trigger] out@[j]).trip_id == trip.id && (
                out@[j].stop_id@, out@[j].arrival, out@[j].departure) == scheduled_stop_times(cur, trip.created_at)[j] by {
                    if j < o0.len() {
                        assert(out@[j] == o0[j]);
                    }
                }
            },
            None => {},
        }
        i = i + 1;
    }
    assert(sts@.subrange(0, i as int) =~= sts@);
    out
}

/// A train's position as stored.
#[derive(Debug)]
pub struct TrainPosition {
    pub trip_id: u128,
    pub stop_id: String,
    pub train_status: Option<i16>,
    pub current_stop_sequence: Option<i16>,
    pub updated_at: i64,
}

/// The inputs on which reading a vehicle position does not stop the
/// program: once it has a trip and a time, the time is a representable
/// instant and the trip converts safely; and when the trip has no direction,
/// the stop id carries one.
pub open spec fn vehicle_defined(v: VehiclePosition) -> bool {
    match v.trip {
        None => true,
        Some(d) => match v.timestamp {
            None => true,
            Some(t) => {
                &&& timestamp_in_range((t as i64) as int)
                &&& train_trip_defined(d)
                &&& (train_trip_converts(d) && descriptor_direction(d) is None && v.stop_id is Some
                    && !is_fake_stop_id(pop_last(v.stop_id.unwrap()@))) ==> has_direction_letter(
                    v.stop_id.unwrap()@,
                )
            },
        },
    }
}

/// A vehicle position names a trip and stop that are kept: it has a trip
/// that converts, a time and a stop that exists.
pub open spec fn vehicle_kept(v: VehiclePosition) -> bool {
    &&& v.trip matches Some(d) && train_trip_converts(d)
    &&& v.timestamp is Some
    &&& v.stop_id matches Some(s) && !is_fake_stop_id(pop_last(s@))
}

/// The trip and position kept of a vehicle position: some exactly when it
/// is kept (`vehicle_kept`); the trip's missing direction comes from the
/// stop id's letter, and the stop loses that letter.
pub open spec fn vehicle_result(r: Option<(Trip, TrainPosition)>, v: VehiclePosition, id: u128) -> bool {
    &&& (r is Some <==> vehicle_kept(v))
    &&& r matches Some((t, p)) ==> {
        let d = v.trip.unwrap();
        let stop = v.stop_id.unwrap()@;
        &&& train_trip_fields_match(t, d, id)
        &&& t.direction == match descriptor_direction(d) {
            Some(x) => Some(x),
            None => Some(letter_direction(stop)),
        }
        &&& p.trip_id == id
        &&& p.stop_id@ == pop_last(stop)
        &&& p.train_status == match v.current_status {
            Some(s) => Some(s as i16),
            None => None,
        }
        &&& p.current_stop_sequence == match v.current_stop_sequence {
            Some(s) => Some(s as i16),
            None => None,
        }
        &&& p.updated_at == v.timestamp.unwrap() as i64
    }
}

/// The trip and position of a vehicle position, as the feed decoder keeps
/// them: the trip of its descriptor (with id `id`), whose missing direction
/// is read from the stop id's last letter, and the stop without that letter.
pub fn vehicle_trip_position(v: VehiclePosition, id: u128) -> (r: Option<(Trip, TrainPosition)>)
    requires
        vehicle_defined(v),
    ensures
        vehicle_result(r, v, id),
{
    let VehiclePosition { trip, current_status, current_stop_sequence, timestamp, stop_id } = v;
    let d = match trip {
        Some(d) => d,
        None => return None,
    };
    let train_status: Option<i16> = match current_status {
        Some(s) => Some(s as i16),
        None => None,
    };
    let sequence: Option<i16> = match current_stop_sequence {
        Some(s) => Some(s as i16),
        None => None,
    };
    let updated_at = match timestamp {
        Some(t) => {
            let secs = t as i64;
            from_timestamp(secs).unwrap()
        },
        None => return None,
    };
    let mut t = match train_trip_from_descriptor(d, id) {
        Ok(t) => t,
        Err(_) => return None,
    };
    let stop = match stop_id {
        Some(s) => s,
        None => return None,
    };
    let mut chars = str_chars(stop.as_str());
    let letter = chars.pop();
    assert(chars@ == pop_last(stop@));
    if fake_stop_id(&chars) {
        return None;
    }
    if t.direction.is_none() {
        t.direction = match letter {
            Some('N') => Some(1),
            _ => Some(0),
        };
    }
    let position = TrainPosition {
        trip_id: id,
        stop_id: string_from_chars(chars.as_slice()),
        train_status,
        current_stop_sequence: sequence,
        updated_at,
    };
    Some((t, position))
}

/// The trip of a trip update (see `trip_of_update`), or `None` when the
/// update is one on which keeping its trip is not defined
/// (`update_trip_defined`).
pub fn try_trip_of_update(d: TripDescriptor, sts: &Vec<StopTimeUpdate>, id: u128) -> (r: Option<Option<Trip>>)
    ensures
        r is Some <==> update_trip_defined(d, sts@),
        r matches Some(x) ==> update_trip_result(x, d, sts@, id),
{
    if !train_trip_defined_exec(&d) {
        return None;
    }
    let converts = match &d.nyct_trip_descriptor {
        Some(n) => d.trip_id.is_some() && d.route_id.is_some() && n.train_id.is_some() && d.start_date.is_some()
            && start_time_text_exec(&d).is_some(),
        None => false,
    };
    assert(converts == train_trip_converts(d));
    if converts && d.nyct_trip_descriptor.as_ref().unwrap().direction.is_none() && sts.len() > 0 {
        let ok = match &sts[0].stop_id {
            Some(id) => {
                let c = str_chars(id.as_str());
                c.len() > 0 && (c[c.len() - 1] == 'N' || c[c.len() - 1] == 'S')
            },
            None => false,
        };
        if !ok {
            return None;
        }
    }
    Some(trip_of_update(d, sts, id))
}

/// The trip and position of a vehicle position (see
/// `vehicle_trip_position`), or `None` when it is one on which reading it is
/// not defined (`vehicle_defined`).
pub fn try_vehicle_trip_position(v: VehiclePosition, id: u128) -> (r: Option<Option<(Trip, TrainPosition)>>)
    ensures
        r is Some <==> vehicle_defined(v),
        r matches Some(x) ==> vehicle_result(x, v, id),
{
    let defined = match (&v.trip, v.timestamp) {
        (Some(d), Some(t)) => {
            if !crate::clock::timestamp_valid(t as i64) || !train_trip_defined_exec(d) {
                false
            } else {
                let converts = match &d.nyct_trip_descriptor {
                    Some(n) => d.trip_id.is_some() && d.route_id.is_some() && n.train_id.is_some()
                        && d.start_date.is_some() && start_time_text_exec(d).is_some(),
                    None => false,
                };
                assert(converts == train_trip_converts(*d));
                if converts && d.nyct_trip_descriptor.as_ref().unwrap().direction.is_none() {
                    match &v.stop_id {
                        Some(s) => {
                            let mut c = str_chars(s.as_str());
                            let full = c.len() > 0 && (c[c.len() - 1] == 'N' || c[c.len() - 1] == 'S');
                            if c.len() > 0 {
                                c.pop();
                            }
                            assert(c@ == pop_last(s@));
                            fake_stop_id(&c) || full
                        },
                        None => true,
                    }
                } else {
                    true
                }
            }
        },
        _ => true,
    };
    if !defined {
        return None;
    }
    Some(vehicle_trip_position(v, id))
}

} // verus!
