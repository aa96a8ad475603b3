//! Trips and stop times of the trip-times import of the subway feeds,
//! which names each trip by a UUID made from its start, id, route and
//! direction, so that every refresh finds the same trip again.
use vstd::prelude::*;

use crate::calendar::{ny_local_to_utc, ny_to_utc, parse_ymd_hms, parsed_ymd_hms};
use crate::clock::{from_timestamp, utc_from_secs};
use crate::feed::{StopTimeEvent, StopTimeUpdate, TripDescriptor, TripUpdate};
use crate::ids::{fake_stop_id, find_char, first_index, is_fake_stop_id, slice_chars, split_express, split_express_route_id};
use crate::num::{decimal, decimal_chars, parse_int_spec, parse_u32};
use crate::rt_train::{
    has_direction_letter, letter_direction, origin_time_text, origin_time_text_exec, pop_last,
};
use crate::text::{chars_eq, str_chars, string_from_chars};

verus! {

/// The name-based (version 5, SHA-1) UUID of a text in the OID namespace.
pub uninterp spec fn uuid_v5_oid(name: Seq<char>) -> u128;

/// Calls `Uuid::new_v5(&Uuid::NAMESPACE_OID, name.as_bytes())`; the id it
/// gives is named `uuid_v5_oid` of the name, so that one name always gives
/// one id. The hash itself is not restated.
#[verifier::external_body]
fn oid_uuid(name: &str) -> (r: u128)
    ensures
        r == uuid_v5_oid(name@),
{
    uuid::Uuid::new_v5(&uuid::Uuid::NAMESPACE_OID, name.as_bytes()).as_u128()
}

/// Stop ids that the trip-times import skips: the MTA's non-existent stops,
/// except `S12` and `S10`, which its list lacked.
pub open spec fn times_fake_stop(s: Seq<char>) -> bool {
    &&& is_fake_stop_id(s)
    &&& s != seq!['S', '1', '2']
    &&& s != seq!['S', '1', '0']
}

/// The origin of a trip id as the trip-times import reads it: the text before
/// its first `_` as a `u32`, divided by 100.
pub open spec fn origin_u32(trip_id: Seq<char>) -> Option<int> {
    match parse_int_spec(trip_id.subrange(0, first_index(trip_id, '_')), false, 0, u32::MAX as int) {
        Some(v) => Some(v / 100),
        None => None,
    }
}

/// The start time text of a trip update in the trip-times import: its own, else
/// the `HH:MM:SS` of the origin in its id when that is a time of day.
pub open spec fn times_start(d: TripDescriptor) -> Option<Seq<char>> {
    match d.start_time {
        Some(t) => Some(t@),
        None => match origin_u32(d.trip_id.unwrap()@) {
            Some(o) => origin_time_text(o),
            None => None,
        },
    }
}

/// The first stop id of a trip update, when its first stop time update has
/// one.
pub open spec fn first_stop_id(u: TripUpdate) -> Option<Seq<char>> {
    let sts = u.stop_time_update@;
    if sts.len() > 0 && sts[0].stop_id is Some {
        Some(sts[0].stop_id.unwrap()@)
    } else {
        None
    }
}

/// A trip update that the trip-times import keeps.
pub open spec fn times_kept(u: TripUpdate) -> bool {
    let d = u.trip;
    &&& first_stop_id(u) matches Some(s) && !times_fake_stop(pop_last(s))
    &&& d.trip_id is Some
    &&& d.route_id is Some
    &&& times_start(d) is Some
    &&& d.start_date is Some
}

/// The text read as a kept trip's start: start date, a space, start time.
pub open spec fn times_start_text(u: TripUpdate) -> Seq<char> {
    u.trip.start_date.unwrap()@ + seq![' '] + times_start(u.trip).unwrap()
}

/// The inputs on which the trip-times import does not stop the program: the
/// first stop id carries a direction letter; a kept route id is not empty;
/// without a start time, the trip id has a `_` after a `u32`; and a kept
/// trip's start reads as one New York local time and all its stop time
/// updates have stop ids.
pub open spec fn times_defined(u: TripUpdate) -> bool {
    let d = u.trip;
    let sts = u.stop_time_update@;
    &&& first_stop_id(u) matches Some(s) ==> has_direction_letter(s)
    &&& (first_stop_id(u) matches Some(s) && !times_fake_stop(pop_last(s)) && d.trip_id is Some
        && d.route_id is Some) ==> {
        &&& d.route_id.unwrap()@.len() > 0
        &&& d.start_time is None ==> {
            &&& first_index(d.trip_id.unwrap()@, '_') < d.trip_id.unwrap()@.len()
            &&& origin_u32(d.trip_id.unwrap()@) is Some
        }
    }
    &&& times_kept(u) ==> {
        &&& parsed_ymd_hms(times_start_text(u)) matches Some(p) && ny_to_utc(p.0, p.1.secs) is Some
        &&& forall|i: int| 0 <= i < sts.len() ==> (#[trigger] sts[i]).stop_id is Some
    }
}

/// A trip as the trip-times import stores it.
#[derive(Debug)]
pub struct TimesTrip {
    pub id: u128,
    pub mta_trip_id: String,
    pub route_id: String,
    pub created_at: i64,
    pub direction: i16,
}

/// A stop time as the trip-times import stores it; either time may be missing.
#[derive(Debug)]
pub struct StopUpdate {
    pub trip_id: u128,
    pub stop_id: String,
    pub arrival: Option<i64>,
    pub departure: Option<i64>,
}

/// The instant of an event, when it has a representable time.
pub open spec fn event_instant(e: Option<StopTimeEvent>) -> Option<i64> {
    match e {
        Some(a) => match a.time {
            Some(t) => utc_from_secs(t as int),
            None => None,
        },
        None => None,
    }
}

/// The stop updates of a trip's stop time updates: each stop id loses its
/// direction letter, skipped stops are dropped, and the times are kept as
/// they are, missing or not.
pub open spec fn times_stops(sts: Seq<StopTimeUpdate>) -> Seq<(Seq<char>, Option<i64>, Option<i64>)>
    decreases sts.len(),
{
    if sts.len() == 0 {
        Seq::empty()
    } else {
        let prev = times_stops(sts.drop_last());
        let st = sts.last();
        let stop = pop_last(st.stop_id.unwrap()@);
        if times_fake_stop(stop) {
            prev
        } else {
            prev.push((stop, event_instant(st.arrival), event_instant(st.departure)))
        }
    }
}

/// The name of a kept trip, from which its id is made: its start text, trip
/// id, route and direction, separated by spaces.
pub open spec fn times_trip_name(u: TripUpdate) -> Seq<char> {
    let d = u.trip;
    times_start_text(u) + seq![' '] + d.trip_id.unwrap()@ + seq![' '] + split_express(
        d.route_id.unwrap()@,
    ).0 + seq![' '] + decimal(letter_direction(first_stop_id(u).unwrap()) as int)
}

fn is_times_fake(s: &Vec<char>) -> (b: bool)
    ensures
        b == times_fake_stop(s@),
{
    let s12 = ['S', '1', '2'];
    let s10 = ['S', '1', '0'];
    assert(s12@ =~= seq!['S', '1', '2']);
    assert(s10@ =~= seq!['S', '1', '0']);
    fake_stop_id(s) && !chars_eq(s.as_slice(), &s12) && !chars_eq(s.as_slice(), &s10)
}

fn instant_of(e: &Option<StopTimeEvent>) -> (r: Option<i64>)
    ensures
        r == event_instant(*e),
{
    match e {
        Some(a) => match a.time {
            Some(t) => from_timestamp(t),
            None => None,
        },
        None => None,
    }
}

fn push_all(out: &mut Vec<char>, s: &Vec<char>)
    ensures
        final(out)@ == old(out)@ + s@,
{
    let ghost base = out@;
    let mut i: usize = 0;
    while i < s.len()
        invariant
            i <= s@.len(),
            out@ == base + s@.subrange(0, i as int),
        decreases s.len() - i,
    {
        out.push(s[i]);
        i = i + 1;
        assert(out@ =~= base + s@.subrange(0, i as int));
    }
    assert(s@.subrange(0, i as int) =~= s@);
}

fn start_text_of(d: &TripDescriptor) -> (r: Option<String>)
    requires
        d.trip_id is Some,
        d.start_time is None ==> first_index(d.trip_id.unwrap()@, '_') < d.trip_id.unwrap()@.len()
            && origin_u32(d.trip_id.unwrap()@) is Some,
    ensures
        match r {
            Some(t) => times_start(*d) == Some(t@),
            None => times_start(*d) is None,
        },
{
    match &d.start_time {
        Some(t) => Some(t.clone()),
        None => {
            let id = str_chars(d.trip_id.as_ref().unwrap().as_str());
            let k = find_char(&id, '_');
            let head = slice_chars(&id, 0, k);
            let v = parse_u32(&head).unwrap();
            let o: u32 = v / 100;
            if o >= 1440 {
                None
            } else {
                origin_time_text_exec(o as i32)
            }
        },
    }
}

/// What the trip-times import stores for a trip update: nothing when it skips
/// it (see `times_kept`); else the trip, named by the UUID of
/// `times_trip_name`, and its stop updates.
pub open spec fn times_result(r: Option<(TimesTrip, Vec<StopUpdate>)>, u: TripUpdate) -> bool {
    &&& (r is Some <==> times_kept(u))
    &&& r matches Some((t, ups)) ==> {
        let d = u.trip;
        let p = parsed_ymd_hms(times_start_text(u)).unwrap();
        let k = times_stops(u.stop_time_update@);
        &&& t.id == uuid_v5_oid(times_trip_name(u))
        &&& t.mta_trip_id@ == d.trip_id.unwrap()@
        &&& t.route_id@ == split_express(d.route_id.unwrap()@).0
        &&& Some(t.created_at) == ny_to_utc(p.0, p.1.secs)
        &&& t.direction == letter_direction(first_stop_id(u).unwrap())
        &&& ups@.len() == k.len()
        &&& forall|i: int|
            0 <= i < ups@.len() ==> (#[trigger] ups@[i]).trip_id == t.id && (
            ups@[i].stop_id@,
            ups@[i].arrival,
            ups@[i].departure,
        ) == k[i]
    }
}

/// The trip and stop updates that the trip-times import stores for a trip
/// update, or none when it skips the update (see `times_kept`): the
/// direction comes from the first stop id's letter, `SS` is folded into `SI`
/// and the express `X` dropped from the route, and the trip starts at its
/// start date and time, New York time.
pub fn times_trip_of_update(u: &TripUpdate) -> (r: Option<(TimesTrip, Vec<StopUpdate>)>)
    requires
        times_defined(*u),
    ensures
        times_result(r, *u),
{
    let sts = &u.stop_time_update;
    if sts.len() == 0 {
        return None;
    }
    let first = match &sts[0].stop_id {
        Some(id) => str_chars(id.as_str()),
        None => return None,
    };
    let direction: i16 = if first[first.len() - 1] == 'N' {
        1
    } else {
        0
    };
    let mut first_stop = first;
    first_stop.pop();
    if is_times_fake(&first_stop) {
        return None;
    }
    let trip_id = match &u.trip.trip_id {
        Some(t) => t,
        None => return None,
    };
    let route = match &u.trip.route_id {
        Some(r) => r,
        None => return None,
    };
    let (route_id, _) = split_express_route_id(route.as_str());
    let start_time = match start_text_of(&u.trip) {
        Some(t) => t,
        None => return None,
    };
    let start_date = match &u.trip.start_date {
        Some(d) => d,
        None => return None,
    };
    let mut text = str_chars(start_date.as_str());
    text.push(' ');
    push_all(&mut text, &str_chars(start_time.as_str()));
    assert(text@ == times_start_text(*u));
    let text_s = string_from_chars(text.as_slice());
    let (date, time) = parse_ymd_hms(text_s.as_str()).unwrap();
    let created_at = ny_local_to_utc(date, time).unwrap();
    let mut name = text;
    name.push(' ');
    push_all(&mut name, &str_chars(trip_id.as_str()));
    name.push(' ');
    push_all(&mut name, &str_chars(route_id.as_str()));
    name.push(' ');
    push_all(&mut name, &decimal_chars(direction as i64));
    assert(name@ =~= times_trip_name(*u));
    let id = oid_uuid(string_from_chars(name.as_slice()).as_str());
    let mut ups: Vec<StopUpdate> = Vec::new();
    let mut i: usize = 0;
    while i < sts.len()
        invariant
            i <= sts@.len(),
            sts@ == u.stop_time_update@,
            forall|j: int| 0 <= j < sts@.len() ==> (#[trigger] sts@[j]).stop_id is Some,
            ups@.len() == times_stops(sts@.subrange(0, i as int)).len(),
            forall|j: int|
                0 <= j < ups@.len() ==> (#[trigger] ups@[j]).trip_id == id && (
                ups@[j].stop_id@,
                ups@[j].arrival,
                ups@[j].departure,
            ) == times_stops(sts@.subrange(0, i as int))[j],
        decreases sts.len() - i,
    {
        let ghost pre = sts@.subrange(0, i as int);
        let ghost cur = sts@.subrange(0, i + 1);
        assert(cur.drop_last() =~= pre);
        let ghost u0 = ups@;
        let st = &sts[i];
        let mut stop = str_chars(st.stop_id.as_ref().unwrap().as_str());
        if stop.len() > 0 {
            stop.pop();
        }
        assert(stop@ == pop_last(st.stop_id.unwrap()@));
        if !is_times_fake(&stop) {
            ups.push(
                StopUpdate {
                    trip_id: id,
                    stop_id: string_from_chars(stop.as_slice()),
                    arrival: instant_of(&st.arrival),
                    departure: instant_of(&st.departure),
                },
            );
            assert forall|j: int| 0 <= j < ups@.len() implies (#[trigger] ups@[j]).trip_id == id && (
            ups@[j].stop_id@,
            ups@[j].arrival,
            ups@[j].departure,
        ) == times_stops(cur)[j] by {
                if j < u0.len() {
                    assert(ups@[j] == u0[j]);
                }
            }
        }
        i = i + 1;
    }
    assert(sts@.subrange(0, i as int) =~= sts@);
    let trip = TimesTrip {
        id,
        mta_trip_id: trip_id.clone(),
        route_id,
        created_at,
        direction,
    };
    Some((trip, ups))
}

/// The trip-times import of a trip update (see `times_trip_of_update`), or `None`
/// when the update is one on which it is not defined
/// (`times_defined`).
pub fn try_times_trip_of_update(u: &TripUpdate) -> (r: Option<Option<(TimesTrip, Vec<StopUpdate>)>>)
    ensures
        r is Some <==> times_defined(*u),
        r matches Some(x) ==> times_result(x, *u),
{
    let sts = &u.stop_time_update;
    let d = &u.trip;
    let first = if sts.len() > 0 {
        match &sts[0].stop_id {
            Some(id) => Some(str_chars(id.as_str())),
            None => None,
        }
    } else {
        None
    };
    let first = match first {
        Some(f) => f,
        None => return Some(times_trip_of_update(u)),
    };
    if !(first.len() > 0 && (first[first.len() - 1] == 'N' || first[first.len() - 1] == 'S')) {
        return None;
    }
    let mut stop = first;
    stop.pop();
    if is_times_fake(&stop) || d.trip_id.is_none() || d.route_id.is_none() {
        return Some(times_trip_of_update(u));
    }
    if str_chars(d.route_id.as_ref().unwrap().as_str()).len() == 0 {
        return None;
    }
    if d.start_time.is_none() {
        let id = str_chars(d.trip_id.as_ref().unwrap().as_str());
        let k = find_char(&id, '_');
        if k >= id.len() {
            return None;
        }
        let head = slice_chars(&id, 0, k);
        if parse_u32(&head).is_none() {
            return None;
        }
    }
    let start_time = match start_text_of(d) {
        Some(t) => t,
        None => return Some(times_trip_of_update(u)),
    };
    let start_date = match &d.start_date {
        Some(x) => x,
        None => return Some(times_trip_of_update(u)),
    };
    let mut text = str_chars(start_date.as_str());
    text.push(' ');
    push_all(&mut text, &str_chars(start_time.as_str()));
    assert(text@ == times_start_text(*u));
    match parse_ymd_hms(string_from_chars(text.as_slice()).as_str()) {
        Some((date, time)) => {
            if ny_local_to_utc(date, time).is_none() {
                return None;
            }
        },
        None => return None,
    }
    assert(times_kept(*u));
    let mut i: usize = 0;
    while i < sts.len()
        invariant
            i <= sts@.len(),
            sts@ == u.stop_time_update@,
            times_kept(*u),
            forall|j: int| 0 <= j < i ==> (#[trigger] sts@[j]).stop_id is Some,
        decreases sts.len() - i,
    {
        if sts[i].stop_id.is_none() {
            return None;
        }
        i = i + 1;
    }
    Some(times_trip_of_update(u))
}

} // verus!
