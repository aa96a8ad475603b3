//! Realtime trips of the MTA subway, as the Helium trips feed reports them.
use vstd::prelude::*;

use crate::calendar::{
    civil_pred, civil_succ, max_year, min_year, ny_date_of, ny_date_of_day, ny_local_to_utc,
    ny_to_utc, next_day, prev_day, CivilDate, TimeOfDay,
};
use crate::clock::{from_timestamp, local_date_in_range, local_date_readable, new_id, now_unix, utc_from_secs};
use crate::num::{decimal, decimal_string, digit_of, is_digit};
use crate::realtime::{
    Consist, ConsistCar, MtaSubwayStopTimeData, MtaSubwayTripData, StopTime, StopTimeData, Trip,
    TripData,
};
use crate::source::Source;
use crate::text::{split_ws, str_chars, str_is, ws_tokens};

verus! {

/// The length of a train as the trips feed gives it.
pub struct HeliumConsist {
    pub car_count: i32,
    pub car_length_feet: i32,
}

/// One car of a train as the trips feed gives it.
pub struct HeliumConsistCar {
    pub number: String,
    pub car_type: Option<String>,
}

/// A stop of a trip in the trips feed.
pub struct HeliumTripStop {
    pub station_id: i32,
    pub platform_edges: Vec<String>,
    pub est_arrive_at: i64,
    pub stop_status: String,
}

/// A trip of the trips feed; the estimated position is a pair of `f64` bit
/// patterns.
pub struct HeliumTrip {
    pub route_id: String,
    pub direction: String,
    pub trip_id: String,
    pub shape_segment_ids: Vec<String>,
    pub is_assigned: bool,
    pub is_delayed: bool,
    pub estimated_longitude: Option<u64>,
    pub estimated_latitude: Option<u64>,
    pub headsign: String,
    pub consist: Option<HeliumConsist>,
    pub stops: Vec<HeliumTripStop>,
    pub source: String,
    pub updated_at: Option<i64>,
    pub consist_cars: Vec<HeliumConsistCar>,
}

/// The direction code of a feed direction: north 1, east 2, south 3, west 4;
/// other directions are unknown.
pub open spec fn direction_code(s: Seq<char>) -> Option<i16> {
    if s == seq!['N', 'O', 'R', 'T', 'H'] {
        Some(1)
    } else if s == seq!['E', 'A', 'S', 'T'] {
        Some(2)
    } else if s == seq!['S', 'O', 'U', 'T', 'H'] {
        Some(3)
    } else if s == seq!['W', 'E', 'S', 'T'] {
        Some(4)
    } else {
        None
    }
}

/// The direction code of a feed direction.
pub fn helium_direction(s: &str) -> (r: Option<i16>)
    ensures
        r == direction_code(s@),
{
    let north = ['N', 'O', 'R', 'T', 'H'];
    let east = ['E', 'A', 'S', 'T'];
    let south = ['S', 'O', 'U', 'T', 'H'];
    let west = ['W', 'E', 'S', 'T'];
    assert(north@ =~= seq!['N', 'O', 'R', 'T', 'H']);
    assert(east@ =~= seq!['E', 'A', 'S', 'T']);
    assert(south@ =~= seq!['S', 'O', 'U', 'T', 'H']);
    assert(west@ =~= seq!['W', 'E', 'S', 'T']);
    if str_is(s, &north) {
        Some(1)
    } else if str_is(s, &east) {
        Some(2)
    } else if str_is(s, &south) {
        Some(3)
    } else if str_is(s, &west) {
        Some(4)
    } else {
        None
    }
}

/// The ASCII digits at the start of `s`.
pub open spec fn leading_digits(s: Seq<char>) -> Seq<char>
    decreases s.len(),
{
    if s.len() == 0 || !is_digit(s[0]) {
        Seq::empty()
    } else {
        seq![s[0]] + leading_digits(s.drop_first())
    }
}

/// The scheduled origin time that a trip id carries: its second word starts
/// with four digits `HHMM`, and a `+` right after them adds thirty seconds
/// (`"01 1845+ 242/SFT"` is 18:45:30). Anything else carries no time.
pub open spec fn trip_origin(trip_id: Seq<char>) -> Option<TimeOfDay> {
    let parts = ws_tokens(trip_id);
    if parts.len() < 2 {
        None
    } else {
        let tok = parts[1];
        let d = leading_digits(tok);
        if d.len() != 4 {
            None
        } else {
            let hh = digit_of(d[0]) * 10 + digit_of(d[1]);
            let mm = digit_of(d[2]) * 10 + digit_of(d[3]);
            let ss = if tok.len() > 4 && tok[4] == '+' {
                30int
            } else {
                0int
            };
            if hh < 24 && mm < 60 {
                Some(TimeOfDay { secs: (hh * 3600 + mm * 60 + ss) as u32 })
            } else {
                None
            }
        }
    }
}

proof fn lemma_leading_digits(s: Seq<char>, k: int)
    requires
        0 <= k <= s.len(),
        forall|j: int| 0 <= j < k ==> is_digit(#[trigger] s[j]),
        k == s.len() || !is_digit(s[k]),
    ensures
        leading_digits(s) == s.subrange(0, k),
    decreases k,
{
    if k > 0 {
        assert forall|j: int| 0 <= j < k - 1 implies is_digit(#[trigger] s.drop_first()[j]) by {
            assert(s.drop_first()[j] == s[j + 1]);
        }
        if k - 1 < s.drop_first().len() {
            assert(s.drop_first()[k - 1] == s[k]);
        }
        lemma_leading_digits(s.drop_first(), k - 1);
        assert(seq![s[0]] + s.drop_first().subrange(0, k - 1) =~= s.subrange(0, k));
    } else {
        assert(s.subrange(0, 0) =~= Seq::<char>::empty());
    }
}

fn digit_value(c: char) -> (v: u32)
    requires
        is_digit(c),
    ensures
        v as int == digit_of(c),
{
    (c as u32) - ('0' as u32)
}

/// The scheduled origin time that a trip id carries.
pub fn parse_trip_origin(trip_id: &str) -> (r: Option<TimeOfDay>)
    ensures
        r == trip_origin(trip_id@),
{
    let chars = str_chars(trip_id);
    let parts = split_ws(&chars);
    if parts.len() < 2 {
        return None;
    }
    let tok = &parts[1];
    let mut k: usize = 0;
    while k < tok.len() && '0' <= tok[k] && tok[k] <= '9'
        invariant
            k <= tok@.len(),
            forall|j: int| 0 <= j < k ==> is_digit(#[trigger] tok@[j]),
        decreases tok.len() - k,
    {
        k = k + 1;
    }
    proof {
        lemma_leading_digits(tok@, k as int);
    }
    if k != 4 {
        return None;
    }
    let hh = digit_value(tok[0]) * 10 + digit_value(tok[1]);
    let mm = digit_value(tok[2]) * 10 + digit_value(tok[3]);
    let ss: u32 = if tok.len() > 4 && tok[4] == '+' {
        30
    } else {
        0
    };
    TimeOfDay::from_hms(hh, mm, ss)
}

/// How many days to move the service date of a trip whose origin, read on
/// today's date, falls at `candidate` while it is `now`: whole hours between
/// them are counted toward zero; more than six ahead means yesterday's
/// service (-1), more than eighteen behind tomorrow's (+1).
pub open spec fn service_day_shift_spec(candidate: int, now: int) -> int {
    let diff = candidate - now;
    let hours = if diff >= 0 {
        diff / 3600
    } else {
        -((-diff) / 3600)
    };
    if hours > 6 {
        -1
    } else if hours < -18 {
        1
    } else {
        0
    }
}

/// How many days to move a trip's service date (see `service_day_shift_spec`).
pub fn service_day_shift(candidate: i64, now: i64) -> (r: i8)
    ensures
        r as int == service_day_shift_spec(candidate as int, now as int),
{
    let diff: i128 = candidate as i128 - now as i128;
    let hours: i128 = if diff >= 0 {
        diff / 3600
    } else {
        -((-diff) / 3600)
    };
    if hours > 6 {
        -1
    } else if hours < -18 {
        1
    } else {
        0
    }
}

/// The unix time at which a trip started, from the origin time in its id:
/// the origin time on today's date in New York, moved to yesterday's or
/// tomorrow's date as `service_day_shift_spec` says. Nothing when the id
/// carries no time, `now` lies within a day of the ends of chrono's range
/// (where New York's date at `now` cannot be read), or a local time does not
/// exist.
pub open spec fn trip_created_at(trip_id: Seq<char>, now: int) -> Option<i64> {
    match trip_origin(trip_id) {
        None => None,
        Some(o) => if !local_date_in_range(now) {
            None
        } else {
            let today = ny_date_of(now);
            match ny_to_utc(today, o.secs) {
                None => None,
                Some(c) => {
                    let shift = service_day_shift_spec(c as int, now);
                    if shift == 0 {
                        Some(c)
                    } else if shift < 0 {
                        if today.year == min_year() && today.month == 1 && today.day == 1 {
                            None
                        } else {
                            ny_to_utc(civil_pred(today), o.secs)
                        }
                    } else {
                        if today.year == max_year() && today.month == 12 && today.day == 31 {
                            None
                        } else {
                            ny_to_utc(civil_succ(today), o.secs)
                        }
                    }
                },
            }
        },
    }
}

/// The unix time at which a trip started, read from its id (see
/// `trip_created_at`).
pub fn created_at_from_trip_id(trip_id: &str, now: i64) -> (r: Option<i64>)
    requires
        local_date_in_range(now as int),
    ensures
        r == trip_created_at(trip_id@, now as int),
{
    let origin = match parse_trip_origin(trip_id) {
        Some(o) => o,
        None => return None,
    };
    let today = ny_date_of_day(now);
    let candidate = match ny_local_to_utc(today, origin) {
        Some(c) => c,
        None => return None,
    };
    let shift = service_day_shift(candidate, now);
    if shift == 0 {
        Some(candidate)
    } else if shift < 0 {
        match prev_day(today) {
            Some(d) => ny_local_to_utc(d, origin),
            None => None,
        }
    } else {
        match next_day(today) {
            Some(d) => ny_local_to_utc(d, origin),
            None => None,
        }
    }
}

/// MTA subway data of a vehicle position.
pub struct MtaSubwayPositionData {
    pub assigned: bool,
    pub status: Option<String>,
}

/// Source-specific data of a vehicle position.
pub enum PositionData {
    MtaSubway(MtaSubwayPositionData),
}

/// Where a vehicle is; `geom` is a `(longitude, latitude)` pair of `f64` bit
/// patterns.
pub struct VehiclePosition {
    pub vehicle_id: String,
    pub trip_id: Option<u128>,
    pub stop_id: Option<String>,
    pub updated_at: i64,
    pub geom: Option<(u64, u64)>,
    pub data: PositionData,
}

/// The texts of a list of strings.
pub open spec fn strings_view(v: Seq<String>) -> Seq<Seq<char>> {
    Seq::new(v.len(), |i: int| v[i]@)
}

/// A copy of a list of strings.
pub fn clone_strings(v: &Vec<String>) -> (r: Vec<String>)
    ensures
        strings_view(r@) == strings_view(v@),
{
    let mut out: Vec<String> = Vec::new();
    let mut i: usize = 0;
    while i < v.len()
        invariant
            i <= v@.len(),
            out@.len() == i,
            forall|j: int| 0 <= j < i ==> (#[trigger] out@[j])@ == v@[j]@,
        decreases v.len() - i,
    {
        out.push(v[i].clone());
        i = i + 1;
    }
    assert(strings_view(out@) =~= strings_view(v@));
    out
}

/// When a trip was last updated: `now` for unassigned trips (their feed time
/// is stale), else the feed's time when it is a representable instant, else
/// `now`.
pub open spec fn subway_updated_at(t: HeliumTrip, now: i64) -> i64 {
    if !t.is_assigned {
        now
    } else {
        match t.updated_at {
            Some(ts) => match utc_from_secs(ts as int) {
                Some(x) => x,
                None => now,
            },
            None => now,
        }
    }
}

/// The stops of a trip with a representable arrival time, as
/// `(station, arrival, platform edges)`, in order.
pub open spec fn subway_stop_times_spec(stops: Seq<HeliumTripStop>) -> Seq<(i32, i64, Seq<Seq<char>>)>
    decreases stops.len(),
{
    if stops.len() == 0 {
        Seq::empty()
    } else {
        let prev = subway_stop_times_spec(stops.drop_last());
        let st = stops.last();
        match utc_from_secs(st.est_arrive_at as int) {
            Some(a) => prev.push((st.station_id, a, strings_view(st.platform_edges@))),
            None => prev,
        }
    }
}

/// The stored stop times of a trip are its kept stops: arrival and departure
/// are both the estimated arrival, and no track is known.
pub open spec fn subway_stop_times_match(r: Seq<StopTime>, stops: Seq<HeliumTripStop>, id: u128) -> bool {
    let k = subway_stop_times_spec(stops);
    &&& r.len() == k.len()
    &&& forall|i: int|
        0 <= i < r.len() ==> {
            &&& (#[trigger] r[i]).trip_id == Some(id)
            &&& r[i].stop_id@ == decimal(k[i].0 as int)
            &&& r[i].arrival == k[i].1
            &&& r[i].departure == k[i].1
            &&& match r[i].data {
                StopTimeData::MtaSubway(d) => d.scheduled_track is None && d.actual_track is None
                    && strings_view(d.platform_edges@) == k[i].2,
                _ => false,
            }
        }
}

/// The stop times of a subway trip.
pub fn subway_stop_times(stops: &Vec<HeliumTripStop>, id: u128) -> (r: Vec<StopTime>)
    ensures
        subway_stop_times_match(r@, stops@, id),
{
    let mut out: Vec<StopTime> = Vec::new();
    let mut i: usize = 0;
    while i < stops.len()
        invariant
            i <= stops@.len(),
            subway_stop_times_match(out@, stops@.subrange(0, i as int), id),
        decreases stops.len() - i,
    {
        let ghost pre = stops@.subrange(0, i as int);
        let ghost cur = stops@.subrange(0, i + 1);
        assert(cur.drop_last() =~= pre);
        let ghost o0 = out@;
        let st = &stops[i];
        match from_timestamp(st.est_arrive_at) {
            Some(a) => {
                let edges = clone_strings(&st.platform_edges);
                out.push(
                    StopTime {
                        trip_id: Some(id),
                        stop_id: decimal_string(st.station_id as i64),
                        arrival: a,
                        departure: a,
                        data: StopTimeData::MtaSubway(
                            MtaSubwayStopTimeData {
                                scheduled_track: None,
                                actual_track: None,
                                platform_edges: edges,
                            },
                        ),
                    },
                );
                assert forall|j: int| 0 <= j < out@.len() implies (#[trigger] out@[j]).trip_id
                    == Some(id) by {
                    if j < o0.len() {
                        assert(out@[j] == o0[j]);
                    }
                }
                assert(subway_stop_times_match(out@, cur, id)) by {
                    assert forall|j: int| 0 <= j < out@.len() implies out@[j] == (if j < o0.len() {
                        o0[j]
                    } else {
                        out@[j]
                    }) by {}
                }
            },
            None => {},
        }
        i = i + 1;
    }
    assert(stops@.subrange(0, i as int) =~= stops@);
    out
}

/// A stop a train is at or headed to.
pub open spec fn is_current_status(s: Seq<char>) -> bool {
    s == seq!['E', 'N', '_', 'R', 'O', 'U', 'T', 'E'] || s == seq!['A', 'T', '_', 'S', 'T', 'O', 'P']
}

/// The first stop of a trip that the train is at or headed to.
pub open spec fn current_stop(stops: Seq<HeliumTripStop>) -> Option<HeliumTripStop>
    decreases stops.len(),
{
    if stops.len() == 0 {
        None
    } else if is_current_status(stops[0].stop_status@) {
        Some(stops[0])
    } else {
        current_stop(stops.drop_first())
    }
}

proof fn lemma_current_stop(stops: Seq<HeliumTripStop>, k: int)
    requires
        0 <= k <= stops.len(),
        forall|j: int| 0 <= j < k ==> !is_current_status(#[trigger] stops[j].stop_status@),
    ensures
        current_stop(stops) == current_stop(stops.subrange(k, stops.len() as int)),
    decreases k,
{
    if k > 0 {
        let t = stops.drop_first();
        assert forall|j: int| 0 <= j < k - 1 implies !is_current_status(
            #[trigger] t[j].stop_status@,
        ) by {
            assert(t[j] == stops[j + 1]);
        }
        lemma_current_stop(t, k - 1);
        assert(t.subrange(k - 1, t.len() as int) =~= stops.subrange(k, stops.len() as int));
    } else {
        assert(stops.subrange(0, stops.len() as int) =~= stops);
    }
}

/// The position of the first stop of a trip that the train is at or headed to.
pub fn find_current_stop(stops: &Vec<HeliumTripStop>) -> (r: Option<usize>)
    ensures
        r is None <==> current_stop(stops@) is None,
        r matches Some(k) ==> k < stops@.len() && current_stop(stops@) == Some(stops@[k as int]),
{
    let en_route = ['E', 'N', '_', 'R', 'O', 'U', 'T', 'E'];
    let at_stop = ['A', 'T', '_', 'S', 'T', 'O', 'P'];
    assert(en_route@ =~= seq!['E', 'N', '_', 'R', 'O', 'U', 'T', 'E']);
    assert(at_stop@ =~= seq!['A', 'T', '_', 'S', 'T', 'O', 'P']);
    let mut i: usize = 0;
    while i < stops.len()
        invariant
            i <= stops@.len(),
            en_route@ == seq!['E', 'N', '_', 'R', 'O', 'U', 'T', 'E'],
            at_stop@ == seq!['A', 'T', '_', 'S', 'T', 'O', 'P'],
            forall|j: int| 0 <= j < i ==> !is_current_status(#[trigger] stops@[j].stop_status@),
        decreases stops.len() - i,
    {
        let st = stops[i].stop_status.as_str();
        if str_is(st, &en_route) || str_is(st, &at_stop) {
            proof {
                lemma_current_stop(stops@, i as int);
                let rest = stops@.subrange(i as int, stops@.len() as int);
                assert(rest[0] == stops@[i as int]);
            }
            return Some(i);
        }
        i = i + 1;
    }
    proof {
        lemma_current_stop(stops@, i as int);
        assert(stops@.subrange(i as int, stops@.len() as int).len() == 0);
    }
    None
}

/// The stored cars of a train are the feed's.
pub open spec fn cars_match(r: Seq<ConsistCar>, cs: Seq<HeliumConsistCar>) -> bool {
    &&& r.len() == cs.len()
    &&& forall|i: int|
        0 <= i < r.len() ==> (#[trigger] r[i]).number@ == cs[i].number@ && crate::ids::opt_string_view(
            r[i].car_type,
        ) == crate::ids::opt_string_view(cs[i].car_type)
}

fn clone_cars(cs: &Vec<HeliumConsistCar>) -> (r: Vec<ConsistCar>)
    ensures
        cars_match(r@, cs@),
{
    let mut out: Vec<ConsistCar> = Vec::new();
    let mut i: usize = 0;
    while i < cs.len()
        invariant
            i <= cs@.len(),
            out@.len() == i,
            forall|j: int|
                0 <= j < i ==> (#[trigger] out@[j]).number@ == cs@[j].number@
                    && crate::ids::opt_string_view(out@[j].car_type) == crate::ids::opt_string_view(
                    cs@[j].car_type,
                ),
        decreases cs.len() - i,
    {
        out.push(
            ConsistCar {
                number: cs[i].number.clone(),
                car_type: crate::ids::clone_opt_string(&cs[i].car_type),
            },
        );
        i = i + 1;
    }
    out
}

/// The stored trip of a feed trip.
pub open spec fn subway_trip_matches(
    t: Trip,
    h: HeliumTrip,
    created_at: Option<i64>,
    id: u128,
    now: i64,
) -> bool {
    &&& t.id == id
    &&& t.original_id@ == h.trip_id@
    &&& t.route_id@ == h.route_id@
    &&& strings_view(t.shape_ids@) == strings_view(h.shape_segment_ids@)
    &&& t.direction == direction_code(h.direction@)
    &&& t.created_at == match created_at {
        Some(c) => c,
        None => now,
    }
    &&& t.vehicle_id@ == h.trip_id@
    &&& t.updated_at == subway_updated_at(h, now)
    &&& match t.data {
        TripData::MtaSubway(d) => {
            &&& d.consist == match h.consist {
                Some(c) => Some(Consist { car_count: c.car_count, car_length_feet: c.car_length_feet }),
                None => None,
            }
            &&& cars_match(d.consist_cars@, h.consist_cars@)
        },
        _ => false,
    }
}

/// The stored position of a feed trip: at its current stop, when it has one.
pub open spec fn subway_position_matches(
    p: Option<VehiclePosition>,
    h: HeliumTrip,
    id: u128,
    updated_at: i64,
) -> bool {
    match current_stop(h.stops@) {
        None => p is None,
        Some(st) => match p {
            None => false,
            Some(p) => {
                &&& p.vehicle_id@ == h.trip_id@
                &&& p.trip_id == Some(id)
                &&& p.stop_id matches Some(x) && x@ == decimal(st.station_id as int)
                &&& p.updated_at == updated_at
                &&& p.geom == match (h.estimated_longitude, h.estimated_latitude) {
                    (Some(lon), Some(lat)) => Some((lon, lat)),
                    _ => None,
                }
                &&& match p.data {
                    PositionData::MtaSubway(d) => d.assigned == h.is_assigned && (
                    d.status matches Some(s) && s@ == st.stop_status@),
                }
            },
        },
    }
}

/// The realtime importer of the MTA subway.
pub struct MtaSubwayRealtime;

impl MtaSubwayRealtime {
    /// The source this importer feeds.
    pub fn source(&self) -> (s: Source)
        ensures
            s == Source::MtaSubway,
    {
        Source::MtaSubway
    }

    /// How often the trips feed is read, in seconds.
    pub fn refresh_interval_secs(&self) -> (secs: u64)
        ensures
            secs == 30,
    {
        30
    }

    /// The trip, stop times and position of one feed trip, given when it was
    /// created (`None` when its id carries no time: then `now`), its new id
    /// and the time now. A trip with an unknown direction is skipped.
    pub fn process_trip_at(
        &self,
        h: &HeliumTrip,
        created_at: Option<i64>,
        id: u128,
        now: i64,
    ) -> (r: Option<(Trip, Vec<StopTime>, Option<VehiclePosition>)>)
        ensures
            r is None <==> direction_code(h.direction@) is None,
            r matches Some(x) ==> {
                &&& subway_trip_matches(x.0, *h, created_at, id, now)
                &&& subway_stop_times_match(x.1@, h.stops@, id)
                &&& subway_position_matches(x.2, *h, id, x.0.updated_at)
            },
    {
        let direction = match helium_direction(h.direction.as_str()) {
            Some(d) => d,
            None => return None,
        };
        let created = match created_at {
            Some(c) => c,
            None => now,
        };
        let updated_at = if !h.is_assigned {
            now
        } else {
            match h.updated_at {
                Some(ts) => match from_timestamp(ts) {
                    Some(x) => x,
                    None => now,
                },
                None => now,
            }
        };
        let consist = match &h.consist {
            Some(c) => Some(Consist { car_count: c.car_count, car_length_feet: c.car_length_feet }),
            None => None,
        };
        let trip = Trip {
            id,
            original_id: h.trip_id.clone(),
            route_id: h.route_id.clone(),
            shape_ids: clone_strings(&h.shape_segment_ids),
            direction: Some(direction),
            created_at: created,
            vehicle_id: h.trip_id.clone(),
            updated_at,
            data: TripData::MtaSubway(
                MtaSubwayTripData { consist, consist_cars: clone_cars(&h.consist_cars) },
            ),
        };
        let stop_times = subway_stop_times(&h.stops, id);
        let position = match find_current_stop(&h.stops) {
            Some(k) => {
                let st = &h.stops[k];
                let geom = match (h.estimated_longitude, h.estimated_latitude) {
                    (Some(lon), Some(lat)) => Some((lon, lat)),
                    _ => None,
                };
                Some(
                    VehiclePosition {
                        vehicle_id: h.trip_id.clone(),
                        trip_id: Some(id),
                        stop_id: Some(decimal_string(st.station_id as i64)),
                        updated_at,
                        geom,
                        data: PositionData::MtaSubway(
                            MtaSubwayPositionData {
                                assigned: h.is_assigned,
                                status: Some(st.stop_status.clone()),
                            },
                        ),
                    },
                )
            },
            None => None,
        };
        Some((trip, stop_times, position))
    }

    /// The trips, stop times and positions of the feed's trips, read at the
    /// current time; each trip gets a fresh id and the creation time its id
    /// carries. Trips with an unknown direction are skipped. The clock and
    /// the ids are the outside world's: the trips kept, their order, each
    /// trip's fields as `process_trip_at` makes them at one common time, and
    /// the stop times and positions of each trip under the id it got, are
    /// stated, whatever that time and the ids are.
    pub fn process(&self, trips: &Vec<HeliumTrip>) -> (r: (Vec<Trip>, Vec<StopTime>, Vec<VehiclePosition>))
        ensures
            r.0@.len() == known_trips(trips@).len(),
            forall|i: int|
                0 <= i < r.0@.len() ==> (#[trigger] r.0@[i]).original_id@ == known_trips(trips@)[i].trip_id@,
            exists|now: i64| #[trigger] subway_trips_match_at(r.0@, known_trips(trips@), now),
            all_stop_times_match(r.1@, r.0@, known_trips(trips@)),
            all_positions_match(r.2@, r.0@, known_trips(trips@)),
    {
        let now = now_unix();
        let mut out_trips: Vec<Trip> = Vec::new();
        let mut out_stop_times: Vec<StopTime> = Vec::new();
        let mut out_positions: Vec<VehiclePosition> = Vec::new();
        let mut i: usize = 0;
        while i < trips.len()
            invariant
                i <= trips@.len(),
                out_trips@.len() == known_trips(trips@.subrange(0, i as int)).len(),
                forall|j: int|
                    0 <= j < out_trips@.len() ==> (#[trigger] out_trips@[j]).original_id@
                        == known_trips(trips@.subrange(0, i as int))[j].trip_id@,
                subway_trips_match_at(out_trips@, known_trips(trips@.subrange(0, i as int)), now),
                all_stop_times_match(out_stop_times@, out_trips@, known_trips(trips@.subrange(0, i as int))),
                all_positions_match(out_positions@, out_trips@, known_trips(trips@.subrange(0, i as int))),
            decreases trips.len() - i,
        {
            let ghost pre = trips@.subrange(0, i as int);
            let ghost cur = trips@.subrange(0, i + 1);
            assert(cur.drop_last() =~= pre);
            let h = &trips[i];
            let created = if local_date_readable(now) {
                created_at_from_trip_id(h.trip_id.as_str(), now)
            } else {
                None
            };
            let id = new_id();
            match self.process_trip_at(h, created, id, now) {
                Some((t, sts, pos)) => {
                    let ghost o0 = out_trips@;
                    out_trips.push(t);
                    assert forall|j: int| 0 <= j < out_trips@.len() implies (#[trigger] out_trips@[j]).original_id@
                        == known_trips(cur)[j].trip_id@ by {
                        if j < o0.len() {
                            assert(out_trips@[j] == o0[j]);
                        }
                    }
                    assert forall|j: int| 0 <= j < out_trips@.len() implies #[trigger] subway_trip_matches(
                        out_trips@[j],
                        known_trips(cur)[j],
                        trip_created_at(known_trips(cur)[j].trip_id@, now as int),
                        out_trips@[j].id,
                        now,
                    ) by {
                        if j < o0.len() {
                            assert(out_trips@[j] == o0[j]);
                        }
                    }
                    let ghost s0 = out_stop_times@;
                    let ghost p0 = out_positions@;
                    let ghost sv = sts@;
                    let mut sts = sts;
                    out_stop_times.append(&mut sts);
                    proof {
                        let kc = known_trips(cur);
                        assert(kc.drop_last() == known_trips(pre));
                        assert(out_trips@.drop_last() =~= o0);
                        let k = s0.len() as int;
                        assert(out_stop_times@.subrange(k, out_stop_times@.len() as int) =~= sv);
                        assert(out_stop_times@.subrange(0, k) =~= s0);
                    }
                    match pos {
                        Some(p) => {
                            out_positions.push(p);
                            assert(out_positions@.drop_last() =~= p0);
                        },
                        None => {},
                    }
                },
                None => {},
            }
            i = i + 1;
        }
        assert(trips@.subrange(0, i as int) =~= trips@);
        assert(subway_trips_match_at(out_trips@, known_trips(trips@), now));
        (out_trips, out_stop_times, out_positions)
    }
}

/// Each stored trip is its feed trip's, as `process_trip_at` makes it at
/// time `now` with the creation time the feed trip's id carries.
pub open spec fn subway_trips_match_at(ts: Seq<Trip>, hs: Seq<HeliumTrip>, now: i64) -> bool {
    &&& ts.len() == hs.len()
    &&& forall|j: int|
        0 <= j < ts.len() ==> #[trigger] subway_trip_matches(
            ts[j],
            hs[j],
            trip_created_at(hs[j].trip_id@, now as int),
            ts[j].id,
            now,
        )
}

/// The stop times of stored trips, trip by trip: the stop times of each
/// feed trip under the id of the trip stored for it.
pub open spec fn all_stop_times_match(sts: Seq<StopTime>, ts: Seq<Trip>, hs: Seq<HeliumTrip>) -> bool
    decreases hs.len(),
{
    if hs.len() == 0 {
        sts.len() == 0
    } else {
        let k = sts.len() - subway_stop_times_spec(hs.last().stops@).len();
        &&& 0 <= k
        &&& subway_stop_times_match(sts.subrange(k, sts.len() as int), hs.last().stops@, ts.last().id)
        &&& all_stop_times_match(sts.subrange(0, k), ts.drop_last(), hs.drop_last())
    }
}

/// The positions of stored trips, trip by trip: one for each feed trip that
/// is at a stop, made for the trip stored for it.
pub open spec fn all_positions_match(ps: Seq<VehiclePosition>, ts: Seq<Trip>, hs: Seq<HeliumTrip>) -> bool
    decreases hs.len(),
{
    if hs.len() == 0 {
        ps.len() == 0
    } else {
        match current_stop(hs.last().stops@) {
            None => all_positions_match(ps, ts.drop_last(), hs.drop_last()),
            Some(_) => {
                &&& ps.len() > 0
                &&& subway_position_matches(Some(ps.last()), hs.last(), ts.last().id, ts.last().updated_at)
                &&& all_positions_match(ps.drop_last(), ts.drop_last(), hs.drop_last())
            },
        }
    }
}

/// The feed trips with a known direction, in order.
pub open spec fn known_trips(ts: Seq<HeliumTrip>) -> Seq<HeliumTrip>
    decreases ts.len(),
{
    if ts.len() == 0 {
        Seq::empty()
    } else if direction_code(ts.last().direction@) is Some {
        known_trips(ts.drop_last()).push(ts.last())
    } else {
        known_trips(ts.drop_last())
    }
}

/// Two stop times carry the same values.
pub open spec fn same_stop_time(a: StopTime, b: StopTime) -> bool {
    &&& a.trip_id == b.trip_id
    &&& a.stop_id@ == b.stop_id@
    &&& a.arrival == b.arrival
    &&& a.departure == b.departure
    &&& match (a.data, b.data) {
        (StopTimeData::MtaBus, StopTimeData::MtaBus) => true,
        (StopTimeData::NjtBus, StopTimeData::NjtBus) => true,
        (StopTimeData::MtaSubway(x), StopTimeData::MtaSubway(y)) => {
            &&& crate::ids::opt_string_view(x.scheduled_track) == crate::ids::opt_string_view(
                y.scheduled_track,
            )
            &&& crate::ids::opt_string_view(x.actual_track) == crate::ids::opt_string_view(
                y.actual_track,
            )
            &&& strings_view(x.platform_edges@) == strings_view(y.platform_edges@)
        },
        _ => false,
    }
}

/// A copy of a stop time.
pub fn clone_stop_time(st: &StopTime) -> (r: StopTime)
    ensures
        same_stop_time(r, *st),
{
    let data = match &st.data {
        StopTimeData::MtaBus => StopTimeData::MtaBus,
        StopTimeData::NjtBus => StopTimeData::NjtBus,
        StopTimeData::MtaSubway(d) => StopTimeData::MtaSubway(
            MtaSubwayStopTimeData {
                scheduled_track: crate::ids::clone_opt_string(&d.scheduled_track),
                actual_track: crate::ids::clone_opt_string(&d.actual_track),
                platform_edges: clone_strings(&d.platform_edges),
            },
        ),
    };
    StopTime {
        trip_id: st.trip_id,
        stop_id: st.stop_id.clone(),
        arrival: st.arrival,
        departure: st.departure,
        data,
    }
}

/// The stop times of a trip, in order.
pub open spec fn stop_times_of(sts: Seq<StopTime>, id: u128) -> Seq<StopTime> {
    sts.filter(|st: StopTime| st.trip_id == Some(id))
}

/// The stop times of the trip with id `id`, in order.
pub fn trip_stop_times(sts: &Vec<StopTime>, id: u128) -> (r: Vec<StopTime>)
    ensures
        r@.len() == stop_times_of(sts@, id).len(),
        forall|i: int| 0 <= i < r@.len() ==> same_stop_time(#[trigger] r@[i], stop_times_of(sts@, id)[i]),
{
    let mut out: Vec<StopTime> = Vec::new();
    let mut i: usize = 0;
    while i < sts.len()
        invariant
            i <= sts@.len(),
            out@.len() == stop_times_of(sts@.subrange(0, i as int), id).len(),
            forall|j: int|
                0 <= j < out@.len() ==> same_stop_time(
                    #[trigger] out@[j],
                    stop_times_of(sts@.subrange(0, i as int), id)[j],
                ),
        decreases sts.len() - i,
    {
        let ghost pre = sts@.subrange(0, i as int);
        let ghost cur = sts@.subrange(0, i + 1);
        assert(cur.drop_last() =~= pre);
        proof {
            reveal_with_fuel(Seq::<_>::filter, 1);
        }
        assert(stop_times_of(cur, id) == if sts@[i as int].trip_id == Some(id) {
            stop_times_of(pre, id).push(sts@[i as int])
        } else {
            stop_times_of(pre, id)
        });
        if sts[i].trip_id == Some(id) {
            let ghost o0 = out@;
            out.push(clone_stop_time(&sts[i]));
            assert forall|j: int| 0 <= j < out@.len() implies same_stop_time(
                #[trigger] out@[j],
                stop_times_of(cur, id)[j],
            ) by {
                if j < o0.len() {
                    assert(out@[j] == o0[j]);
                }
            }
        }
        i = i + 1;
    }
    assert(sts@.subrange(0, i as int) =~= sts@);
    out
}

/// Each trip paired with its stop times, in the order of the trips.
pub fn group_stop_times(trips: Vec<Trip>, sts: &Vec<StopTime>) -> (r: Vec<(Trip, Vec<StopTime>)>)
    ensures
        r@.len() == trips@.len(),
        forall|i: int|
            0 <= i < r@.len() ==> {
                &&& (#[trigger] r@[i]).0 == trips@[i]
                &&& r@[i].1@.len() == stop_times_of(sts@, trips@[i].id).len()
                &&& forall|j: int|
                    0 <= j < r@[i].1@.len() ==> same_stop_time(
                        #[trigger] r@[i].1@[j],
                        stop_times_of(sts@, trips@[i].id)[j],
                    )
            },
{
    let ghost all = trips@;
    let mut rest = trips;
    let mut out: Vec<(Trip, Vec<StopTime>)> = Vec::new();
    while rest.len() > 0
        invariant
            out@.len() + rest@.len() == all.len(),
            rest@ == all.subrange(out@.len() as int, all.len() as int),
            forall|i: int|
                0 <= i < out@.len() ==> {
                    &&& (#[trigger] out@[i]).0 == all[i]
                    &&& out@[i].1@.len() == stop_times_of(sts@, all[i].id).len()
                    &&& forall|j: int|
                        0 <= j < out@[i].1@.len() ==> same_stop_time(
                            #[trigger] out@[i].1@[j],
                            stop_times_of(sts@, all[i].id)[j],
                        )
                },
        decreases rest.len(),
    {
        let t = rest.remove(0);
        let group = trip_stop_times(sts, t.id);
        let ghost o0 = out@;
        out.push((t, group));
        assert forall|i: int| 0 <= i < out@.len() implies (#[trigger] out@[i]).0 == all[i] by {
            if i < o0.len() {
                assert(out@[i] == o0[i]);
            }
        }
        assert(rest@ =~= all.subrange(out@.len() as int, all.len() as int));
    }
    out
}

/// The id a lookup table gives for `k`: its first entry for `k`.
pub open spec fn id_lookup(m: Seq<(u128, u128)>, k: u128) -> Option<u128>
    decreases m.len(),
{
    if m.len() == 0 {
        None
    } else if m[0].0 == k {
        Some(m[0].1)
    } else {
        id_lookup(m.drop_first(), k)
    }
}

pub(crate) fn find_id(m: &Vec<(u128, u128)>, k: u128) -> (r: Option<u128>)
    ensures
        r == id_lookup(m@, k),
{
    let mut i: usize = 0;
    assert(m@.subrange(0, m@.len() as int) =~= m@);
    while i < m.len()
        invariant
            i <= m@.len(),
            id_lookup(m@, k) == id_lookup(m@.subrange(i as int, m@.len() as int), k),
        decreases m.len() - i,
    {
        let ghost rest = m@.subrange(i as int, m@.len() as int);
        if m[i].0 == k {
            assert(rest[0] == m@[i as int]);
            return Some(m[i].1);
        }
        assert(rest.drop_first() =~= m@.subrange(i + 1, m@.len() as int));
        i = i + 1;
    }
    None
}

/// Points each position's trip at the id its trip was stored under; a
/// position whose trip was dropped while storing loses its trip.
pub fn remap_position_trip_ids(positions: &mut Vec<VehiclePosition>, id_map: &Vec<(u128, u128)>)
    ensures
        final(positions)@.len() == old(positions)@.len(),
        forall|i: int|
            0 <= i < final(positions)@.len() ==> {
                &&& (#[trigger] final(positions)@[i]).trip_id == match old(positions)@[i].trip_id {
                    Some(t) => id_lookup(id_map@, t),
                    None => None,
                }
                &&& final(positions)@[i].vehicle_id == old(positions)@[i].vehicle_id
                &&& final(positions)@[i].stop_id == old(positions)@[i].stop_id
                &&& final(positions)@[i].updated_at == old(positions)@[i].updated_at
                &&& final(positions)@[i].geom == old(positions)@[i].geom
                &&& final(positions)@[i].data == old(positions)@[i].data
            },
{
    let ghost orig = positions@;
    let mut i: usize = 0;
    while i < positions.len()
        invariant
            i <= positions@.len(),
            positions@.len() == orig.len(),
            forall|j: int|
                0 <= j < positions@.len() ==> {
                    &&& (#[trigger] positions@[j]).trip_id == if j < i {
                        match orig[j].trip_id {
                            Some(t) => id_lookup(id_map@, t),
                            None => None,
                        }
                    } else {
                        orig[j].trip_id
                    }
                    &&& positions@[j].vehicle_id == orig[j].vehicle_id
                    &&& positions@[j].stop_id == orig[j].stop_id
                    &&& positions@[j].updated_at == orig[j].updated_at
                    &&& positions@[j].geom == orig[j].geom
                    &&& positions@[j].data == orig[j].data
                },
        decreases positions.len() - i,
    {
        let new_id = match positions[i].trip_id {
            Some(t) => find_id(id_map, t),
            None => None,
        };
        let mut p = positions.remove(i);
        p.trip_id = new_id;
        positions.insert(i, p);
        i = i + 1;
    }
}

} // verus!
