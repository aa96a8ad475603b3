//! Realtime trip updates of the MTA and NJ Transit bus feeds.
use vstd::prelude::*;

use crate::calendar::{
    ny_local_to_utc, ny_time_of, ny_time_of_day, ny_to_utc, parse_hms, parse_ymd, parsed_hms,
    parsed_ymd, CivilDate, TimeOfDay,
};
use crate::clock::{from_timestamp, new_id, now_unix, timestamp_in_range, utc_from_secs};
use crate::feed::{StopTimeEvent, StopTimeUpdate, TripUpdate};
use crate::ids::{
    clone_opt_string, find_char, opt_string_view, parse_prefixed_id, slice_chars,
    strip_agency_prefix, first_index, tail_from,
};
use crate::num::{parse_i32, parse_int_spec};
use crate::text::{str_chars, string_from_chars};

verus! {

/// MTA bus data of a trip.
pub struct MtaBusTripData {
    pub deviation: Option<i32>,
}

/// NJ Transit bus data of a trip.
pub struct NjtBusTripData {
    pub deviation: Option<i32>,
    pub headsign: String,
}

/// The length of a subway train.
#[derive(Clone, Copy, Debug, PartialEq, Eq, Structural)]
pub struct Consist {
    pub car_count: i32,
    pub car_length_feet: i32,
}

/// One car of a subway train.
#[derive(Clone, Debug)]
pub struct ConsistCar {
    pub number: String,
    pub car_type: Option<String>,
}

/// MTA subway data of a trip.
pub struct MtaSubwayTripData {
    pub consist: Option<Consist>,
    pub consist_cars: Vec<ConsistCar>,
}

/// Source-specific data of a trip.
pub enum TripData {
    MtaSubway(MtaSubwayTripData),
    MtaBus(MtaBusTripData),
    NjtBus(NjtBusTripData),
}

/// A realtime trip; instants are unix seconds.
pub struct Trip {
    pub id: u128,
    pub original_id: String,
    pub route_id: String,
    pub shape_ids: Vec<String>,
    pub direction: Option<i16>,
    pub created_at: i64,
    pub vehicle_id: String,
    pub updated_at: i64,
    pub data: TripData,
}

/// MTA subway data of a stop time.
#[derive(Clone, Debug)]
pub struct MtaSubwayStopTimeData {
    pub scheduled_track: Option<String>,
    pub actual_track: Option<String>,
    pub platform_edges: Vec<String>,
}

/// Source-specific data of a stop time.
#[derive(Clone, Debug)]
pub enum StopTimeData {
    MtaBus,
    NjtBus,
    MtaSubway(MtaSubwayStopTimeData),
}

/// The data of a bus stop time carries nothing.
pub open spec fn is_bus_data(d: StopTimeData) -> bool {
    d is MtaBus || d is NjtBus
}

fn copy_bus_data(d: &StopTimeData) -> (r: StopTimeData)
    requires
        is_bus_data(*d),
    ensures
        r == *d,
{
    match d {
        StopTimeData::NjtBus => StopTimeData::NjtBus,
        _ => StopTimeData::MtaBus,
    }
}

/// A predicted arrival and departure at a stop; instants are unix seconds.
pub struct StopTime {
    pub trip_id: Option<u128>,
    pub stop_id: String,
    pub arrival: i64,
    pub departure: i64,
    pub data: StopTimeData,
}

/// A scheduled trip from the static cache.
pub struct CachedTrip {
    pub route_id: String,
    pub direction_id: i16,
    pub headsign: String,
    pub start_time: i64,
}

impl CachedTrip {
    /// The start time is a representable instant.
    pub open spec fn wf(&self) -> bool {
        timestamp_in_range(self.start_time as int)
    }
}

/// The time of an event, or of the other event when it is absent.
pub open spec fn event_time(primary: Option<StopTimeEvent>, other: Option<StopTimeEvent>) -> Option<
    i64,
> {
    match primary {
        Some(a) => a.time,
        None => match other {
            Some(d) => d.time,
            None => None,
        },
    }
}

/// The stop id, arrival and departure kept from a stop time update: the
/// arrival falls back to the departure (first stop) and the departure to the
/// arrival (last stop); both must be present and representable.
pub open spec fn kept_stop_time(st: StopTimeUpdate) -> Option<(Seq<char>, i64, i64)> {
    match st.stop_id {
        None => None,
        Some(id) => match (event_time(st.arrival, st.departure), event_time(st.departure, st.arrival)) {
            (Some(a), Some(d)) => match (utc_from_secs(a as int), utc_from_secs(d as int)) {
                (Some(a), Some(d)) => Some((id@, a, d)),
                _ => None,
            },
            _ => None,
        },
    }
}

/// The stop times kept from a trip update's stop time updates, in order.
pub open spec fn kept_stop_times(sts: Seq<StopTimeUpdate>) -> Seq<(Seq<char>, i64, i64)>
    decreases sts.len(),
{
    if sts.len() == 0 {
        Seq::empty()
    } else {
        let prev = kept_stop_times(sts.drop_last());
        match kept_stop_time(sts.last()) {
            Some(x) => prev.push(x),
            None => prev,
        }
    }
}

/// The stored stop times match the kept stop time updates.
pub open spec fn stop_times_match(
    r: Seq<StopTime>,
    sts: Seq<StopTimeUpdate>,
    trip_id: Option<u128>,
    data: StopTimeData,
) -> bool {
    let k = kept_stop_times(sts);
    &&& r.len() == k.len()
    &&& forall|i: int|
        0 <= i < r.len() ==> (#[trigger] r[i]).stop_id@ == k[i].0 && r[i].arrival == k[i].1
            && r[i].departure == k[i].2 && r[i].trip_id == trip_id && r[i].data == data
}

/// The time of an event, or of the other event when it is absent.
pub fn event_time_exec(primary: &Option<StopTimeEvent>, other: &Option<StopTimeEvent>) -> (r: Option<i64>)
    ensures
        r == event_time(*primary, *other),
{
    match primary {
        Some(a) => a.time,
        None => match other {
            Some(d) => d.time,
            None => None,
        },
    }
}

/// The stop times of a bus trip update.
pub fn bus_stop_times(sts: &Vec<StopTimeUpdate>, trip_id: Option<u128>, data: StopTimeData) -> (r: Vec<
    StopTime,
>)
    requires
        is_bus_data(data),
    ensures
        stop_times_match(r@, sts@, trip_id, data),
{
    let mut r: Vec<StopTime> = Vec::new();
    let mut i: usize = 0;
    while i < sts.len()
        invariant
            i <= sts@.len(),
            stop_times_match(r@, sts@.subrange(0, i as int), trip_id, data),
            is_bus_data(data),
        decreases sts.len() - i,
    {
        let ghost pre = sts@.subrange(0, i as int);
        let ghost cur = sts@.subrange(0, i + 1);
        assert(cur.drop_last() =~= pre);
        let ghost r0 = r@;
        let st = &sts[i];
        if let Some(stop_id) = &st.stop_id {
            let a = event_time_exec(&st.arrival, &st.departure);
            let d = event_time_exec(&st.departure, &st.arrival);
            if let (Some(a), Some(d)) = (a, d) {
                if let (Some(a), Some(d)) = (from_timestamp(a), from_timestamp(d)) {
                    r.push(
                        StopTime {
                            trip_id,
                            stop_id: stop_id.clone(),
                            arrival: a,
                            departure: d,
                            data: copy_bus_data(&data),
                        },
                    );
                    assert forall|j: int| 0 <= j < r@.len() implies (#[trigger] r@[j]).stop_id@
                        == kept_stop_times(cur)[j].0 && r@[j].arrival == kept_stop_times(cur)[j].1
                        && r@[j].departure == kept_stop_times(cur)[j].2 && r@[j].trip_id == trip_id
                        && r@[j].data == data by {
                        if j < r0.len() {
                            assert(r@[j] == r0[j]);
                        }
                    }
                }
            }
        }
        i = i + 1;
    }
    assert(sts@.subrange(0, i as int) =~= sts@);
    r
}

/// The number that a bus trip id carries for its origin time, in hundredths
/// of a minute after midnight: the last `-`-separated field of the second
/// `_`-separated part, as an `i32` (e.g. `QV_A6-Weekday-SDon-070500_Q45_552`
/// gives 70500, that is 705 minutes, 11:45:00).
pub open spec fn bus_origin_number(trip_id: Seq<char>) -> Option<i32> {
    let k = first_index(trip_id, '_');
    if k >= trip_id.len() {
        None
    } else {
        let rest = tail_from(trip_id, k + 1);
        let part = rest.subrange(0, first_index(rest, '_'));
        match parse_int_spec(
            crate::ids::after_last(part, '-'),
            true,
            i32::MIN as int,
            i32::MAX as int,
        ) {
            Some(v) => Some(v as i32),
            None => None,
        }
    }
}

/// The origin-time number of a bus trip id (see `bus_origin_number`).
pub fn bus_trip_origin_number(trip_id: &str) -> (r: Option<i32>)
    ensures
        r == bus_origin_number(trip_id@),
{
    let chars = str_chars(trip_id);
    let k = find_char(&chars, '_');
    if k >= chars.len() {
        return None;
    }
    let rest = slice_chars(&chars, k + 1, chars.len());
    assert(rest@ == tail_from(trip_id@, k + 1));
    let k2 = find_char(&rest, '_');
    let part = slice_chars(&rest, 0, k2);
    let last = crate::ids::last_piece(&part, '-');
    parse_i32(&last)
}

/// The MTA bus realtime feed.
pub struct MtaBusRealtime;

/// Whether an MTA bus trip update yields a trip.
pub open spec fn mta_bus_trip_accepted(update: TripUpdate, origin: Option<TimeOfDay>) -> bool {
    let d = update.trip;
    &&& d.trip_id is Some
    &&& d.route_id is Some
    &&& update.vehicle is Some
    &&& update.vehicle.unwrap().id is Some
    &&& d.start_date is Some
    &&& parsed_ymd(d.start_date.unwrap()@) is Some
    &&& ny_to_utc(
        parsed_ymd(d.start_date.unwrap()@).unwrap(),
        match origin {
            Some(t) => t.secs,
            None => 0,
        },
    ) is Some
}

/// The trip and stop times of an MTA bus trip update, with trip id `id`
/// and the time `now`: a trip exactly when the update is accepted; ids of
/// routes and vehicles without their agency prefix; created at the start
/// date and origin time, New York time.
pub open spec fn mta_bus_trip_result(
    r: (Option<Trip>, Vec<StopTime>),
    update: TripUpdate,
    origin: Option<TimeOfDay>,
    id: u128,
    now: i64,
) -> bool {
    &&& (r.0 is Some <==> mta_bus_trip_accepted(update, origin))
    &&& r.0 is None ==> r.1@.len() == 0
    &&& r.0 matches Some(t) ==> {
        let d = update.trip;
        &&& t.id == id
        &&& t.original_id == d.trip_id.unwrap()
        &&& t.route_id@ == strip_agency_prefix(d.route_id.unwrap()@)
        &&& t.vehicle_id@ == strip_agency_prefix(update.vehicle.unwrap().id.unwrap()@)
        &&& t.direction == (match d.direction_id {
            Some(x) => Some(x as i16),
            None => None,
        })
        &&& Some(t.created_at) == ny_to_utc(
            parsed_ymd(d.start_date.unwrap()@).unwrap(),
            match origin {
                Some(o) => o.secs,
                None => 0,
            },
        )
        &&& t.updated_at == now
        &&& t.shape_ids@.len() == 0
        &&& t.data matches TripData::MtaBus(b) && b.deviation == update.delay
        &&& stop_times_match(r.1@, update.stop_time_update@, None, StopTimeData::MtaBus)
    }
}

impl MtaBusRealtime {
    /// The trip and stop times of an MTA bus trip update. `origin` is the
    /// origin time read from the trip id (midnight when unreadable), `id` the
    /// new trip's id and `now` the current time. The ids of routes and
    /// vehicles lose their agency prefix; the creation time is the start date
    /// at the origin time, New York time.
    pub fn process_trip_at(
        &self,
        update: TripUpdate,
        origin: Option<TimeOfDay>,
        id: u128,
        now: i64,
    ) -> (r: (Option<Trip>, Vec<StopTime>))
        ensures
            mta_bus_trip_result(r, update, origin, id, now),
    {
        let trip_desc = &update.trip;
        let mta_id = match &trip_desc.trip_id {
            Some(t) => t.clone(),
            None => return (None, Vec::new()),
        };
        let route_id = match &trip_desc.route_id {
            Some(r) => parse_prefixed_id(r.clone()),
            None => return (None, Vec::new()),
        };
        let vehicle = match &update.vehicle {
            Some(v) => v,
            None => return (None, Vec::new()),
        };
        let vehicle_id = match &vehicle.id {
            Some(v) => parse_prefixed_id(v.clone()),
            None => return (None, Vec::new()),
        };
        let direction: Option<i16> = match trip_desc.direction_id {
            Some(x) => Some(x as i16),
            None => None,
        };
        let start_date = match &trip_desc.start_date {
            Some(s) => match parse_ymd(s.as_str()) {
                Some(d) => d,
                None => return (None, Vec::new()),
            },
            None => return (None, Vec::new()),
        };
        let start_time = match origin {
            Some(t) => t,
            None => TimeOfDay::midnight(),
        };
        let created_at = match ny_local_to_utc(start_date, start_time) {
            Some(c) => c,
            None => return (None, Vec::new()),
        };
        let stop_times = bus_stop_times(&update.stop_time_update, None, StopTimeData::MtaBus);
        let trip = Trip {
            id,
            original_id: mta_id,
            route_id,
            shape_ids: Vec::new(),
            direction,
            created_at,
            vehicle_id,
            updated_at: now,
            data: TripData::MtaBus(MtaBusTripData { deviation: update.delay }),
        };
        (Some(trip), stop_times)
    }

    /// The trip and stop times of an MTA bus trip update (see
    /// `process_trip_at`), with a fresh id and the current time. The clock and
    /// the id are the outside world's: the result is `process_trip_at`'s for
    /// some id and time.
    pub fn process_trip(&self, update: TripUpdate, origin: Option<TimeOfDay>) -> (r: (Option<Trip>, Vec<StopTime>))
        ensures
            r.0 is Some <==> mta_bus_trip_accepted(update, origin),
            r.0 is None ==> r.1@.len() == 0,
            exists|id: u128, now: i64| #[trigger] mta_bus_trip_result(r, update, origin, id, now),
    {
        let id = new_id();
        let now = now_unix();
        let ghost u = update;
        let r = self.process_trip_at(update, origin, id, now);
        assert(mta_bus_trip_result(r, u, origin, id, now));
        r
    }
}

/// The NJ Transit bus realtime feed.
pub struct NjtBusRealtime;

/// The service date string of an NJ Transit trip update: its own, or today.
pub open spec fn njt_start_date(update: TripUpdate, today: Seq<char>) -> Seq<char> {
    match update.trip.start_date {
        Some(s) => s@,
        None => today,
    }
}

/// The route of an NJ Transit trip: the update's, else the cached trip's,
/// else empty.
pub open spec fn njt_route(update: TripUpdate, cached: Option<CachedTrip>) -> Seq<char> {
    match update.trip.route_id {
        Some(r) => r@,
        None => match cached {
            Some(c) => c.route_id@,
            None => Seq::empty(),
        },
    }
}

/// The time of day of the cached trip's start in New York, or midnight.
pub open spec fn cached_start(cached: Option<CachedTrip>) -> u32 {
    match cached {
        Some(c) => ny_time_of(c.start_time as int).secs,
        None => 0,
    }
}

/// The start time of an NJ Transit trip: the update's when chrono reads it,
/// else the cached trip's, else midnight.
pub open spec fn njt_start_secs(update: TripUpdate, cached: Option<CachedTrip>) -> u32 {
    match update.trip.start_time {
        Some(t) => match parsed_hms(t@) {
            Some(x) => x.secs,
            None => cached_start(cached),
        },
        None => cached_start(cached),
    }
}

/// The vehicle of an NJ Transit trip update: its id, else its label.
pub open spec fn njt_vehicle(update: TripUpdate) -> Option<Seq<char>> {
    match update.vehicle {
        Some(v) => match v.id {
            Some(i) => Some(i@),
            None => opt_string_view(v.label),
        },
        None => None,
    }
}

/// Whether an NJ Transit trip update yields a trip.
pub open spec fn njt_trip_accepted(update: TripUpdate, cached: Option<CachedTrip>, today: Seq<char>) -> bool {
    &&& update.trip.trip_id is Some
    &&& njt_route(update, cached).len() > 0
    &&& parsed_ymd(njt_start_date(update, today)) is Some
    &&& ny_to_utc(parsed_ymd(njt_start_date(update, today)).unwrap(), njt_start_secs(update, cached))
        is Some
    &&& njt_vehicle(update) is Some

}

/// The trip and stop times of an NJ Transit trip update, with trip id `id`
/// and the time `now`: a trip exactly when the update is accepted, its
/// missing fields filled from the static cache's trip; created at the start
/// date and time, New York time.
pub open spec fn njt_trip_result(
    r: (Option<Trip>, Vec<StopTime>),
    update: TripUpdate,
    cached: Option<CachedTrip>,
    today: Seq<char>,
    id: u128,
    now: i64,
) -> bool {
    &&& (r.0 is Some <==> njt_trip_accepted(update, cached, today))
    &&& r.0 is None ==> r.1@.len() == 0
    &&& r.0 matches Some(t) ==> {
        let d = update.trip;
        &&& t.id == id
        &&& t.original_id == d.trip_id.unwrap()
        &&& t.route_id@ == njt_route(update, cached)
        &&& t.vehicle_id@ == njt_vehicle(update).unwrap()
        &&& t.direction == Some(
            match d.direction_id {
                Some(x) => x as i16,
                None => match cached {
                    Some(c) => c.direction_id,
                    None => 0i16,
                },
            },
        )
        &&& Some(t.created_at) == ny_to_utc(
            parsed_ymd(njt_start_date(update, today)).unwrap(),
            njt_start_secs(update, cached),
        )
        &&& t.updated_at == now
        &&& t.shape_ids@.len() == 0
        &&& t.data matches TripData::NjtBus(b) && b.deviation == update.delay && b.headsign@ == (match cached {
            Some(c) => c.headsign@,
            None => Seq::<char>::empty(),
        })
        &&& stop_times_match(r.1@, update.stop_time_update@, Some(id), StopTimeData::NjtBus)
    }
}

impl NjtBusRealtime {
    /// The service date under which the static cache is searched for the
    /// update's trip.
    pub fn start_date_for(&self, update: &TripUpdate, today: &String) -> (r: String)
        ensures
            r@ == njt_start_date(*update, today@),
    {
        match &update.trip.start_date {
            Some(s) => s.clone(),
            None => today.clone(),
        }
    }

    /// The trip and stop times of an NJ Transit trip update, filling missing
    /// fields from the static cache's trip (`cached`); `today` is today's
    /// date in New York (`YYYYMMDD`), `id` the new trip's id and `now` the
    /// current time.
    pub fn process_trip_at(
        &self,
        update: TripUpdate,
        cached: Option<CachedTrip>,
        today: String,
        id: u128,
        now: i64,
    ) -> (r: (Option<Trip>, Vec<StopTime>))
        requires
            cached matches Some(c) ==> c.wf(),
        ensures
            njt_trip_result(r, update, cached, today@, id, now),
    {
        let trip_desc = &update.trip;
        let trip_id = match &trip_desc.trip_id {
            Some(t) => t.clone(),
            None => return (None, Vec::new()),
        };
        let start_date_str = self.start_date_for(&update, &today);
        let route_id = match &trip_desc.route_id {
            Some(r) => r.clone(),
            None => match &cached {
                Some(c) => c.route_id.clone(),
                None => String::new(),
            },
        };
        let route_chars = str_chars(route_id.as_str());
        if route_chars.len() == 0 {
            return (None, Vec::new());
        }
        let direction: i16 = match trip_desc.direction_id {
            Some(x) => x as i16,
            None => match &cached {
                Some(c) => c.direction_id,
                None => 0,
            },
        };
        let start_date = match parse_ymd(start_date_str.as_str()) {
            Some(d) => d,
            None => return (None, Vec::new()),
        };
        let from_cache = match &cached {
            Some(c) => ny_time_of_day(c.start_time),
            None => TimeOfDay::midnight(),
        };
        let start_time = match &trip_desc.start_time {
            Some(t) => match parse_hms(t.as_str()) {
                Some(x) => x,
                None => from_cache,
            },
            None => from_cache,
        };
        let created_at = match ny_local_to_utc(start_date, start_time) {
            Some(c) => c,
            None => return (None, Vec::new()),
        };
        let headsign = match &cached {
            Some(c) => c.headsign.clone(),
            None => String::new(),
        };
        let vehicle_id = match &update.vehicle {
            Some(v) => match &v.id {
                Some(i) => i.clone(),
                None => match &v.label {
                    Some(l) => l.clone(),
                    None => return (None, Vec::new()),
                },
            },
            None => return (None, Vec::new()),
        };
        let stop_times = bus_stop_times(&update.stop_time_update, Some(id), StopTimeData::NjtBus);
        let trip = Trip {
            id,
            original_id: trip_id,
            route_id,
            shape_ids: Vec::new(),
            direction: Some(direction),
            created_at,
            vehicle_id,
            updated_at: now,
            data: TripData::NjtBus(NjtBusTripData { deviation: update.delay, headsign }),
        };
        (Some(trip), stop_times)
    }

    /// The service date that an update without one is taken to have: today
    /// in New York, read from the clock, as `%Y%m%d` text. Nothing when the
    /// clock reads within a day of the ends of chrono's range, where that
    /// date cannot be read.
    pub fn today(&self) -> (r: Option<String>)
        ensures
            r matches Some(t) ==> exists|now: i64| #[trigger] crate::clock::local_date_in_range(now as int)
                && t@ == crate::calendar::ymd_text_of(crate::calendar::ny_date_of(now as int)),
    {
        let now = now_unix();
        if crate::clock::local_date_readable(now) {
            let t = crate::calendar::ny_date_text(now);
            assert(crate::clock::local_date_in_range(now as int));
            Some(t)
        } else {
            None
        }
    }

    /// The trip and stop times of an NJ Transit trip update (see
    /// `process_trip_at`), with a fresh id and the current time. A cached
    /// trip whose start is not a representable instant is not used: then
    /// nothing comes out. The clock and the id are the outside world's;
    /// whether a trip comes out does not depend on them.
    pub fn process_trip(&self, update: TripUpdate, cached: Option<CachedTrip>, today: String) -> (r: (
        Option<Trip>,
        Vec<StopTime>,
    ))
        ensures
            (cached matches Some(c) ==> c.wf()) ==> (r.0 is Some <==> njt_trip_accepted(update, cached, today@)),
            (cached matches Some(c) ==> c.wf()) ==> exists|id: u128, now: i64| #[trigger] njt_trip_result(
                r,
                update,
                cached,
                today@,
                id,
                now,
            ),
            !(cached matches Some(c) ==> c.wf()) ==> r.0 is None,
            r.0 is None ==> r.1@.len() == 0,
    {
        match &cached {
            Some(c) => {
                if !crate::clock::timestamp_valid(c.start_time) {
                    return (None, Vec::new());
                }
            },
            None => {},
        }
        let id = new_id();
        let now = now_unix();
        let ghost u = update;
        let ghost c = cached;
        let ghost t = today@;
        let r = self.process_trip_at(update, cached, today, id, now);
        assert(njt_trip_result(r, u, c, t, id, now));
        r
    }
}

/// The value a map filled in order keeps for `k`: the last one stored.
pub open spec fn last_value(m: Seq<(Seq<char>, u128)>, k: Seq<char>) -> Option<u128>
    decreases m.len(),
{
    if m.len() == 0 {
        None
    } else if m.last().0 == k {
        Some(m.last().1)
    } else {
        last_value(m.drop_last(), k)
    }
}

/// The keys and values of a list of `(String, id)` entries.
pub open spec fn entries_view(m: Seq<(String, u128)>) -> Seq<(Seq<char>, u128)> {
    Seq::new(m.len(), |i: int| (m[i].0@, m[i].1))
}

fn last_value_of(m: &Vec<(String, u128)>, k: &str) -> (r: Option<u128>)
    ensures
        r == last_value(entries_view(m@), k@),
{
    let kc = str_chars(k);
    let mut i: usize = m.len();
    assert(entries_view(m@).subrange(0, i as int) =~= entries_view(m@));
    while i > 0
        invariant
            i <= m@.len(),
            kc@ == k@,
            last_value(entries_view(m@), k@) == last_value(entries_view(m@).subrange(0, i as int), k@),
        decreases i,
    {
        let ghost pre = entries_view(m@).subrange(0, i as int);
        assert(pre.drop_last() =~= entries_view(m@).subrange(0, i - 1));
        assert(pre.last() == (m@[i - 1].0@, m@[i - 1].1));
        i = i - 1;
        let c = str_chars(m[i].0.as_str());
        if crate::text::chars_eq(c.as_slice(), kc.as_slice()) {
            return Some(m[i].1);
        }
    }
    None
}

/// The trip a bus position belongs to: the trip last seen with its vehicle
/// (`vehicle_trips` in feed order), under the id it was stored with
/// (`id_map`); none when either is unknown.
pub fn link_bus_position(vehicle_id: &str, vehicle_trips: &Vec<(String, u128)>, id_map: &Vec<(u128, u128)>) -> (r:
    Option<u128>)
    ensures
        r == match last_value(entries_view(vehicle_trips@), vehicle_id@) {
            Some(t) => crate::subway_realtime::id_lookup(id_map@, t),
            None => None,
        },
{
    match last_value_of(vehicle_trips, vehicle_id) {
        Some(t) => crate::subway_realtime::find_id(id_map, t),
        None => None,
    }
}

/// The index of the last record whose vehicle id, without its agency
/// prefix, is `vehicle_id`.
pub open spec fn last_record(ids: Seq<Seq<char>>, vehicle_id: Seq<char>) -> Option<int>
    decreases ids.len(),
{
    if ids.len() == 0 {
        None
    } else if strip_agency_prefix(ids.last()) == vehicle_id {
        Some(ids.len() - 1)
    } else {
        last_record(ids.drop_last(), vehicle_id)
    }
}

/// The texts of a list of strings.
pub open spec fn ids_view(v: Seq<String>) -> Seq<Seq<char>> {
    Seq::new(v.len(), |i: int| v[i]@)
}

/// The bus-tracker record of a vehicle: the last record whose vehicle id,
/// without its agency prefix, is the vehicle's (later records replace
/// earlier ones).
pub fn bus_record_index(record_ids: &Vec<String>, vehicle_id: &str) -> (r: Option<usize>)
    ensures
        match r {
            Some(i) => last_record(ids_view(record_ids@), vehicle_id@) == Some(i as int),
            None => last_record(ids_view(record_ids@), vehicle_id@) is None,
        },
{
    let vc = str_chars(vehicle_id);
    let mut i: usize = record_ids.len();
    assert(ids_view(record_ids@).subrange(0, i as int) =~= ids_view(record_ids@));
    while i > 0
        invariant
            i <= record_ids@.len(),
            vc@ == vehicle_id@,
            last_record(ids_view(record_ids@), vehicle_id@) == last_record(
                ids_view(record_ids@).subrange(0, i as int),
                vehicle_id@,
            ),
        decreases i,
    {
        let ghost pre = ids_view(record_ids@).subrange(0, i as int);
        assert(pre.drop_last() =~= ids_view(record_ids@).subrange(0, i - 1));
        assert(pre.last() == record_ids@[i - 1]@);
        i = i - 1;
        let stripped = parse_prefixed_id(record_ids[i].clone());
        let c = str_chars(stripped.as_str());
        if crate::text::chars_eq(c.as_slice(), vc.as_slice()) {
            return Some(i);
        }
    }
    None
}

/// Where a bus is, as its feed reports it; coordinates and bearing are `f32`
/// bit patterns.
pub struct BusReportedPosition {
    pub latitude: u32,
    pub longitude: u32,
    pub bearing: Option<u32>,
}

/// A vehicle report of a bus feed; `occupancy_status` is the value of the
/// feed's occupancy status (its default when the feed gives none).
pub struct BusVehicleReport {
    pub vehicle: Option<crate::feed::VehicleDescriptor>,
    pub position: Option<BusReportedPosition>,
    pub stop_id: Option<String>,
    pub timestamp: Option<u64>,
    pub occupancy_status: i32,
}

/// Source-specific data of a bus position. An MTA bus position carries its
/// bearing (an `f32` bit pattern); what the bus tracker adds later starts out
/// empty.
pub enum BusPositionData {
    MtaBus {
        bearing: u32,
        passengers: Option<i32>,
        capacity: Option<i32>,
        status: Option<String>,
        phase: Option<String>,
    },
    NjtBus { occupancy_status: i32 },
}

/// Where a bus is; `geom` is a `(longitude, latitude)` pair of `f32` bit
/// patterns and `trip_id` is set when the position is linked to its trip.
pub struct BusPosition {
    pub vehicle_id: String,
    pub trip_id: Option<u128>,
    pub stop_id: Option<String>,
    pub updated_at: i64,
    pub geom: (u32, u32),
    pub data: BusPositionData,
}

/// Whether a bus report is kept: it names its vehicle and gives a position.
pub open spec fn bus_report_kept(v: BusVehicleReport) -> bool {
    &&& v.vehicle matches Some(d) && d.id is Some
    &&& v.position is Some
}

/// The time of a bus report: its timestamp when representable, else `now`.
pub open spec fn report_time(v: BusVehicleReport, now: i64) -> i64 {
    match v.timestamp {
        Some(t) => match utc_from_secs((t as i64) as int) {
            Some(u) => u,
            None => now,
        },
        None => now,
    }
}

/// The fields that every stored bus position takes from its kept report.
pub open spec fn bus_position_common(p: BusPosition, v: BusVehicleReport, now: i64) -> bool {
    let pos = v.position.unwrap();
    &&& p.trip_id is None
    &&& opt_string_view(p.stop_id) == opt_string_view(v.stop_id)
    &&& p.updated_at == report_time(v, now)
    &&& p.geom == (pos.longitude, pos.latitude)
}

/// What the MTA bus feed stores of a kept report: the vehicle id without its
/// agency prefix, and the bearing (0.0 when absent).
pub open spec fn mta_bus_position(p: BusPosition, v: BusVehicleReport, now: i64) -> bool {
    let pos = v.position.unwrap();
    &&& bus_position_common(p, v, now)
    &&& p.vehicle_id@ == strip_agency_prefix(v.vehicle.unwrap().id.unwrap()@)
    &&& p.data == BusPositionData::MtaBus {
        bearing: match pos.bearing {
            Some(b) => b,
            None => 0u32,
        },
        passengers: None,
        capacity: None,
        status: None,
        phase: None,
    }
}

/// What the NJ Transit bus feed stores of a kept report: the vehicle id as
/// given, and the occupancy status.
pub open spec fn njt_bus_position(p: BusPosition, v: BusVehicleReport, now: i64) -> bool {
    &&& bus_position_common(p, v, now)
    &&& p.vehicle_id@ == v.vehicle.unwrap().id.unwrap()@
    &&& p.data == BusPositionData::NjtBus { occupancy_status: v.occupancy_status }
}

/// The time of a bus report (see `report_time`).
fn report_time_exec(timestamp: Option<u64>, now: i64) -> (r: i64)
    ensures
        r == match timestamp {
            Some(t) => match utc_from_secs((t as i64) as int) {
                Some(u) => u,
                None => now,
            },
            None => now,
        },
{
    match timestamp {
        Some(t) => match from_timestamp(t as i64) {
            Some(u) => u,
            None => now,
        },
        None => now,
    }
}

impl MtaBusRealtime {
    /// The stored position of a bus report, given the current time; none
    /// when the report names no vehicle or gives no position.
    pub fn process_vehicle_at(&self, vehicle: BusVehicleReport, now: i64) -> (r: Option<BusPosition>)
        ensures
            r is Some <==> bus_report_kept(vehicle),
            r matches Some(p) ==> mta_bus_position(p, vehicle, now),
    {
        let ghost v0 = vehicle;
        let BusVehicleReport { vehicle: desc, position, stop_id, timestamp, occupancy_status: _ } = vehicle;
        let id = match desc {
            Some(d) => match d.id {
                Some(i) => i,
                None => return None,
            },
            None => return None,
        };
        let vehicle_id = parse_prefixed_id(id);
        let pos = match position {
            Some(p) => p,
            None => return None,
        };
        let updated_at = report_time_exec(timestamp, now);
        let bearing: u32 = match pos.bearing {
            Some(b) => b,
            None => 0,
        };
        let r = BusPosition {
            vehicle_id,
            trip_id: None,
            stop_id,
            updated_at,
            geom: (pos.longitude, pos.latitude),
            data: BusPositionData::MtaBus {
                bearing,
                passengers: None,
                capacity: None,
                status: None,
                phase: None,
            },
        };
        assert(mta_bus_position(r, v0, now));
        Some(r)
    }

    /// The stored position of a bus report (see `process_vehicle_at`),
    /// stamped with the clock's time when the report has no usable one.
    pub fn process_vehicle(&self, vehicle: BusVehicleReport) -> (r: Option<BusPosition>)
        ensures
            r is Some <==> bus_report_kept(vehicle),
            r matches Some(p) ==> exists|now: i64| #[trigger] mta_bus_position(p, vehicle, now),
    {
        let now = now_unix();
        self.process_vehicle_at(vehicle, now)
    }
}

impl NjtBusRealtime {
    /// The stored position of a bus report, given the current time; none
    /// when the report names no vehicle or gives no position.
    pub fn process_vehicle_at(&self, vehicle: BusVehicleReport, now: i64) -> (r: Option<BusPosition>)
        ensures
            r is Some <==> bus_report_kept(vehicle),
            r matches Some(p) ==> njt_bus_position(p, vehicle, now),
    {
        let ghost v0 = vehicle;
        let BusVehicleReport { vehicle: desc, position, stop_id, timestamp, occupancy_status } = vehicle;
        let vehicle_id = match desc {
            Some(d) => match d.id {
                Some(i) => i,
                None => return None,
            },
            None => return None,
        };
        let pos = match position {
            Some(p) => p,
            None => return None,
        };
        let updated_at = report_time_exec(timestamp, now);
        let r = BusPosition {
            vehicle_id,
            trip_id: None,
            stop_id,
            updated_at,
            geom: (pos.longitude, pos.latitude),
            data: BusPositionData::NjtBus { occupancy_status },
        };
        assert(njt_bus_position(r, v0, now));
        Some(r)
    }

    /// The stored position of a bus report (see `process_vehicle_at`),
    /// stamped with the clock's time when the report has no usable one.
    pub fn process_vehicle(&self, vehicle: BusVehicleReport) -> (r: Option<BusPosition>)
        ensures
            r is Some <==> bus_report_kept(vehicle),
            r matches Some(p) ==> exists|now: i64| #[trigger] njt_bus_position(p, vehicle, now),
    {
        let now = now_unix();
        self.process_vehicle_at(vehicle, now)
    }
}

/// A bus position with what the bus tracker reports of its vehicle: the
/// passengers, capacity, status and phase of an MTA bus position are
/// replaced; any other position is returned as it was.
pub fn with_tracker_data(
    p: BusPosition,
    passengers: Option<i32>,
    capacity: Option<i32>,
    status: String,
    phase: String,
) -> (r: BusPosition)
    ensures
        r.vehicle_id == p.vehicle_id,
        r.trip_id == p.trip_id,
        r.stop_id == p.stop_id,
        r.updated_at == p.updated_at,
        r.geom == p.geom,
        r.data == match p.data {
            BusPositionData::MtaBus { bearing, .. } => BusPositionData::MtaBus {
                bearing,
                passengers,
                capacity,
                status: Some(status),
                phase: Some(phase),
            },
            other => other,
        },
{
    let BusPosition { vehicle_id, trip_id, stop_id, updated_at, geom, data } = p;
    let data = match data {
        BusPositionData::MtaBus { bearing, .. } => BusPositionData::MtaBus {
            bearing,
            passengers,
            capacity,
            status: Some(status),
            phase: Some(phase),
        },
        other => other,
    };
    BusPosition { vehicle_id, trip_id, stop_id, updated_at, geom, data }
}

} // verus!
