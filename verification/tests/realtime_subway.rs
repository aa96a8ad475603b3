use trainstatus::calendar::TimeOfDay;
use trainstatus::realtime::{StopTime, StopTimeData, Trip, TripData};
use trainstatus::subway_realtime::{
    created_at_from_trip_id, find_current_stop, group_stop_times, helium_direction,
    parse_trip_origin, remap_position_trip_ids, service_day_shift, subway_stop_times,
    HeliumConsist, HeliumTrip, HeliumTripStop, MtaSubwayPositionData, MtaSubwayRealtime,
    PositionData, VehiclePosition,
};
use trainstatus::source::Source;

fn stop(station_id: i32, at: i64, status: &str) -> HeliumTripStop {
    HeliumTripStop {
        station_id,
        platform_edges: vec!["a1".to_string()],
        est_arrive_at: at,
        stop_status: status.to_string(),
    }
}

fn helium_trip(direction: &str, stops: Vec<HeliumTripStop>) -> HeliumTrip {
    HeliumTrip {
        route_id: "A".to_string(),
        direction: direction.to_string(),
        trip_id: "01 1845+ 242/SFT".to_string(),
        shape_segment_ids: vec!["seg1".to_string(), "seg2".to_string()],
        is_assigned: true,
        is_delayed: false,
        estimated_longitude: Some((-73.99f64).to_bits()),
        estimated_latitude: Some((40.75f64).to_bits()),
        headsign: "Far Rockaway".to_string(),
        consist: Some(HeliumConsist { car_count: 8, car_length_feet: 75 }),
        stops,
        source: "feed".to_string(),
        updated_at: Some(1_700_000_000),
        consist_cars: vec![],
    }
}

#[test]
fn feed_directions_map_to_codes() {
    assert_eq!(helium_direction("NORTH"), Some(1));
    assert_eq!(helium_direction("EAST"), Some(2));
    assert_eq!(helium_direction("SOUTH"), Some(3));
    assert_eq!(helium_direction("WEST"), Some(4));
    assert_eq!(helium_direction("north"), None);
    assert_eq!(helium_direction(""), None);
}

#[test]
fn trip_origin_is_read_from_the_second_word() {
    assert_eq!(parse_trip_origin("01 1845+ 242/SFT"), Some(TimeOfDay { secs: 18 * 3600 + 45 * 60 + 30 }));
    assert_eq!(parse_trip_origin("01 0000 242/SFT"), Some(TimeOfDay { secs: 0 }));
    assert_eq!(parse_trip_origin("01 2400 242/SFT"), None);
    assert_eq!(parse_trip_origin("01 0960 242/SFT"), None);
    assert_eq!(parse_trip_origin("01 845 242/SFT"), None);
    assert_eq!(parse_trip_origin("0118452"), None);
}

#[test]
fn service_day_shift_moves_only_far_times() {
    assert_eq!(service_day_shift(0, 0), 0);
    assert_eq!(service_day_shift(7 * 3600, 0), -1);
    assert_eq!(service_day_shift(7 * 3600 - 1, 0), 0);
    assert_eq!(service_day_shift(-19 * 3600, 0), 1);
    assert_eq!(service_day_shift(-19 * 3600 + 1, 0), 0);
}

fn ny(y: i32, m: u32, d: u32, secs: u32) -> i64 {
    chrono::NaiveDate::from_ymd_opt(y, m, d)
        .unwrap()
        .and_hms_opt(secs / 3600, secs / 60 % 60, secs % 60)
        .unwrap()
        .and_local_timezone(chrono_tz::America::New_York)
        .single()
        .unwrap()
        .timestamp()
}

#[test]
fn created_at_uses_today_in_new_york() {
    // 2024-03-01 12:00 in New York is 17:00 UTC.
    let noon = ny(2024, 3, 1, 12 * 3600);
    assert_eq!(noon, 1_709_312_400);
    assert_eq!(created_at_from_trip_id("01 1000 242/SFT", noon), Some(ny(2024, 3, 1, 10 * 3600)));
    // 23:30 read at noon is more than six hours ahead: yesterday's service.
    assert_eq!(
        created_at_from_trip_id("01 2330 242/SFT", noon),
        Some(ny(2024, 2, 29, 23 * 3600 + 30 * 60))
    );
    // 00:10 read late in the evening is far behind: tomorrow's service.
    let late = ny(2024, 3, 1, 23 * 3600 + 50 * 60);
    assert_eq!(created_at_from_trip_id("01 0010 242/SFT", late), Some(ny(2024, 3, 2, 10 * 60)));
    assert_eq!(created_at_from_trip_id("no-time", noon), None);
    assert!(!trainstatus::clock::local_date_readable(i64::MAX), "beyond chrono's dates");
    assert!(!trainstatus::clock::local_date_readable(-8_334_601_315_200), "New York's date would precede chrono's first");
    assert!(trainstatus::clock::local_date_readable(noon));
}

#[test]
fn stop_times_keep_representable_arrivals() {
    let stops = vec![stop(101, 1_700_000_100, "SCHEDULED"), stop(102, i64::MAX, "SCHEDULED")];
    let sts = subway_stop_times(&stops, 9);
    assert_eq!(sts.len(), 1);
    assert_eq!(sts[0].stop_id, "101");
    assert_eq!(sts[0].trip_id, Some(9));
    assert_eq!(sts[0].arrival, 1_700_000_100);
    assert_eq!(sts[0].departure, 1_700_000_100);
    match &sts[0].data {
        StopTimeData::MtaSubway(d) => assert_eq!(d.platform_edges, vec!["a1".to_string()]),
        _ => panic!("subway stop time data expected"),
    }
}

#[test]
fn current_stop_is_first_en_route_or_at_stop() {
    let stops = vec![
        stop(1, 10, "DEPARTED"),
        stop(2, 20, "AT_STOP"),
        stop(3, 30, "EN_ROUTE"),
    ];
    assert_eq!(find_current_stop(&stops), Some(1));
    assert_eq!(find_current_stop(&vec![stop(1, 10, "DEPARTED")]), None);
}

#[test]
fn process_trip_builds_trip_stop_times_and_position() {
    let h = helium_trip("SOUTH", vec![stop(101, 1_700_000_100, "EN_ROUTE")]);
    let (trip, sts, pos) = MtaSubwayRealtime.process_trip_at(&h, Some(5), 42, 1_800_000_000).unwrap();
    assert_eq!(trip.id, 42);
    assert_eq!(trip.direction, Some(3));
    assert_eq!(trip.created_at, 5);
    assert_eq!(trip.updated_at, 1_700_000_000);
    assert_eq!(trip.original_id, "01 1845+ 242/SFT");
    assert_eq!(trip.shape_ids, vec!["seg1".to_string(), "seg2".to_string()]);
    match &trip.data {
        TripData::MtaSubway(d) => {
            let c = d.consist.unwrap();
            assert_eq!((c.car_count, c.car_length_feet), (8, 75));
        }
        _ => panic!("subway trip data expected"),
    }
    assert_eq!(sts.len(), 1);
    let pos = pos.unwrap();
    assert_eq!(pos.stop_id, Some("101".to_string()));
    assert_eq!(pos.trip_id, Some(42));
    assert_eq!(pos.updated_at, 1_700_000_000);
    match pos.data {
        PositionData::MtaSubway(d) => {
            assert!(d.assigned);
            assert_eq!(d.status, Some("EN_ROUTE".to_string()));
        }
    }
}

#[test]
fn unassigned_trip_is_updated_now_and_unknown_direction_is_skipped() {
    let mut h = helium_trip("NORTH", vec![]);
    h.is_assigned = false;
    let (trip, _, pos) = MtaSubwayRealtime.process_trip_at(&h, None, 1, 1_800_000_000).unwrap();
    assert_eq!(trip.updated_at, 1_800_000_000);
    assert_eq!(trip.created_at, 1_800_000_000);
    assert!(pos.is_none());
    let h = helium_trip("UP", vec![]);
    assert!(MtaSubwayRealtime.process_trip_at(&h, None, 1, 1_800_000_000).is_none());
}

#[test]
fn process_keeps_known_trips_in_order() {
    let trips = vec![
        helium_trip("NORTH", vec![]),
        helium_trip("UP", vec![]),
        helium_trip("WEST", vec![]),
    ];
    let (out, _, _) = MtaSubwayRealtime.process(&trips);
    assert_eq!(out.len(), 2);
    assert_eq!(out[0].direction, Some(1));
    assert_eq!(out[1].direction, Some(4));
    assert_eq!(MtaSubwayRealtime.source(), Source::MtaSubway);
    assert_eq!(MtaSubwayRealtime.refresh_interval_secs(), 30);
}

fn plain_trip(id: u128) -> Trip {
    Trip {
        id,
        original_id: format!("t{id}"),
        route_id: "A".to_string(),
        shape_ids: vec![],
        direction: Some(1),
        created_at: 0,
        vehicle_id: format!("t{id}"),
        updated_at: 0,
        data: TripData::MtaBus(trainstatus::realtime::MtaBusTripData { deviation: None }),
    }
}

fn plain_stop_time(trip: u128, stop: &str) -> StopTime {
    StopTime { trip_id: Some(trip), stop_id: stop.to_string(), arrival: 1, departure: 2, data: StopTimeData::MtaBus }
}

#[test]
fn stop_times_are_grouped_under_their_trips() {
    let trips = vec![plain_trip(1), plain_trip(2)];
    let sts = vec![plain_stop_time(2, "x"), plain_stop_time(1, "y"), plain_stop_time(2, "z")];
    let groups = group_stop_times(trips, &sts);
    assert_eq!(groups.len(), 2);
    assert_eq!(groups[0].0.id, 1);
    assert_eq!(groups[0].1.len(), 1);
    assert_eq!(groups[0].1[0].stop_id, "y");
    assert_eq!(groups[1].1.len(), 2);
    assert_eq!(groups[1].1[0].stop_id, "x");
    assert_eq!(groups[1].1[1].stop_id, "z");
}

#[test]
fn positions_follow_the_stored_trip_ids() {
    let pos = |trip: Option<u128>| VehiclePosition {
        vehicle_id: "v".to_string(),
        trip_id: trip,
        stop_id: None,
        updated_at: 0,
        geom: None,
        data: PositionData::MtaSubway(MtaSubwayPositionData { assigned: true, status: None }),
    };
    let mut positions = vec![pos(Some(1)), pos(Some(2)), pos(None)];
    remap_position_trip_ids(&mut positions, &vec![(1, 10), (3, 30)]);
    assert_eq!(positions[0].trip_id, Some(10));
    assert_eq!(positions[1].trip_id, None);
    assert_eq!(positions[2].trip_id, None);
}
