use trainstatus::models::StopType;
use trainstatus::feed::{
    NyctTripDescriptor, StopTimeEvent, StopTimeUpdate, TripDescriptor, TripUpdate, VehiclePosition,
};
use trainstatus::params::{parse_int_list, parse_list};
use trainstatus::realtime::{bus_record_index, link_bus_position};
use trainstatus::rt_train::{
    trip_of_update, try_trip_of_update, try_vehicle_trip_position, update_stop_times,
    vehicle_trip_position,
};
use trainstatus::mta_bus_static::{compass_direction_of, prefixed_numbers};
use trainstatus::models::CompassDirection;
use trainstatus::subway_stations::{
    borough_of, convert_stop_id, Borough,
    dedup_stations, empty_to_none, keep_transfers, nearby_stop_ids, parse_ada, remove_prefix,
    route_stop_rows, station_headsigns, stop_type_from_code, stop_rows, NearbyGroup, NearbyStation, NearbyStop, Station,
    StationTime, Transfer,
};
use trainstatus::subway_times::{times_trip_of_update, try_times_trip_of_update};

fn station(id: &str, name: &str) -> Station {
    Station {
        route_id: "A".to_string(),
        stop_sequence: 3,
        stop_id: id.to_string(),
        stop_name: name.to_string(),
        stop_type: 0,
        ada: true,
        notes: None,
        borough: "M".to_string(),
    }
}

fn transfer(from: &str, to: &str) -> Transfer {
    Transfer { from_stop_id: from.to_string(), to_stop_id: to.to_string() }
}

fn ny(y: i32, m: u32, d: u32, secs: u32) -> i64 {
    chrono::NaiveDate::from_ymd_opt(y, m, d)
        .unwrap()
        .and_hms_opt(secs / 3600, secs / 60 % 60, secs % 60)
        .unwrap()
        .and_local_timezone(chrono_tz::America::New_York)
        .single()
        .unwrap()
        .timestamp()
}

fn stop_update(stop: &str, arrival: Option<i64>) -> StopTimeUpdate {
    StopTimeUpdate {
        stop_id: Some(stop.to_string()),
        arrival: arrival.map(|t| StopTimeEvent { time: Some(t) }),
        departure: None,
    }
}

fn descriptor(direction: Option<i32>) -> TripDescriptor {
    TripDescriptor {
        trip_id: Some("072350_A..S58R".to_string()),
        route_id: Some("A".to_string()),
        direction_id: None,
        start_time: None,
        start_date: Some("20240301".to_string()),
        nyct_trip_descriptor: Some(NyctTripDescriptor {
            train_id: Some("1A 1203+ 207/LEF".to_string()),
            is_assigned: None,
            direction,
        }),
    }
}

#[test]
fn station_values_are_read_like_the_schedule_service_writes_them() {
    assert_eq!(remove_prefix("MTASBWY:A27"), Some("A27".to_string()));
    assert_eq!(remove_prefix("a:b:c"), Some("b:c".to_string()));
    assert_eq!(remove_prefix("A27"), None);
    assert_eq!(parse_ada("1"), Some(true));
    assert_eq!(parse_ada("2"), Some(true));
    assert_eq!(parse_ada("0"), Some(false));
    assert_eq!(parse_ada("3"), None);
    assert_eq!(empty_to_none(String::new()), None);
    assert_eq!(empty_to_none("x".to_string()), Some("x".to_string()));
}

#[test]
fn transfers_skip_self_and_south_ferry_loop() {
    let kept = keep_transfers(&vec![
        transfer("A27", "A27"),
        transfer("140", "142"),
        transfer("142", "140"),
        transfer("A27", "A28"),
    ]);
    assert_eq!(kept.len(), 1);
    assert_eq!((kept[0].from_stop_id.as_str(), kept[0].to_stop_id.as_str()), ("A27", "A28"));
}

#[test]
fn route_stops_carry_the_requested_route() {
    let rows = route_stop_rows("FS", &vec![station("S01", "Franklin")]);
    assert_eq!(rows.len(), 1);
    assert_eq!(rows[0].route_id, "FS");
    assert_eq!(rows[0].stop_id, "S01");
    assert_eq!(rows[0].stop_sequence, 3);
    assert_eq!(rows[0].stop_type, StopType::FullTime);
}

#[test]
fn stop_type_codes_name_how_a_route_serves_a_station() {
    let mut rush_one_way = station("A27", "x");
    rush_one_way.stop_type = 3;
    let mut rush = station("A28", "y");
    rush.stop_type = 4;
    let rows = route_stop_rows("A", &vec![rush_one_way, rush]);
    assert_eq!(rows[0].stop_type, StopType::RushHourOneDirection);
    assert_eq!(rows[1].stop_type, StopType::RushHour);
    assert_eq!(stop_type_from_code(1), Some(StopType::PartTime));
    assert_eq!(stop_type_from_code(2), Some(StopType::LateNight));
    assert_eq!(stop_type_from_code(5), None);
}

#[test]
fn stations_are_sorted_and_deduplicated_keeping_the_first() {
    let out = dedup_stations(vec![
        station("B", "first b"),
        station("A", "a"),
        station("B", "second b"),
    ]);
    let ids: Vec<&str> = out.iter().map(|s| s.stop_id.as_str()).collect();
    assert_eq!(ids, vec!["A", "B"]);
    assert_eq!(out[1].stop_name, "first b");
    assert!(dedup_stations(vec![]).is_empty());
}

#[test]
fn nearby_request_lists_prefixed_ids() {
    let param = nearby_stop_ids(&vec![station("A27", "x"), station("101", "y")]);
    assert_eq!(param, "MTASBWY:A27,MTASBWY:101");
    assert_eq!(nearby_stop_ids(&vec![]), "");
}

fn nearby() -> NearbyStation {
    let group = |headsign: &str, ids: &[&str]| NearbyGroup {
        headsign: headsign.to_string(),
        times: ids.iter().map(|i| StationTime { stop_id: i.to_string() }).collect(),
    };
    NearbyStation {
        groups: vec![group("Inwood", &["A27N"]), group("Far Rockaway", &["A27S", "A27N"]), group("Lefferts", &["A27S"])],
        stop: NearbyStop { id: "A27".to_string(), name: "x".to_string(), lat: 1, lon: 2 },
    }
}

#[test]
fn headsigns_come_from_the_first_group_per_direction() {
    let h = station_headsigns(&nearby());
    assert_eq!(h.north, "Inwood");
    assert_eq!(h.south, "Far Rockaway");
    assert_eq!((h.lat, h.lon), (1, 2));
    let empty = NearbyStation { groups: vec![], stop: nearby().stop };
    let h = station_headsigns(&empty);
    assert_eq!(h.north, "Northbound");
    assert_eq!(h.south, "Southbound");
}

#[test]
fn stop_rows_join_headsigns_and_transfers() {
    let heads = vec![station_headsigns(&nearby())];
    let rows = stop_rows(
        &vec![station("A27", "42 St")],
        &heads,
        &vec![transfer("127", "A27"), transfer("A27", "127"), transfer("725", "A27")],
    );
    assert_eq!(rows.len(), 1);
    assert_eq!(rows[0].name, "42 St");
    assert_eq!(rows[0].north_headsign, "Inwood");
    assert_eq!(rows[0].transfers, vec!["127".to_string(), "725".to_string()]);
}

#[test]
fn list_parameters_split_on_commas() {
    assert_eq!(parse_list("A,B,,C"), vec!["A", "B", "", "C"]);
    assert_eq!(parse_list(""), vec![""]);
    assert_eq!(parse_list("A27").join(","), "A27");
    assert_eq!(parse_int_list("1,-2,3"), Some(vec![1, -2, 3]));
    assert_eq!(parse_int_list("1,x"), None);
    assert_eq!(parse_int_list(""), None);
}

#[test]
fn update_trip_takes_direction_from_first_stop() {
    let sts = vec![stop_update("A27S", Some(1_700_000_000)), stop_update("F17S", None)];
    let trip = trip_of_update(descriptor(None), &sts, 5).unwrap();
    assert_eq!(trip.direction, Some(0));
    assert_eq!(trip.created_at, ny(2024, 3, 1, 12 * 3600 + 3 * 60));
    assert!(trip_of_update(descriptor(None), &vec![], 5).is_none());
    let trip = trip_of_update(descriptor(Some(1)), &vec![], 5).unwrap();
    assert_eq!(trip.direction, Some(1));
    let times = update_stop_times(&sts, &trip);
    assert_eq!(times.len(), 1);
    assert_eq!(times[0].stop_id, "A27");
    assert_eq!(times[0].trip_id, 5);
}

#[test]
fn vehicle_position_keeps_real_stops() {
    let v = VehiclePosition {
        trip: Some(descriptor(None)),
        current_status: Some(1),
        current_stop_sequence: Some(7),
        timestamp: Some(1_700_000_000),
        stop_id: Some("A27N".to_string()),
    };
    let (trip, pos) = vehicle_trip_position(v, 9).unwrap();
    assert_eq!(trip.direction, Some(1));
    assert_eq!(pos.stop_id, "A27");
    assert_eq!(pos.train_status, Some(1));
    assert_eq!(pos.current_stop_sequence, Some(7));
    assert_eq!(pos.updated_at, 1_700_000_000);
    let fake = VehiclePosition {
        trip: Some(descriptor(None)),
        current_status: None,
        current_stop_sequence: None,
        timestamp: Some(1_700_000_000),
        stop_id: Some("F17N".to_string()),
    };
    assert!(vehicle_trip_position(fake, 9).is_none());
}

fn times_update(first_stop: &str) -> TripUpdate {
    TripUpdate {
        trip: TripDescriptor {
            trip_id: Some("072350_A..S58R".to_string()),
            route_id: Some("SS".to_string()),
            direction_id: None,
            start_time: None,
            start_date: Some("20240301".to_string()),
            nyct_trip_descriptor: None,
        },
        vehicle: None,
        stop_time_update: vec![
            stop_update(first_stop, Some(1_700_000_000)),
            stop_update("S12N", None),
            stop_update("F17N", None),
        ],
        delay: None,
    }
}

#[test]
fn times_trip_names_trips_by_their_start() {
    let (trip, ups) = times_trip_of_update(&times_update("S31N")).unwrap();
    assert_eq!(trip.route_id, "SI");
    assert_eq!(trip.direction, 1);
    assert_eq!(trip.created_at, ny(2024, 3, 1, 12 * 3600 + 3 * 60));
    let name = "20240301 12:03:00 072350_A..S58R SI 1";
    let expected = uuid::Uuid::new_v5(&uuid::Uuid::NAMESPACE_OID, name.as_bytes()).as_u128();
    assert_eq!(trip.id, expected);
    let again = times_trip_of_update(&times_update("S31N")).unwrap().0;
    assert_eq!(again.id, trip.id);
    // S12 was not on the trip-times import's list of non-existent stops.
    let stops: Vec<&str> = ups.iter().map(|u| u.stop_id.as_str()).collect();
    assert_eq!(stops, vec!["S31", "S12"]);
    assert_eq!(ups[0].arrival, Some(1_700_000_000));
    assert_eq!(ups[1].arrival, None);
    assert!(times_trip_of_update(&times_update("F17N")).is_none());
}

#[test]
fn bus_positions_link_to_the_stored_trip() {
    let vehicle_trips = vec![("1234".to_string(), 1u128), ("1234".to_string(), 2u128), ("99".to_string(), 3u128)];
    let id_map = vec![(2u128, 20u128), (3u128, 30u128)];
    assert_eq!(link_bus_position("1234", &vehicle_trips, &id_map), Some(20));
    assert_eq!(link_bus_position("99", &vehicle_trips, &id_map), Some(30));
    assert_eq!(link_bus_position("5", &vehicle_trips, &id_map), None);
    let records = vec!["MTA NYCT_1234".to_string(), "MTABC_77".to_string(), "MTA NYCT_1234".to_string()];
    assert_eq!(bus_record_index(&records, "1234"), Some(2));
    assert_eq!(bus_record_index(&records, "77"), Some(1));
    assert_eq!(bus_record_index(&records, "MTABC_77"), None);
}

#[test]
fn checked_variants_refuse_what_would_stop_the_import() {
    // East and west directions are not used by the subway.
    assert!(try_trip_of_update(descriptor(Some(2)), &vec![], 1).is_none());
    // Without a direction, the first stop id must carry one.
    assert!(try_trip_of_update(descriptor(None), &vec![stop_update("A27", None)], 1).is_none());
    assert!(try_trip_of_update(descriptor(None), &vec![stop_update("A27S", None)], 1).unwrap().is_some());
    let v = VehiclePosition {
        trip: Some(descriptor(None)),
        current_status: None,
        current_stop_sequence: None,
        timestamp: Some(9_000_000_000_000_000),
        stop_id: Some("A27N".to_string()),
    };
    assert!(try_vehicle_trip_position(v, 1).is_none());
    let mut u = times_update("S31N");
    u.stop_time_update[0].stop_id = Some("S31".to_string());
    assert!(try_times_trip_of_update(&u).is_none());
    let mut u = times_update("S31N");
    u.stop_time_update[1].stop_id = None;
    assert!(try_times_trip_of_update(&u).is_none());
    assert!(try_times_trip_of_update(&times_update("F17N")).unwrap().is_none());
}

#[test]
fn station_ids_become_numbers_by_code_point() {
    assert_eq!(convert_stop_id("A27"), Some(6527));
    assert_eq!(convert_stop_id("101"), Some(101));
    assert_eq!(convert_stop_id("F17"), None);
    assert_eq!(convert_stop_id("A02"), Some(6502));
    assert_eq!(convert_stop_id(""), None, "an invalid id");
    assert_eq!(convert_stop_id("ZZZZZZ"), None, "a number beyond i32");
    assert_eq!(convert_stop_id("\u{0663}1"), None, "a numeric character that is no ASCII digit");
}

#[test]
fn boroughs_and_bus_directions_are_named() {
    assert_eq!(borough_of("Staten Island"), Some(Borough::StatenIsland));
    assert_eq!(borough_of("Bronx"), Some(Borough::Bronx));
    assert_eq!(borough_of("bronx"), None);
    assert_eq!(compass_direction_of("NE"), CompassDirection::NE);
    assert_eq!(compass_direction_of("S"), CompassDirection::S);
    assert_eq!(compass_direction_of("north"), CompassDirection::Unknown);
    assert_eq!(prefixed_numbers(&vec!["MTA_302434".to_string(), "MTABC_7".to_string()]), Some(vec![302434, 7]));
    assert_eq!(prefixed_numbers(&vec!["302434".to_string()]), None);
    assert_eq!(prefixed_numbers(&vec!["MTA_x".to_string()]), None);
}
