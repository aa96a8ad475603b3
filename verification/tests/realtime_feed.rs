use trainstatus::calendar::TimeOfDay;
use trainstatus::feed::{
    NyctTripDescriptor, StopTimeEvent, StopTimeUpdate, TripDescriptor, TripUpdate, VehicleDescriptor,
};
use trainstatus::realtime::{
    bus_stop_times, bus_trip_origin_number, event_time_exec, BusPositionData, BusReportedPosition,
    BusVehicleReport, CachedTrip, MtaBusRealtime, NjtBusRealtime, StopTimeData, TripData,
    with_tracker_data,
};
use trainstatus::rt_data::{current_time, resolve_current_time, QueryParams};
use trainstatus::rt_train::{
    scheduled_stop_time_of, stop_time_from_update, train_trip_from_descriptor, try_train_trip,
    update_direction, IntoStopTimeError, IntoTripError, StopTimeUpdateWithTrip, Trip,
    TripData as TrainTripData,
};

fn update(stop: Option<&str>, arrival: Option<Option<i64>>, departure: Option<Option<i64>>) -> StopTimeUpdate {
    StopTimeUpdate {
        stop_id: stop.map(str::to_string),
        arrival: arrival.map(|time| StopTimeEvent { time }),
        departure: departure.map(|time| StopTimeEvent { time }),
    }
}

fn descriptor(route: &str, start_time: Option<&str>, direction: Option<i32>) -> TripDescriptor {
    TripDescriptor {
        trip_id: Some("072350_A..S58R".to_string()),
        route_id: Some(route.to_string()),
        direction_id: None,
        start_time: start_time.map(str::to_string),
        start_date: Some("20240301".to_string()),
        nyct_trip_descriptor: Some(NyctTripDescriptor {
            train_id: Some("1A 1203+ 207/LEF".to_string()),
            is_assigned: Some(true),
            direction,
        }),
    }
}

fn train_trip(created_at: i64) -> Trip {
    Trip {
        id: 7,
        mta_id: "t".to_string(),
        vehicle_id: "v".to_string(),
        route_id: "A".to_string(),
        direction: Some(1),
        created_at,
        deviation: None,
        data: TrainTripData::Train { express: false, assigned: true },
    }
}

fn ny(y: i32, m: u32, d: u32, secs: u32) -> i64 {
    chrono::NaiveDate::from_ymd_opt(y, m, d)
        .unwrap()
        .and_hms_opt(secs / 3600, secs / 60 % 60, secs % 60)
        .unwrap()
        .and_local_timezone(chrono_tz::America::New_York)
        .single()
        .unwrap()
        .timestamp()
}

#[test]
fn route_ids_fold_shuttle_and_express() {
    let d = descriptor("SS", None, Some(1));
    assert_eq!(d.parse_train_route_id(), Ok(("SI".to_string(), false)));
    let d = descriptor("6X", None, Some(1));
    assert_eq!(d.parse_train_route_id(), Ok(("6".to_string(), true)));
    let d = descriptor("A", None, Some(1));
    assert_eq!(d.parse_train_route_id(), Ok(("A".to_string(), false)));
    let mut d = descriptor("A", None, Some(1));
    d.route_id = None;
    assert_eq!(d.parse_train_route_id(), Err(IntoTripError::RouteId));
}

#[test]
fn train_trip_starts_at_the_origin_time_in_its_id() {
    // 072350 hundredths of a minute is 723 minutes: 12:03:00.
    let d = descriptor("6X", None, Some(3));
    let trip = train_trip_from_descriptor(d, 11).unwrap();
    assert_eq!(trip.id, 11);
    assert_eq!(trip.route_id, "6");
    assert_eq!(trip.direction, Some(0));
    assert_eq!(trip.mta_id, "072350_A..S58R");
    assert_eq!(trip.vehicle_id, "1A 1203+ 207/LEF");
    assert_eq!(trip.created_at, ny(2024, 3, 1, 12 * 3600 + 3 * 60));
    assert_eq!(trip.data, TrainTripData::Train { express: true, assigned: true });
    let d = descriptor("A", Some("08:15:00"), Some(1));
    let trip = train_trip_from_descriptor(d, 12).unwrap();
    assert_eq!(trip.created_at, ny(2024, 3, 1, 8 * 3600 + 15 * 60));
    assert_eq!(trip.direction, Some(1));
}

#[test]
fn train_trip_errors_come_in_order() {
    let mut d = descriptor("A", None, Some(1));
    d.trip_id = None;
    assert_eq!(train_trip_from_descriptor(d, 1).unwrap_err(), IntoTripError::TripId);
    let mut d = descriptor("A", None, Some(1));
    d.nyct_trip_descriptor = None;
    assert!(matches!(train_trip_from_descriptor(d, 1), Err(IntoTripError::NyctTripDescriptor(_))));
    let mut d = descriptor("A", None, Some(1));
    d.nyct_trip_descriptor.as_mut().unwrap().train_id = None;
    assert_eq!(train_trip_from_descriptor(d, 1).unwrap_err(), IntoTripError::TrainId);
    let mut d = descriptor("A", None, Some(1));
    d.start_date = None;
    assert!(matches!(train_trip_from_descriptor(d, 1), Err(IntoTripError::StartDate(_))));
    let mut d = descriptor("A", None, Some(1));
    d.trip_id = Some("300000_A..S".to_string());
    assert_eq!(train_trip_from_descriptor(d, 1).unwrap_err(), IntoTripError::RouteId);
}

#[test]
fn try_train_trip_refuses_undefined_descriptors() {
    assert!(try_train_trip(descriptor("A", None, Some(2))).is_none());
    let mut d = descriptor("A", None, Some(1));
    d.trip_id = Some("no-underscore".to_string());
    assert!(try_train_trip(d).is_none());
    assert!(try_train_trip(descriptor("A", Some("99:99:99"), Some(1))).is_none());
    let made = try_train_trip(descriptor("A", None, None)).unwrap().unwrap();
    assert_eq!(made.direction, None);
}

#[test]
fn stop_time_drops_direction_letter_and_falls_back() {
    let trip = train_trip(0);
    let st = stop_time_from_update(StopTimeUpdateWithTrip {
        stop_time: update(Some("A27N"), None, Some(Some(1_700_000_000))),
        trip: &trip,
    })
    .unwrap();
    assert_eq!(st.stop_id, "A27");
    assert_eq!(st.trip_id, 7);
    assert_eq!((st.arrival, st.departure), (1_700_000_000, 1_700_000_000));
    let err = |u: StopTimeUpdate| stop_time_from_update(StopTimeUpdateWithTrip { stop_time: u, trip: &trip }).err();
    assert_eq!(err(update(None, Some(Some(1)), None)), Some(IntoStopTimeError::StopId));
    assert_eq!(err(update(Some("F17S"), Some(Some(1)), None)), Some(IntoStopTimeError::FakeStop));
    assert_eq!(err(update(Some("A27N"), None, None)), Some(IntoStopTimeError::Arrival));
    assert_eq!(err(update(Some("A27N"), Some(None), Some(Some(5)))), Some(IntoStopTimeError::Arrival));
    assert_eq!(err(update(Some("A27N"), Some(Some(5)), Some(None))), Some(IntoStopTimeError::Departure));
    assert_eq!(err(update(Some("A27N"), Some(Some(i64::MAX)), Some(Some(5)))), Some(IntoStopTimeError::Arrival));
}

#[test]
fn scheduled_stop_time_uses_trip_start_for_missing_arrival() {
    let trip = train_trip(1_000);
    let st = scheduled_stop_time_of(&update(Some("101S"), None, None), &trip).unwrap();
    assert_eq!(st.stop_id, "101");
    assert_eq!((st.arrival, st.departure), (1_000, 1_000));
    assert!(scheduled_stop_time_of(&update(Some("101S"), Some(None), None), &trip).is_none());
    assert!(scheduled_stop_time_of(&update(Some("S0MS"), None, None), &trip).is_none());
    assert_eq!(update_direction(&update(Some("101N"), None, None)), Some(1));
    assert_eq!(update_direction(&update(Some("101S"), None, None)), Some(0));
}

#[test]
fn event_times_fall_back_to_the_other_event() {
    let a = Some(StopTimeEvent { time: Some(3) });
    let d = Some(StopTimeEvent { time: Some(4) });
    assert_eq!(event_time_exec(&a, &d), Some(3));
    assert_eq!(event_time_exec(&None, &d), Some(4));
    assert_eq!(event_time_exec(&Some(StopTimeEvent { time: None }), &d), None);
    assert_eq!(event_time_exec(&None, &None), None);
}

#[test]
fn bus_stop_times_skip_incomplete_updates() {
    let sts = vec![
        update(Some("1"), Some(Some(10)), None),
        update(None, Some(Some(20)), None),
        update(Some("3"), None, None),
        update(Some("4"), Some(Some(40)), Some(Some(45))),
    ];
    let out = bus_stop_times(&sts, Some(9), StopTimeData::NjtBus);
    assert_eq!(out.len(), 2);
    assert_eq!((out[0].stop_id.as_str(), out[0].arrival, out[0].departure), ("1", 10, 10));
    assert_eq!((out[1].stop_id.as_str(), out[1].arrival, out[1].departure), ("4", 40, 45));
    assert_eq!(out[1].trip_id, Some(9));
}

#[test]
fn bus_trip_origin_number_reads_the_schedule_field() {
    assert_eq!(bus_trip_origin_number("QV_A6-Weekday-SDon-070500_Q45_552"), Some(70500));
    assert_eq!(bus_trip_origin_number("no_underscore-x"), None);
    assert_eq!(bus_trip_origin_number("plain"), None);
}

fn bus_update() -> TripUpdate {
    TripUpdate {
        trip: TripDescriptor {
            trip_id: Some("QV_A6-Weekday-SDon-070500_Q45_552".to_string()),
            route_id: Some("MTA NYCT_Q45".to_string()),
            direction_id: Some(1),
            start_time: None,
            start_date: Some("20240301".to_string()),
            nyct_trip_descriptor: None,
        },
        vehicle: Some(VehicleDescriptor { id: Some("MTA NYCT_1234".to_string()), label: None }),
        stop_time_update: vec![update(Some("500"), Some(Some(1_700_000_000)), None)],
        delay: Some(60),
    }
}

#[test]
fn mta_bus_trip_strips_agency_prefixes() {
    let origin = TimeOfDay::from_hms(7, 5, 0);
    let (trip, sts) = MtaBusRealtime.process_trip_at(bus_update(), origin, 3, 99);
    let trip = trip.unwrap();
    assert_eq!(trip.route_id, "Q45");
    assert_eq!(trip.vehicle_id, "1234");
    assert_eq!(trip.direction, Some(1));
    assert_eq!(trip.created_at, ny(2024, 3, 1, 7 * 3600 + 5 * 60));
    assert_eq!(trip.updated_at, 99);
    assert!(matches!(trip.data, TripData::MtaBus(ref b) if b.deviation == Some(60)));
    assert_eq!(sts.len(), 1);
    assert_eq!(sts[0].trip_id, None);
    let mut u = bus_update();
    u.vehicle = None;
    let (trip, sts) = MtaBusRealtime.process_trip(u, None);
    assert!(trip.is_none());
    assert!(sts.is_empty());
}

#[test]
fn njt_trip_fills_from_the_cached_trip() {
    let mut u = bus_update();
    u.trip.route_id = None;
    u.trip.direction_id = None;
    u.trip.start_date = None;
    u.vehicle = Some(VehicleDescriptor { id: None, label: Some("bus 9".to_string()) });
    let start = ny(2024, 3, 1, 6 * 3600);
    let cached = CachedTrip {
        route_id: "158".to_string(),
        direction_id: 1,
        headsign: "NEW YORK".to_string(),
        start_time: start,
    };
    let (trip, sts) = NjtBusRealtime.process_trip_at(u, Some(cached), "20240301".to_string(), 4, 5);
    let trip = trip.unwrap();
    assert_eq!(trip.route_id, "158");
    assert_eq!(trip.direction, Some(1));
    assert_eq!(trip.vehicle_id, "bus 9");
    assert_eq!(trip.created_at, start);
    assert!(matches!(trip.data, TripData::NjtBus(ref b) if b.headsign == "NEW YORK"));
    assert_eq!(sts[0].trip_id, Some(4));
    let mut u = bus_update();
    u.trip.route_id = None;
    let (trip, _) = NjtBusRealtime.process_trip(u, None, "20240301".to_string());
    assert!(trip.is_none(), "no route from the update or the cache");
}

#[test]
fn requested_time_wins_when_representable() {
    assert_eq!(resolve_current_time(&QueryParams { at: Some(1_000) }, 5), 1_000);
    assert_eq!(resolve_current_time(&QueryParams { at: None }, 5), 5);
    assert_eq!(resolve_current_time(&QueryParams { at: Some(i64::MAX) }, 5), 5);
    assert_eq!(current_time(&QueryParams { at: Some(1_700_000_000) }), 1_700_000_000);
    assert!(current_time(&QueryParams { at: None }) > 1_700_000_000, "the clock's time");
}

#[test]
fn bus_start_dates_and_times_are_read_with_chrono_formats() {
    let mut u = bus_update();
    u.trip.start_date = Some("2024-03-01".to_string());
    let (trip, sts) = MtaBusRealtime.process_trip_at(u, None, 1, 2);
    assert!(trip.is_none());
    assert!(sts.is_empty());
    let (trip, _) = MtaBusRealtime.process_trip_at(bus_update(), None, 1, 2);
    assert_eq!(trip.unwrap().created_at, ny(2024, 3, 1, 0));
    let mut u = bus_update();
    u.trip.start_time = Some("07:30:00".to_string());
    let (trip, _) = NjtBusRealtime.process_trip_at(u, None, "20240301".to_string(), 1, 2);
    assert_eq!(trip.unwrap().created_at, ny(2024, 3, 1, 7 * 3600 + 30 * 60));
    let mut u = bus_update();
    u.trip.start_time = Some("7:30".to_string());
    let (trip, _) = NjtBusRealtime.process_trip_at(u, None, "20240301".to_string(), 1, 2);
    assert_eq!(trip.unwrap().created_at, ny(2024, 3, 1, 0), "an unreadable start time falls back to midnight");
}

fn bus_report(id: Option<&str>, timestamp: Option<u64>) -> BusVehicleReport {
    BusVehicleReport {
        vehicle: Some(VehicleDescriptor { id: id.map(str::to_string), label: None }),
        position: Some(BusReportedPosition {
            latitude: 40.7f32.to_bits(),
            longitude: (-74.0f32).to_bits(),
            bearing: None,
        }),
        stop_id: Some("MTA_400001".to_string()),
        timestamp,
        occupancy_status: 2,
    }
}

#[test]
fn mta_bus_vehicle_report_becomes_a_position() {
    let p = MtaBusRealtime
        .process_vehicle_at(bus_report(Some("MTA NYCT_7582"), Some(1_700_000_000)), 5)
        .expect("a report with a vehicle and a position");
    assert_eq!(p.vehicle_id, "7582");
    assert_eq!(p.trip_id, None);
    assert_eq!(p.stop_id, Some("MTA_400001".to_string()));
    assert_eq!(p.updated_at, 1_700_000_000);
    assert_eq!(p.geom, ((-74.0f32).to_bits(), 40.7f32.to_bits()));
    match p.data {
        BusPositionData::MtaBus { bearing, passengers, capacity, status, phase } => {
            assert_eq!(f32::from_bits(bearing), 0.0);
            assert!(passengers.is_none() && capacity.is_none() && status.is_none() && phase.is_none());
        }
        _ => panic!("MTA bus data expected"),
    }
    let late = MtaBusRealtime.process_vehicle_at(bus_report(Some("MTA NYCT_1"), None), 5).unwrap();
    assert_eq!(late.updated_at, 5, "no timestamp: the current time");
    let far = MtaBusRealtime
        .process_vehicle_at(bus_report(Some("MTA NYCT_1"), Some(9_000_000_000_000)), 5)
        .unwrap();
    assert_eq!(far.updated_at, 5, "an unrepresentable timestamp: the current time");
    assert!(MtaBusRealtime.process_vehicle_at(bus_report(None, None), 5).is_none());
    let mut no_pos = bus_report(Some("MTA NYCT_1"), None);
    no_pos.position = None;
    assert!(MtaBusRealtime.process_vehicle(no_pos).is_none());
    assert!(MtaBusRealtime.process_vehicle(bus_report(Some("x"), None)).is_some());
}

#[test]
fn njt_bus_vehicle_report_keeps_its_id_and_occupancy() {
    let mut r = bus_report(Some("5832"), Some(1_700_000_000));
    r.position.as_mut().unwrap().bearing = Some(90.0f32.to_bits());
    let p = NjtBusRealtime.process_vehicle_at(r, 5).expect("kept");
    assert_eq!(p.vehicle_id, "5832");
    assert_eq!(p.updated_at, 1_700_000_000);
    assert!(matches!(p.data, BusPositionData::NjtBus { occupancy_status: 2 }));
    let mut none = bus_report(Some("5832"), None);
    none.vehicle = None;
    assert!(NjtBusRealtime.process_vehicle(none).is_none());
}

#[test]
fn tracker_data_fills_mta_bus_positions_only() {
    let p = MtaBusRealtime.process_vehicle_at(bus_report(Some("MTA NYCT_1"), None), 5).unwrap();
    let p = with_tracker_data(p, Some(12), Some(60), "IN_PROGRESS".to_string(), "in_progress".to_string());
    assert_eq!(p.vehicle_id, "1");
    match p.data {
        BusPositionData::MtaBus { passengers, capacity, status, phase, bearing } => {
            assert_eq!((passengers, capacity), (Some(12), Some(60)));
            assert_eq!(status.as_deref(), Some("IN_PROGRESS"));
            assert_eq!(phase.as_deref(), Some("in_progress"));
            assert_eq!(bearing, 0);
        }
        _ => panic!("MTA bus data expected"),
    }
    let n = NjtBusRealtime.process_vehicle_at(bus_report(Some("9"), None), 5).unwrap();
    let n = with_tracker_data(n, Some(1), None, "a".to_string(), "b".to_string());
    assert!(matches!(n.data, BusPositionData::NjtBus { occupancy_status: 2 }));
}

#[test]
fn service_date_today_is_read_in_new_york() {
    assert_eq!(trainstatus::calendar::ny_date_text(1_700_000_000), "20231114");
    assert_eq!(trainstatus::calendar::ny_date_text(1_700_020_000), "20231114", "still the 14th in New York");
    assert_eq!(trainstatus::calendar::ny_date_text(1_700_040_000), "20231115");
    let today = NjtBusRealtime.today().expect("a clock in chrono's range");
    assert_eq!(today.len(), 8);
    assert!(today.starts_with("20"));
}
