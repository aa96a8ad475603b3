use trainstatus::realtime::{MtaBusTripData, StopTime, StopTimeData, Trip, TripData};
use trainstatus::store_rows::{dedup_trips, remap_alert_parts, stop_time_rows, trips_to_store};

fn trip(id: u128, original: &str, vehicle: &str, updated_at: i64) -> Trip {
    Trip {
        id,
        original_id: original.to_string(),
        route_id: "q45".to_string(),
        shape_ids: vec![],
        direction: Some(1),
        created_at: 100,
        vehicle_id: vehicle.to_string(),
        updated_at,
        data: TripData::MtaBus(MtaBusTripData { deviation: None }),
    }
}

fn st(stop: &str) -> StopTime {
    StopTime { trip_id: None, stop_id: stop.to_string(), arrival: 1, departure: 2, data: StopTimeData::MtaBus }
}

#[test]
fn one_entry_per_trip_keeps_the_latest_update() {
    let data = vec![
        (trip(1, "t", "v", 10), vec![st("a")]),
        (trip(2, "u", "v", 5), vec![]),
        (trip(3, "t", "v", 30), vec![st("b")]),
        (trip(4, "t", "v", 30), vec![st("c")]),
        (trip(5, "t", "w", 1), vec![]),
    ];
    let out = dedup_trips(data);
    let ids: Vec<u128> = out.iter().map(|(t, _)| t.id).collect();
    assert_eq!(ids, vec![3, 2, 5]);
    assert_eq!(out[0].1[0].stop_id, "b");
    assert!(dedup_trips(vec![]).is_empty());
}

#[test]
fn stop_time_rows_use_stored_ids_and_skip_repeats() {
    let data = vec![
        (trip(1, "t", "v", 10), vec![st("a1"), st("A1"), st("b2")]),
        (trip(2, "u", "v", 10), vec![st("zz")]),
        (trip(3, "x", "v", 10), vec![st("a1")]),
    ];
    let rows = stop_time_rows(&data, &vec![(1, 100), (3, 100)]);
    let got: Vec<(usize, usize, u128, &str)> =
        rows.iter().map(|r| (r.entry, r.stop, r.trip_id, r.stop_id.as_str())).collect();
    assert_eq!(got, vec![(0, 0, 100, "A1"), (0, 2, 100, "B2")]);
}

#[test]
fn alert_parts_follow_their_stored_alert() {
    let parts = vec![7u128, 8, 7, 9];
    let kept = remap_alert_parts(&parts, &vec![7, 9, 7], &vec![70, 90]);
    assert_eq!(kept, vec![(0, 70), (2, 70), (3, 90)]);
    assert!(remap_alert_parts(&parts, &vec![], &vec![]).is_empty());
}

#[test]
fn trips_to_store_carry_upper_cased_route_ids() {
    let mut b = trip(2, "u", "v", 5);
    b.route_id = "Bx12-SBS".to_string();
    let data = vec![(trip(1, "t", "v", 10), vec![st("a")]), (b, vec![]), (trip(3, "t", "v", 30), vec![])];
    let (kept, routes) = trips_to_store(data);
    let ids: Vec<u128> = kept.iter().map(|(t, _)| t.id).collect();
    assert_eq!(ids, vec![3, 2]);
    assert_eq!(routes, vec!["Q45".to_string(), "BX12-SBS".to_string()]);
    let (none, no_routes) = trips_to_store(vec![]);
    assert!(none.is_empty() && no_routes.is_empty());
}
