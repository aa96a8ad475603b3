use trainstatus::route_import::{
    bus_route, bus_route_stops, dedup_bus_stops, dedup_route_stops, route_type_name, shape_segments,
    train_route, try_shape_segments, AgencyBusRoute, GtfsRoute, BusStopRow, BusRouteStop,
    RouteType, StopGroup,
};
use trainstatus::models::CompassDirection;

fn gtfs_route(id: &str, color: &str) -> GtfsRoute {
    GtfsRoute {
        route_id: id.to_string(),
        route_short_name: id.to_string(),
        route_long_name: format!("{id} line"),
        route_color: color.to_string(),
    }
}

#[test]
fn train_routes_skip_express_and_fill_missing_colors() {
    assert!(train_route(&gtfs_route("6X", "00933C")).is_none());
    let si = train_route(&gtfs_route("SI", "")).unwrap();
    assert_eq!(si.color, "0F61A9");
    assert_eq!(train_route(&gtfs_route("FS", "")).unwrap().color, "6D6E71");
    assert_eq!(train_route(&gtfs_route("H", "")).unwrap().color, "6D6E71");
    let a = train_route(&gtfs_route("A", "0039A6")).unwrap();
    assert_eq!(a.color, "0039A6");
    assert_eq!(a.route_type, RouteType::Train);
    assert!(!a.shuttle);
    assert_eq!(route_type_name(RouteType::Bus), "Bus");
    assert_eq!(route_type_name(RouteType::Train), "Train");
}

fn ids(v: &[&str]) -> Vec<String> {
    v.iter().map(|s| s.to_string()).collect()
}

#[test]
fn shapes_take_the_first_shape_of_each_run_and_z_shares_j() {
    let points = ids(&["A..N1", "A..N1", "A..S2", "A..N1", "J..N1", "J..N1", "J..N1", "A..N9", "A..N9"]);
    let shapes = shape_segments(&points);
    let find = |k: &str| shapes.iter().find(|(r, _)| r == k).map(|(_, s)| s.clone()).unwrap();
    assert_eq!(find("A"), vec![(7, 8)], "a later run of a route replaces the earlier one");
    assert_eq!(find("J"), vec![(4, 5), (5, 6)]);
    assert_eq!(find("Z"), find("J"));
    let first = shape_segments(&ids(&["A..N1", "A..N1", "A..S2", "A..N1", "J..N1", "J..N1"]));
    assert_eq!(first[0], ("A".to_string(), vec![(0, 1), (1, 3)]));
    assert!(try_shape_segments(&ids(&["A..N1"])).is_none(), "no J train geometry");
    assert!(try_shape_segments(&ids(&["J1"])).is_none(), "shape id without a dot");
    assert!(try_shape_segments(&ids(&["J.1", "J.1"])).is_some());
}

#[test]
fn bus_routes_drop_the_agency_and_default_to_white() {
    let r = AgencyBusRoute {
        color: String::new(),
        id: "MTA NYCT_B63".to_string(),
        long_name: "Cobble Hill - Bay Ridge".to_string(),
        short_name: "B63".to_string(),
        route_type: 711,
    };
    let out = bus_route(&r);
    assert_eq!(out.id, "B63");
    assert_eq!(out.color, "FFFFFF");
    assert!(out.shuttle);
    assert_eq!(out.route_type, RouteType::Bus);
}

#[test]
fn bus_route_stops_are_numbered_per_group() {
    let groups = vec![
        StopGroup { id: 0, name: "Bay Ridge".to_string(), stop_ids: vec![5, 6] },
        StopGroup { id: 1, name: "Cobble Hill".to_string(), stop_ids: vec![6] },
    ];
    let rs = bus_route_stops("B63", &groups);
    let got: Vec<(i32, i16, &str, i16)> =
        rs.iter().map(|r| (r.stop_id, r.stop_sequence, r.headsign.as_str(), r.direction)).collect();
    assert_eq!(got, vec![(5, 0, "Bay Ridge", 0), (6, 1, "Bay Ridge", 0), (6, 0, "Cobble Hill", 1)]);
    let deduped = dedup_route_stops(rs);
    let got: Vec<(i32, i16)> = deduped.iter().map(|r| (r.stop_id, r.direction)).collect();
    assert_eq!(got, vec![(5, 0), (6, 0)], "the second stop 6 of the same route is dropped");
}

fn route_stop(route: &str, stop: i32) -> BusRouteStop {
    BusRouteStop { route_id: route.to_string(), stop_id: stop, stop_sequence: 0, headsign: String::new(), direction: 0 }
}

#[test]
fn route_stop_repeats_are_dropped_wherever_they_come() {
    let out = dedup_route_stops(vec![route_stop("B1", 7), route_stop("B2", 7), route_stop("B1", 7), route_stop("B1", 3)]);
    let got: Vec<(&str, i32)> = out.iter().map(|r| (r.route_id.as_str(), r.stop_id)).collect();
    assert_eq!(got, vec![("B1", 3), ("B1", 7), ("B2", 7)]);
    let out = dedup_route_stops(vec![route_stop("A", 1), route_stop("B", 1), route_stop("A", 1)]);
    let got: Vec<(&str, i32)> = out.iter().map(|r| (r.route_id.as_str(), r.stop_id)).collect();
    assert_eq!(got, vec![("A", 1), ("B", 1)]);
}

fn bus_stop(id: i32, name: &str) -> BusStopRow {
    BusStopRow { id, name: name.to_string(), lat: 0, lon: 0, direction: CompassDirection::N }
}

#[test]
fn bus_stops_are_sorted_and_keep_the_first_of_each_id() {
    let out = dedup_bus_stops(vec![bus_stop(9, "a"), bus_stop(2, "b"), bus_stop(9, "c")]);
    let got: Vec<(i32, &str)> = out.iter().map(|s| (s.id, s.name.as_str())).collect();
    assert_eq!(got, vec![(2, "b"), (9, "a")]);
}
