use trainstatus::models::{CompassDirection, MtaBusDirection, RouteData, RouteStopData, StopData};
use trainstatus::mta_bus_static::{
    assemble_shape, number_stops, route_long_name, shape_stop_pairs, HeliumBusHeadsign,
    HeliumBusInfrastructure, HeliumBusRoute, HeliumBusRouteDirection, HeliumBusShapes,
    HeliumBusStop, HeliumBusStopRoute, MtaBusStatic,
};
use trainstatus::source::Source;

fn route(route_id: &str, directions: Vec<(i16, &str)>) -> HeliumBusRoute {
    HeliumBusRoute {
        route_id: route_id.to_string(),
        route_name: route_id.to_string(),
        name_prefix: String::new(),
        name_number: 0,
        name_suffix: None,
        borough: None,
        color: "#0039A6".to_string(),
        text_color: None,
        sort_key: 0,
        service_types: vec!["LOCAL".to_string()],
        directions: directions
            .into_iter()
            .map(|(direction_id, destination)| HeliumBusRouteDirection {
                direction_id,
                headsign: HeliumBusHeadsign { destination: destination.to_string(), via: vec![] },
            })
            .collect(),
    }
}

fn bits(x: f64) -> u64 {
    x.to_bits()
}

fn empty_shapes() -> HeliumBusShapes {
    HeliumBusShapes { shape_to_segment: vec![], segments: vec![] }
}

#[test]
fn route_long_name_is_built_from_both_terminals() {
    let directions = vec![
        MtaBusDirection { direction_id: 0, destination: "Bay Ridge 4 Av".to_string(), via: vec![] },
        MtaBusDirection {
            direction_id: 1,
            destination: "Manhattan Beach Kingsboro CC".to_string(),
            via: vec![],
        },
    ];
    assert_eq!(
        route_long_name("B1", &directions),
        "Manhattan Beach Kingsboro CC - Bay Ridge 4 Av"
    );
    assert_eq!(route_long_name("B74", &directions[..1]), "Bay Ridge 4 Av");
    assert_eq!(route_long_name("B74", &[]), "B74");
}

#[test]
fn route_long_name_skips_blank_and_repeated_terminals() {
    let d = |id: i16, dest: &str| MtaBusDirection { direction_id: id, destination: dest.to_string(), via: vec![] };
    assert_eq!(route_long_name("Q1", &[d(0, "  "), d(1, " Jamaica ")]), "Jamaica");
    assert_eq!(route_long_name("Q2", &[d(0, "Jamaica"), d(1, "Jamaica")]), "Jamaica");
}

#[test]
fn route_stop_shape_ids_union_across_service_types() {
    let infra = HeliumBusInfrastructure {
        routes: vec![route("M1", vec![])],
        stops: vec![HeliumBusStop {
            stop_id: 403311,
            name_parts: vec!["5 Av/E 42 St".to_string()],
            latitude: bits(40.7527),
            longitude: bits(-73.9805),
            routes: vec![
                HeliumBusStopRoute {
                    route_name: "M1".to_string(),
                    service_type: "LOCAL".to_string(),
                    shape_ids: vec!["M010104".to_string()],
                },
                HeliumBusStopRoute {
                    route_name: "M1".to_string(),
                    service_type: "LIMITED".to_string(),
                    shape_ids: vec!["M010089".to_string()],
                },
            ],
            bearing: None,
            is_boardable: true,
        }],
        shapes: empty_shapes(),
    };
    let dataset = MtaBusStatic::new().build_static_dataset(&infra, &vec![CompassDirection::Unknown], &vec![]);
    assert_eq!(dataset.route_stops.len(), 1);
    let route_stop = &dataset.route_stops[0];
    assert_eq!(route_stop.route_id, "M1");
    assert_eq!(route_stop.stop_id, "403311");
    let RouteStopData::MtaBus { shape_ids, .. } = &route_stop.data else {
        panic!("expected MtaBus route stop data");
    };
    let mut shape_ids = shape_ids.clone();
    shape_ids.sort();
    assert_eq!(shape_ids, vec!["M010089".to_string(), "M010104".to_string()]);
}

#[test]
fn route_directions_are_sorted_and_carry_headsigns() {
    let infra = HeliumBusInfrastructure {
        routes: vec![route("B1", vec![(1, "Manhattan Beach"), (0, "Bay Ridge")])],
        stops: vec![],
        shapes: empty_shapes(),
    };
    let dataset = MtaBusStatic::new().build_static_dataset(&infra, &vec![], &vec![]);
    let RouteData::MtaBus(data) = &dataset.routes[0].data else {
        panic!("expected MtaBus route data");
    };
    assert_eq!(
        data.directions.iter().map(|d| (d.direction_id, d.destination.as_str())).collect::<Vec<_>>(),
        vec![(0, "Bay Ridge"), (1, "Manhattan Beach")]
    );
    assert_eq!(dataset.routes[0].short_name, "B1");
    assert_eq!(dataset.routes[0].long_name, "Manhattan Beach - Bay Ridge");
    assert_eq!(dataset.routes[0].text_color, "#FFFFFF");
}

fn stop(stop_id: i32, route_name: &str, shape_ids: &[&str]) -> HeliumBusStop {
    HeliumBusStop {
        stop_id,
        name_parts: vec![format!("Stop {stop_id}"), "Av".to_string()],
        latitude: bits(40.75),
        longitude: bits(-74.0),
        routes: vec![HeliumBusStopRoute {
            route_name: route_name.to_string(),
            service_type: "LOCAL".to_string(),
            shape_ids: shape_ids.iter().map(|s| s.to_string()).collect(),
        }],
        bearing: Some(bits(90.0)),
        is_boardable: true,
    }
}

#[test]
fn route_stops_are_sorted_and_take_earliest_sequence() {
    let infra = HeliumBusInfrastructure {
        routes: vec![route("B2", vec![(0, "A")]), route("B1", vec![(0, "B")])],
        stops: vec![stop(300, "b2", &["S2"]), stop(100, "B1", &["S1", "S3"]), stop(200, "X9", &["S9"])],
        shapes: empty_shapes(),
    };
    let orders = vec![
        ("S1".to_string(), vec![("100".to_string(), 4i16)]),
        ("S3".to_string(), vec![("100".to_string(), 1i16)]),
    ];
    let dirs = vec![CompassDirection::E, CompassDirection::E, CompassDirection::Unknown];
    let d = MtaBusStatic::new().build_static_dataset(&infra, &dirs, &orders);
    let keys: Vec<(&str, &str, i16)> =
        d.route_stops.iter().map(|r| (r.route_id.as_str(), r.stop_id.as_str(), r.stop_sequence)).collect();
    assert_eq!(keys, vec![("B1", "100", 1), ("B2", "300", 0)]);
    let RouteData::MtaBus(b2) = &d.routes[0].data else { panic!("expected MtaBus route data") };
    assert_eq!(b2.shape_ids, vec!["S2".to_string()]);
    assert_eq!(d.stops[0].name, "Stop 300/Av");
    assert_eq!(d.stops[0].id, "300");
    match &d.stops[0].data {
        StopData::MtaBus(s) => {
            assert_eq!(s.direction, CompassDirection::E);
            assert_eq!(s.bearing.map(f64::from_bits), Some(90.0));
        }
        _ => panic!("expected MtaBus stop data"),
    }
    assert_eq!(d.source, Source::MtaBus);
}

#[test]
fn shapes_are_assembled_from_segments_and_sorted() {
    let p = |x: f64, y: f64| (bits(x), bits(y));
    let shapes = HeliumBusShapes {
        shape_to_segment: vec![
            ("Z".to_string(), vec![-1]),
            ("A".to_string(), vec![0, 5, 1]),
            ("Q".to_string(), vec![2]),
        ],
        segments: vec![vec![p(0.0, 0.0)], vec![p(1.0, 1.0), p(2.0, 2.0)], vec![p(3.0, 3.0)]],
    };
    let infra = HeliumBusInfrastructure { routes: vec![], stops: vec![], shapes };
    let d = MtaBusStatic::new().build_static_dataset(&infra, &vec![], &vec![]);
    assert_eq!(d.shapes.len(), 2);
    assert_eq!(d.shapes[0].id, "A");
    assert_eq!(d.shapes[0].coords, vec![p(0.0, 0.0), p(1.0, 1.0), p(2.0, 2.0)]);
    assert_eq!(d.shapes[1].id, "Z");
    assert_eq!(d.shapes[1].coords, vec![p(2.0, 2.0), p(1.0, 1.0)]);
}

#[test]
fn negative_segment_index_runs_backwards() {
    let segs = vec![vec![(1u64, 1u64)], vec![(2, 2), (3, 3)]];
    assert_eq!(assemble_shape(&vec![-1, 0], &segs), vec![(3, 3), (2, 2), (1, 1)]);
    assert_eq!(assemble_shape(&vec![7], &segs), vec![]);
}

#[test]
fn stops_are_numbered_along_a_shape() {
    let ids: Vec<String> = ["100", "100", "200", "300", "300"].iter().map(|s| s.to_string()).collect();
    let n = number_stops(&ids);
    assert_eq!(n, vec![("100".to_string(), 0), ("200".to_string(), 1), ("300".to_string(), 2)]);
}

#[test]
fn shape_stop_pairs_list_every_shape_of_every_stop() {
    let stops = vec![stop(1, "B1", &["S1", "S2"]), stop(2, "B1", &["S1"])];
    let pairs = shape_stop_pairs(&stops);
    let expected: Vec<(String, String)> = vec![
        ("S1".into(), "1".into()),
        ("S2".into(), "1".into()),
        ("S1".into(), "2".into()),
    ];
    assert_eq!(pairs, expected);
}

#[test]
fn mta_bus_static_refreshes_every_three_days() {
    let imp = MtaBusStatic::new();
    assert_eq!(imp.source(), Source::MtaBus);
    assert_eq!(imp.refresh_interval_secs(), 259200);
}

#[test]
fn stop_without_bearing_has_unknown_direction() {
    let mut s = stop(100, "B1", &[]);
    s.bearing = None;
    s.longitude = bits(-74.00);
    s.latitude = bits(40.75);
    let infra = HeliumBusInfrastructure {
        routes: vec![route("B1", vec![(0, "Bay Ridge")])],
        stops: vec![s],
        shapes: empty_shapes(),
    };

    let dataset = MtaBusStatic::new().build_static_dataset(&infra, &vec![CompassDirection::N], &vec![]);
    let StopData::MtaBus(data) = &dataset.stops[0].data else {
        panic!("expected MtaBus stop data");
    };
    assert_eq!(data.direction, CompassDirection::Unknown);
}
