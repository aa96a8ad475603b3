use trainstatus::models::{
    EgressType, PlatformDirection, RouteData, RouteStopData, StopData, StopType, VerticalDirection,
};
use trainstatus::source::Source;
use trainstatus::subway_static::{
    egress_type_of, platform_direction_of, station_name, vertical_direction_of,
    ExitStrategyCarMarker, ExitStrategyEgressPoint, ExitStrategyPlatformEdge, ExitStrategySpec,
    ExitStrategyStation, HeliumBubble, HeliumBubbleSection, HeliumGtfsStop, HeliumRoute,
    HeliumStation, HeliumSubwayInfrastructure, MtaSubwayStatic,
};

fn station(id: i32, primary: &str, secondary: Option<&str>, routes: &[&str]) -> HeliumStation {
    HeliumStation {
        station_id: id,
        line: "Lexington Av".to_string(),
        primary_name: primary.to_string(),
        secondary_name: secondary.map(|s| s.to_string()),
        path_adjusted_latitude: 40.75f64.to_bits(),
        path_adjusted_longitude: (-73.98f64).to_bits(),
        is_major: id == 1,
        station_group_id: "g".to_string(),
        canonical_route_ids: routes.iter().map(|r| r.to_string()).collect(),
    }
}

fn section(id: &str, placement: &str, title: &str) -> HeliumBubbleSection {
    HeliumBubbleSection {
        station_section_id: id.to_string(),
        placement: placement.to_string(),
        title: title.to_string(),
    }
}

fn infrastructure() -> HeliumSubwayInfrastructure {
    HeliumSubwayInfrastructure {
        stations: vec![
            station(1, "Grand Central", Some("42 St"), &["4", "5", "6"]),
            station(2, "Astor Pl", Some(""), &["6"]),
            station(3, "Bleecker St", None, &[]),
        ],
        routes: vec![
            HeliumRoute {
                route_id: "6".to_string(),
                route_name: "Lexington Avenue Local".to_string(),
                color: "#00933C".to_string(),
                text_color: None,
            },
            HeliumRoute {
                route_id: "N".to_string(),
                route_name: "Broadway Express".to_string(),
                color: "#FCCC0A".to_string(),
                text_color: Some("#000000".to_string()),
            },
        ],
        shape_segments: vec![
            ("6..N".to_string(), vec![(1, 2), (3, 4)]),
            ("dot".to_string(), vec![(5, 6)]),
        ],
        gtfs_stops: vec![
            HeliumGtfsStop { gtfs_stop_id: "631".to_string(), parent_station_id: 1 },
            HeliumGtfsStop { gtfs_stop_id: "723".to_string(), parent_station_id: 1 },
            HeliumGtfsStop { gtfs_stop_id: "636".to_string(), parent_station_id: 2 },
        ],
        bubbles: vec![
            HeliumBubble {
                bubble_id: "b-old".to_string(),
                station_id: 1,
                sections: vec![section("s0", "TOP", "Old North")],
            },
            HeliumBubble {
                bubble_id: "b1".to_string(),
                station_id: 1,
                sections: vec![
                    section("s1", "TOP", "Uptown & The Bronx"),
                    section("s2", "BOTTOM", "Downtown & Brooklyn"),
                    section("s3", "MIDDLE", "Mezzanine"),
                ],
            },
        ],
    }
}

fn exits() -> Vec<ExitStrategyStation> {
    vec![ExitStrategyStation {
        mrn: 1,
        platform_edges: vec![
            ExitStrategyPlatformEdge {
                platform_edge_id: "pe1".to_string(),
                spec: Some(ExitStrategySpec {
                    length_ft: 600.0f32.to_bits(),
                    car_markers: vec![ExitStrategyCarMarker {
                        marked_as: "10".to_string(),
                        is_opto: None,
                        consist_length_ft: Some(510),
                        position_ft: 12.5f32.to_bits(),
                        direction: "SOUTH".to_string(),
                    }],
                }),
                egress_points: vec![ExitStrategyEgressPoint {
                    id: 7,
                    egress_type: "ELEVATOR".to_string(),
                    position_ft: 100.0f32.to_bits(),
                    vertical_direction: "UP".to_string(),
                }],
            },
            ExitStrategyPlatformEdge {
                platform_edge_id: "pe2".to_string(),
                spec: None,
                egress_points: vec![],
            },
        ],
    }]
}

#[test]
fn egress_vertical_and_platform_names_are_decoded() {
    assert_eq!(egress_type_of("STAIRCASE"), EgressType::Staircase);
    assert_eq!(egress_type_of("ELEVATOR"), EgressType::Elevator);
    assert_eq!(egress_type_of("ESCALATOR"), EgressType::Escalator);
    assert_eq!(egress_type_of("FARE_CONTROL"), EgressType::FareControl);
    assert_eq!(egress_type_of("DOOR"), EgressType::Door);
    assert_eq!(egress_type_of("EXIT"), EgressType::Exit);
    assert_eq!(egress_type_of("RAMP"), EgressType::Ramp);
    assert_eq!(egress_type_of("staircase"), EgressType::Unknown);
    assert_eq!(vertical_direction_of("UP"), VerticalDirection::Up);
    assert_eq!(vertical_direction_of("DOWN"), VerticalDirection::Down);
    assert_eq!(vertical_direction_of("LEVEL"), VerticalDirection::Level);
    assert_eq!(platform_direction_of("SOUTH"), PlatformDirection::South);
    assert_eq!(platform_direction_of("NORTH"), PlatformDirection::North);
    assert_eq!(platform_direction_of(""), PlatformDirection::North);
}

#[test]
fn station_name_joins_a_non_empty_secondary_name() {
    let p = "Grand Central".to_string();
    assert_eq!(station_name(&p, &Some("42 St".to_string())), "Grand Central-42 St");
    assert_eq!(station_name(&p, &Some(String::new())), "Grand Central");
    assert_eq!(station_name(&p, &None), "Grand Central");
}

#[test]
fn subway_dataset_is_built_from_the_feeds() {
    let d = MtaSubwayStatic.build_dataset(&infrastructure(), &exits());
    assert_eq!(d.source, Source::MtaSubway);

    assert_eq!(d.routes.len(), 2);
    assert_eq!(d.routes[0].id, "6");
    assert_eq!(d.routes[0].short_name, "6");
    assert_eq!(d.routes[0].long_name, "Lexington Avenue Local");
    assert_eq!(d.routes[0].text_color, "#FFFFFF");
    assert_eq!(d.routes[1].text_color, "#000000");
    assert!(matches!(d.routes[1].data, RouteData::MtaSubway));

    assert_eq!(d.stops.len(), 3);
    let gc = &d.stops[0];
    assert_eq!(gc.id, "1");
    assert_eq!(gc.name, "Grand Central-42 St");
    assert_eq!(gc.latitude, 40.75f64.to_bits());
    match &gc.data {
        StopData::MtaSubway(s) => {
            assert_eq!(s.gtfs_stop_id, "631", "the first GTFS stop of the station");
            assert_eq!(s.bubble_id, "b1", "the last bubble of the station");
            assert_eq!(s.north_headsign, "Uptown & The Bronx");
            assert_eq!(s.south_headsign, "Downtown & Brooklyn");
            assert!(s.is_major);
            assert_eq!(s.line, "Lexington Av");
            assert_eq!(s.platform_edges.len(), 2);
            let pe = &s.platform_edges[0];
            assert_eq!(pe.id, "pe1");
            assert_eq!(pe.length_ft, 600.0f32.to_bits());
            assert_eq!(pe.car_markers.len(), 1);
            assert!(!pe.car_markers[0].is_opto);
            assert_eq!(pe.car_markers[0].consist_length_ft, Some(510));
            assert_eq!(pe.car_markers[0].direction, PlatformDirection::South);
            assert_eq!(pe.egress_points[0].egress_type, EgressType::Elevator);
            assert_eq!(pe.egress_points[0].vertical_direction, VerticalDirection::Up);
            assert_eq!(s.platform_edges[1].length_ft, 0);
            assert!(s.platform_edges[1].car_markers.is_empty());
        }
        _ => panic!("subway stop expected"),
    }
    match &d.stops[1].data {
        StopData::MtaSubway(s) => {
            assert_eq!(d.stops[1].name, "Astor Pl");
            assert_eq!(s.gtfs_stop_id, "636");
            assert_eq!(s.bubble_id, "");
            assert_eq!(s.north_headsign, "");
            assert!(s.platform_edges.is_empty());
        }
        _ => panic!("subway stop expected"),
    }

    let rs: Vec<(String, String, i16)> = d
        .route_stops
        .iter()
        .map(|r| (r.route_id.clone(), r.stop_id.clone(), r.stop_sequence))
        .collect();
    assert_eq!(
        rs,
        vec![
            ("4".to_string(), "1".to_string(), 0),
            ("5".to_string(), "1".to_string(), 1),
            ("6".to_string(), "1".to_string(), 2),
            ("6".to_string(), "2".to_string(), 0),
        ]
    );
    assert!(d.route_stops.iter().all(|r| matches!(
        r.data,
        RouteStopData::MtaSubway { stop_type: StopType::FullTime }
    )));

    assert_eq!(d.shapes.len(), 1, "a segment of one point is no shape");
    assert_eq!(d.shapes[0].id, "6..N");
    assert_eq!(d.shapes[0].coords, vec![(1, 2), (3, 4)]);
}

#[test]
fn refresh_interval_is_three_days() {
    assert_eq!(MtaSubwayStatic.refresh_interval_secs(), 259_200);
    assert_eq!(MtaSubwayStatic.source(), Source::MtaSubway);
}
