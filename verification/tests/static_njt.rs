use trainstatus::models::{Stop, StopData};
use trainstatus::njt_route_stops::{
    build_route_stops, route_direction_stops, GtfsStopTime, GtfsTrip,
};
use trainstatus::njt_static::{
    build_routes, collapse_stops, map_arcgis_route_id_to_gtfs_route_id, njt_route_color,
    stop_id_sort_key, GtfsRoute, GtfsStop, LocationType, NjtBusStatic,
};
use trainstatus::models::RouteStopData;
use trainstatus::source::Source;

fn make_stop(id: &str, code: &str, location_type: LocationType, parent: Option<&str>) -> GtfsStop {
    GtfsStop {
        id: id.to_string(),
        code: Some(code.to_string()),
        name: Some(format!("STOP {id}")),
        location_type,
        parent_station: parent.map(str::to_string),
        longitude: Some((-73.9392f64).to_bits()),
        latitude: Some((40.84899f64).to_bits()),
    }
}

fn stop_code_of(stop: &Stop) -> &str {
    match &stop.data {
        StopData::NjtBus(d) => &d.stop_code,
        _ => panic!("expected NjtBus stop data"),
    }
}

#[test]
fn collapses_parent_child_family_to_representative_parent() {
    let stops = vec![
        make_stop("16339", "32640", LocationType::StopArea, None),
        make_stop("16957", "32640", LocationType::StopPoint, Some("16339")),
        make_stop("16969", "32640", LocationType::StopPoint, None),
    ];
    let (stops, remap) = collapse_stops(&stops);
    assert_eq!(stops.len(), 1, "family collapses to a single stop");
    assert_eq!(stops[0].id, "16339", "representative is the parent station");
    assert_eq!(stop_code_of(&stops[0]), "32640");
    assert_eq!(remap.get("16957"), Some(&"16339".to_string()));
    assert_eq!(remap.get("16969"), Some(&"16339".to_string()));
    assert!(remap.get("16339").is_none());
}

#[test]
fn collapses_parentless_group_to_smallest_numeric_id() {
    let stops = vec![
        make_stop("15372", "30539", LocationType::StopPoint, None),
        make_stop("1", "30539", LocationType::StopPoint, None),
    ];
    let (stops, remap) = collapse_stops(&stops);
    assert_eq!(stops.len(), 1);
    assert_eq!(stops[0].id, "1", "smallest numeric id wins");
    assert_eq!(remap.get("15372"), Some(&"1".to_string()));
}

#[test]
fn single_id_stop_is_untouched_and_absent_from_remap() {
    let stops = vec![make_stop("500", "40000", LocationType::StopPoint, None)];
    let (stops, remap) = collapse_stops(&stops);
    assert_eq!(stops.len(), 1);
    assert_eq!(stops[0].id, "500");
    assert!(remap.is_empty(), "1:1 stops need no remap entry");
}

#[test]
fn stop_id_sort_key_orders_numerically() {
    assert!(stop_id_sort_key("2") < stop_id_sort_key("10"));
    assert!(stop_id_sort_key("999999") < stop_id_sort_key("A1"));
}

#[test]
fn collapsed_stop_keeps_name_and_coordinates() {
    let stops = vec![make_stop("7", "70", LocationType::StopPoint, None)];
    let (stops, _) = collapse_stops(&stops);
    assert_eq!(stops[0].name, "Stop 7");
    assert_eq!(f64::from_bits(stops[0].longitude), -73.9392);
    assert_eq!(f64::from_bits(stops[0].latitude), 40.84899);
}

#[test]
fn stops_without_coordinates_are_dropped() {
    let mut s = make_stop("8", "80", LocationType::StopPoint, None);
    s.longitude = None;
    s.latitude = None;
    let (stops, remap) = collapse_stops(&vec![s]);
    assert!(stops.is_empty());
    assert!(remap.is_empty());
}

#[test]
fn route_color_is_hex_or_njt_blue() {
    assert_eq!(njt_route_color(Some((0x12, 0xab, 0x00))), "12AB00");
    assert_eq!(njt_route_color(Some((0, 0, 0))), "1A2B57");
    assert_eq!(njt_route_color(None), "1A2B57");
}

#[test]
fn njt_routes_collapse_names_and_default_colors() {
    let routes = vec![GtfsRoute {
        id: "1".to_string(),
        long_name: Some("  Newark   -  Ivy Hill ".to_string()),
        short_name: None,
        color: None,
    }];
    let r = build_routes(&routes);
    assert_eq!(r[0].long_name, "Newark - Ivy Hill");
    assert_eq!(r[0].short_name, "");
    assert_eq!(r[0].color, "1A2B57");
    assert_eq!(r[0].text_color, "#FFFFFF");
}

#[test]
fn arcgis_route_maps_to_gtfs_route() {
    let by_id = vec![("62".to_string(), "62 Newark - Perth Amboy".to_string())];
    let by_name: Vec<(String, Vec<String>)> = vec![];
    let ids = vec!["62".to_string(), "63".to_string()];
    let r = map_arcgis_route_id_to_gtfs_route_id("62", &by_id, &by_name, &ids);
    assert_eq!(r, Some("62".to_string()));
    assert_eq!(map_arcgis_route_id_to_gtfs_route_id("999", &by_id, &by_name, &ids), None);
    let by_id = vec![("X9".to_string(), "Newark   Penn".to_string())];
    let by_name = vec![("newark penn".to_string(), vec!["9".to_string()])];
    assert_eq!(
        map_arcgis_route_id_to_gtfs_route_id("X9", &by_id, &by_name, &ids),
        Some("9".to_string())
    );
}

fn st(stop: &str, seq: u32, headsign: Option<&str>) -> GtfsStopTime {
    GtfsStopTime {
        stop_id: stop.to_string(),
        stop_headsign: headsign.map(str::to_string),
        stop_sequence: seq,
    }
}

fn trip(route: &str, dir: Option<i16>, headsign: Option<&str>, sts: Vec<GtfsStopTime>) -> GtfsTrip {
    GtfsTrip {
        route_id: route.to_string(),
        direction_id: dir,
        trip_headsign: headsign.map(str::to_string),
        stop_times: sts,
    }
}

#[test]
fn route_stops_take_smallest_sequence_and_common_headsign() {
    let remap_src = vec![
        make_stop("16339", "32640", LocationType::StopArea, None),
        make_stop("16957", "32640", LocationType::StopPoint, Some("16339")),
    ];
    let (_, remap) = collapse_stops(&remap_src);
    let trips = vec![
        trip("158", Some(0), Some("158 NEW YORK"), vec![st("16957", 5, None), st("2", 6, None)]),
        trip("158", Some(0), Some("158 NEW YORK"), vec![st("16957", 3, None)]),
        trip("158", Some(0), Some("FORT LEE"), vec![st("16957", 4, None)]),
    ];
    let opposites = vec![("158".to_string(), "16339".to_string(), "99".to_string())];
    let rows = build_route_stops(&trips, &remap, &opposites);
    assert_eq!(rows.len(), 2);
    assert_eq!(rows[0].route_id, "158");
    assert_eq!(rows[0].stop_id, "16339");
    assert_eq!(rows[0].stop_sequence, 3);
    match &rows[0].data {
        RouteStopData::NjtBus { headsign, direction, opposite_stop_id } => {
            assert_eq!(headsign, "New York");
            assert_eq!(*direction, 0);
            assert_eq!(opposite_stop_id.as_deref(), Some("99"));
        }
        _ => panic!("expected NjtBus route stop data"),
    }
    match &rows[1].data {
        RouteStopData::NjtBus { opposite_stop_id, .. } => assert!(opposite_stop_id.is_none()),
        _ => panic!("expected NjtBus route stop data"),
    }
}

#[test]
fn route_stops_prefer_stop_headsign_and_default_unknown() {
    let (_, remap) = collapse_stops(&vec![]);
    let trips = vec![
        trip("1", Some(1), None, vec![st("10", 1, Some("IVY HILL")), st("11", 2, Some("   "))]),
    ];
    let rows = build_route_stops(&trips, &remap, &vec![]);
    assert_eq!(rows.len(), 2);
    match (&rows[0].data, &rows[1].data) {
        (RouteStopData::NjtBus { headsign: a, .. }, RouteStopData::NjtBus { headsign: b, .. }) => {
            assert_eq!(a, "Ivy Hill");
            assert_eq!(b, "Unknown");
        }
        _ => panic!("expected NjtBus route stop data"),
    }
}

#[test]
fn route_stops_of_both_directions_collapse_to_smaller_sequence() {
    let (_, remap) = collapse_stops(&vec![]);
    let trips = vec![
        trip("605", Some(1), Some("QUAKER BR"), vec![st("15142", 9, None)]),
        trip("605", Some(0), Some("PRINCETON"), vec![st("15142", 2, None)]),
    ];
    let rows = build_route_stops(&trips, &remap, &vec![]);
    assert_eq!(rows.len(), 1);
    assert_eq!(rows[0].stop_sequence, 2);
    match &rows[0].data {
        RouteStopData::NjtBus { direction, .. } => assert_eq!(*direction, 0),
        _ => panic!("expected NjtBus route stop data"),
    }
}

#[test]
fn direction_stops_list_each_stop_once() {
    let (_, remap) = collapse_stops(&vec![]);
    let trips = vec![
        trip("5", Some(0), None, vec![st("a", 1, None), st("b", 2, None)]),
        trip("5", Some(0), None, vec![st("b", 1, None), st("c", 2, None)]),
        trip("5", None, None, vec![st("d", 1, None)]),
        trip("5", Some(1), None, vec![st("c", 1, None)]),
    ];
    let ds = route_direction_stops(&trips, &remap);
    assert_eq!(ds.len(), 1);
    assert_eq!(ds[0].0, "5");
    assert_eq!(ds[0].1, vec!["a", "b", "c", "d"]);
    assert_eq!(ds[0].2, vec!["c"]);
}

#[test]
fn njt_static_dataset_carries_stops_and_routes() {
    let imp = NjtBusStatic;
    assert_eq!(imp.source(), Source::NjtBus);
    assert_eq!(imp.refresh_interval_secs(), 86400);
    let (stops, remap) = collapse_stops(&vec![make_stop("1", "1", LocationType::StopPoint, None)]);
    let d = imp.build_static_dataset(&vec![], &vec![], stops, &remap, &vec![]);
    assert_eq!(d.stops.len(), 1);
    assert!(d.routes.is_empty() && d.route_stops.is_empty() && d.shapes.is_empty());
}

#[test]
fn resolve_stop_id_maps_collapsed_ids_and_keeps_others() {
    let stops = vec![
        make_stop("16339", "32640", LocationType::StopArea, None),
        make_stop("16957", "32640", LocationType::StopPoint, Some("16339")),
    ];
    let (_, remap) = collapse_stops(&stops);
    assert_eq!(remap.resolve_stop_id("16957"), "16339");
    assert_eq!(remap.resolve_stop_id("16339"), "16339");
    assert_eq!(remap.resolve_stop_id("99999"), "99999");
}
