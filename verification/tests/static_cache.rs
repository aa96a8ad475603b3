use trainstatus::route_import::RouteType;
use trainstatus::static_cache::{cache_items, mapped_routes, split_by_route_type, CachePayloads};

fn payloads() -> CachePayloads {
    let s = |x: &str| x.to_string();
    CachePayloads {
        stops: s("[1,2]"),
        bus_stops: s("[2]"),
        train_stops: s("[1]"),
        routes: s("[\"A\"]"),
        bus_routes: s("[]"),
        train_routes: s("[\"A\"]"),
        bus_stops_geojson: s("bsg"),
        train_stops_geojson: s("tsg"),
        stops_geojson: s("sg"),
        bus_routes_geojson: s("brg"),
        train_routes_geojson: s("trg"),
        routes_geojson: s("rg"),
    }
}

#[test]
fn cache_items_list_every_key_with_quoted_hashes() {
    let items = cache_items(&payloads());
    let keys: Vec<&str> = items.iter().map(|(k, _)| k.as_str()).collect();
    assert_eq!(
        keys,
        vec![
            "stops",
            "stops_Bus",
            "stops_Train",
            "routes",
            "routes_Bus",
            "routes_Train",
            "stops_hash",
            "routes_hash",
            "stops_geojson_Bus",
            "stops_geojson_Train",
            "stops_geojson",
            "routes_geojson_Bus",
            "routes_geojson_Train",
            "routes_geojson",
        ]
    );
    assert_eq!(items[1].1, "[2]");
    assert_eq!(items[13].1, "rg");
    let stops_hash = format!("\"{}\"", blake3::hash(b"[1,2]").to_hex());
    assert_eq!(items[6].1, stops_hash);
    assert_eq!(items[6].1.len(), 66);
    assert_ne!(items[6].1, items[7].1);
}

#[test]
fn stops_and_routes_split_by_route_type_in_order() {
    let types = vec![RouteType::Train, RouteType::Bus, RouteType::Bus, RouteType::Train];
    let (bus, train) = split_by_route_type(&types);
    assert_eq!(bus, vec![1, 2]);
    assert_eq!(train, vec![0, 3]);
    let (b, t) = split_by_route_type(&vec![]);
    assert!(b.is_empty() && t.is_empty());
}

#[test]
fn the_map_leaves_out_sir_and_routes_without_lines() {
    let ids = vec!["1".to_string(), "SI".to_string(), "B63".to_string(), "Q1".to_string()];
    assert_eq!(mapped_routes(&ids, &vec![true, true, false, true]), vec![0, 3]);
}
