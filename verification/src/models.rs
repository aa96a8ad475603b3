//! The static data model shared by every source: routes, stops and the stops
//! each route serves. Coordinates and other floating-point measures are
//! carried as the bit patterns of their values and never computed on here.
use vstd::prelude::*;

use crate::source::Source;

verus! {

/// The compass direction a bus stop faces.
#[derive(Clone, Copy, Debug, PartialEq, Eq, Structural)]
pub enum CompassDirection {
    N,
    NE,
    E,
    SE,
    S,
    SW,
    W,
    NW,
    Unknown,
}

/// What kind of way a subway platform edge leads out by.
#[derive(Clone, Copy, Debug, PartialEq, Eq, Structural)]
pub enum EgressType {
    Staircase,
    Elevator,
    Escalator,
    FareControl,
    Door,
    Exit,
    Ramp,
    Unknown,
}

/// Whether an egress point leads up, down or neither.
#[derive(Clone, Copy, Debug, PartialEq, Eq, Structural)]
pub enum VerticalDirection {
    Up,
    Down,
    Level,
}

/// The direction of travel a car marker is posted for.
#[derive(Clone, Copy, Debug, PartialEq, Eq, Structural)]
pub enum PlatformDirection {
    North,
    South,
}

/// A car marker on a subway platform edge; `f32` measures are bit patterns.
#[derive(Clone, Debug)]
pub struct CarMarker {
    pub marked_as: String,
    pub is_opto: bool,
    pub consist_length_ft: Option<u32>,
    pub position_ft: u32,
    pub direction: PlatformDirection,
}

/// A way out of a subway platform edge; `position_ft` is an `f32` bit pattern.
#[derive(Clone, Debug)]
pub struct EgressPoint {
    pub id: i32,
    pub egress_type: EgressType,
    pub position_ft: u32,
    pub vertical_direction: VerticalDirection,
}

/// One edge of a subway platform; `length_ft` is an `f32` bit pattern.
#[derive(Clone, Debug)]
pub struct PlatformEdge {
    pub id: String,
    pub length_ft: u32,
    pub car_markers: Vec<CarMarker>,
    pub egress_points: Vec<EgressPoint>,
}

/// MTA subway data of a stored stop (a station).
#[derive(Clone, Debug)]
pub struct MtaSubwayStopData {
    pub gtfs_stop_id: String,
    pub bubble_id: String,
    pub platform_edges: Vec<PlatformEdge>,
    pub line: String,
    pub is_major: bool,
    pub north_headsign: String,
    pub south_headsign: String,
}

/// MTA bus data of a stored stop; `bearing` is an `f64` bit pattern.
#[derive(Clone, Debug)]
pub struct MtaBusStopData {
    pub bearing: Option<u64>,
    pub is_boardable: bool,
    pub direction: CompassDirection,
}

/// NJ Transit data of a stored stop.
#[derive(Clone, Debug)]
pub struct NjtBusStopData {
    pub stop_code: String,
}

/// Source-specific data of a stored stop.
#[derive(Clone, Debug)]
pub enum StopData {
    MtaSubway(MtaSubwayStopData),
    MtaBus(MtaBusStopData),
    NjtBus(NjtBusStopData),
}

/// A stored stop; coordinates are `f64` bit patterns.
#[derive(Clone, Debug)]
pub struct Stop {
    pub id: String,
    pub name: String,
    pub longitude: u64,
    pub latitude: u64,
    pub data: StopData,
}

/// How often a subway route serves a station.
#[derive(Clone, Copy, Debug, PartialEq, Eq, Structural)]
pub enum StopType {
    FullTime,
    PartTime,
    LateNight,
    RushHourOneDirection,
    RushHour,
}

/// Source-specific data of a route's stop.
#[derive(Clone, Debug)]
pub enum RouteStopData {
    MtaSubway { stop_type: StopType },
    MtaBus {
        headsign: String,
        direction: i16,
        opposite_stop_id: Option<String>,
        shape_ids: Vec<String>,
    },
    NjtBus { headsign: String, direction: i16, opposite_stop_id: Option<String> },
}

/// A stop that a route serves, with its position along the route.
#[derive(Clone, Debug)]
pub struct RouteStop {
    pub route_id: String,
    pub stop_id: String,
    pub stop_sequence: i16,
    pub data: RouteStopData,
}

/// One direction of an MTA bus route with its headsign.
#[derive(Clone, Debug)]
pub struct MtaBusDirection {
    pub direction_id: i16,
    pub destination: String,
    pub via: Vec<String>,
}

/// MTA bus data of a route.
#[derive(Clone, Debug)]
pub struct MtaBusRouteData {
    pub sort_key: i32,
    pub service_types: Vec<String>,
    pub borough: Option<String>,
    pub name_prefix: String,
    pub name_number: i32,
    pub name_suffix: Option<String>,
    pub directions: Vec<MtaBusDirection>,
    pub shape_ids: Vec<String>,
}

/// Source-specific data of a route.
#[derive(Clone, Debug)]
pub enum RouteData {
    MtaSubway,
    MtaBus(MtaBusRouteData),
    NjtBus,
}

/// A stored route.
#[derive(Clone, Debug)]
pub struct Route {
    pub id: String,
    pub long_name: String,
    pub short_name: String,
    pub color: String,
    pub text_color: String,
    pub data: RouteData,
}

/// A shape: a polyline of `(longitude, latitude)` pairs of `f64` bit patterns.
#[derive(Clone, Debug)]
pub struct Shape {
    pub id: String,
    pub source: Source,
    pub coords: Vec<(u64, u64)>,
}

/// Everything a static import stores for one source.
pub struct StaticDataset {
    pub source: Source,
    pub routes: Vec<Route>,
    pub stops: Vec<Stop>,
    pub route_stops: Vec<RouteStop>,
    pub shapes: Vec<Shape>,
}

/// The text color of a route whose feed gives none.
pub open spec fn default_text_color() -> Seq<char> {
    seq!['#', 'F', 'F', 'F', 'F', 'F', 'F']
}

/// The text color of a route: the feed's, or white.
pub fn text_color_or_default(c: &Option<String>) -> (r: String)
    ensures
        r@ == match c {
            Some(s) => s@,
            None => default_text_color(),
        },
{
    match c {
        Some(s) => s.clone(),
        None => {
            let w = ['#', 'F', 'F', 'F', 'F', 'F', 'F'];
            let r = crate::text::string_from_chars(&w);
            assert(w@ =~= default_text_color());
            r
        },
    }
}

} // verus!
