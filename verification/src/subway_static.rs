//! The MTA subway's static data: stations, routes, the stops each route
//! serves and the platform layout of each station.
use vstd::prelude::*;

use crate::models::{
    StaticDataset,
    default_text_color, text_color_or_default, CarMarker, EgressPoint, EgressType,
    MtaSubwayStopData, PlatformDirection, PlatformEdge, Route, RouteData, RouteStop,
    RouteStopData, Shape, Stop, StopData, StopType, VerticalDirection,
};
use crate::num::{decimal, decimal_string};
use crate::source::Source;
use crate::text::{str_is, string_from_chars};

verus! {

/// A station of the subway infrastructure feed; coordinates are `f64` bit
/// patterns.
pub struct HeliumStation {
    pub station_id: i32,
    pub line: String,
    pub primary_name: String,
    pub secondary_name: Option<String>,
    pub path_adjusted_latitude: u64,
    pub path_adjusted_longitude: u64,
    pub is_major: bool,
    pub station_group_id: String,
    pub canonical_route_ids: Vec<String>,
}

/// A route of the subway infrastructure feed.
pub struct HeliumRoute {
    pub route_id: String,
    pub route_name: String,
    pub color: String,
    pub text_color: Option<String>,
}

/// A GTFS stop id and the station it belongs to.
pub struct HeliumGtfsStop {
    pub gtfs_stop_id: String,
    pub parent_station_id: i32,
}

/// A section of a station's platform bubble.
pub struct HeliumBubbleSection {
    pub station_section_id: String,
    pub placement: String,
    pub title: String,
}

/// A station's platform bubble.
pub struct HeliumBubble {
    pub bubble_id: String,
    pub station_id: i32,
    pub sections: Vec<HeliumBubbleSection>,
}

/// A car marker of the exit strategy feed; `f32` measures are bit patterns.
pub struct ExitStrategyCarMarker {
    pub marked_as: String,
    pub is_opto: Option<bool>,
    pub consist_length_ft: Option<u32>,
    pub position_ft: u32,
    pub direction: String,
}

/// The measured layout of a platform edge; `length_ft` is an `f32` bit pattern.
pub struct ExitStrategySpec {
    pub length_ft: u32,
    pub car_markers: Vec<ExitStrategyCarMarker>,
}

/// An egress point of the exit strategy feed; `position_ft` is an `f32` bit
/// pattern.
pub struct ExitStrategyEgressPoint {
    pub id: i32,
    pub egress_type: String,
    pub position_ft: u32,
    pub vertical_direction: String,
}

/// A platform edge of the exit strategy feed.
pub struct ExitStrategyPlatformEdge {
    pub platform_edge_id: String,
    pub spec: Option<ExitStrategySpec>,
    pub egress_points: Vec<ExitStrategyEgressPoint>,
}

/// A station of the exit strategy feed, keyed by its station id (`mrn`).
pub struct ExitStrategyStation {
    pub mrn: i32,
    pub platform_edges: Vec<ExitStrategyPlatformEdge>,
}

/// The kind of egress a feed name stands for.
pub open spec fn egress_type_spec(s: Seq<char>) -> EgressType {
    if s == seq!['S', 'T', 'A', 'I', 'R', 'C', 'A', 'S', 'E'] {
        EgressType::Staircase
    } else if s == seq!['E', 'L', 'E', 'V', 'A', 'T', 'O', 'R'] {
        EgressType::Elevator
    } else if s == seq!['E', 'S', 'C', 'A', 'L', 'A', 'T', 'O', 'R'] {
        EgressType::Escalator
    } else if s == seq!['F', 'A', 'R', 'E', '_', 'C', 'O', 'N', 'T', 'R', 'O', 'L'] {
        EgressType::FareControl
    } else if s == seq!['D', 'O', 'O', 'R'] {
        EgressType::Door
    } else if s == seq!['E', 'X', 'I', 'T'] {
        EgressType::Exit
    } else if s == seq!['R', 'A', 'M', 'P'] {
        EgressType::Ramp
    } else {
        EgressType::Unknown
    }
}

/// The kind of egress a feed name stands for.
pub fn egress_type_of(s: &str) -> (r: EgressType)
    ensures
        r == egress_type_spec(s@),
{
    let staircase = ['S', 'T', 'A', 'I', 'R', 'C', 'A', 'S', 'E'];
    let elevator = ['E', 'L', 'E', 'V', 'A', 'T', 'O', 'R'];
    let escalator = ['E', 'S', 'C', 'A', 'L', 'A', 'T', 'O', 'R'];
    let fare = ['F', 'A', 'R', 'E', '_', 'C', 'O', 'N', 'T', 'R', 'O', 'L'];
    let door = ['D', 'O', 'O', 'R'];
    let exit = ['E', 'X', 'I', 'T'];
    let ramp = ['R', 'A', 'M', 'P'];
    assert(staircase@ =~= seq!['S', 'T', 'A', 'I', 'R', 'C', 'A', 'S', 'E']);
    assert(elevator@ =~= seq!['E', 'L', 'E', 'V', 'A', 'T', 'O', 'R']);
    assert(escalator@ =~= seq!['E', 'S', 'C', 'A', 'L', 'A', 'T', 'O', 'R']);
    assert(fare@ =~= seq!['F', 'A', 'R', 'E', '_', 'C', 'O', 'N', 'T', 'R', 'O', 'L']);
    assert(door@ =~= seq!['D', 'O', 'O', 'R']);
    assert(exit@ =~= seq!['E', 'X', 'I', 'T']);
    assert(ramp@ =~= seq!['R', 'A', 'M', 'P']);
    if str_is(s, &staircase) {
        EgressType::Staircase
    } else if str_is(s, &elevator) {
        EgressType::Elevator
    } else if str_is(s, &escalator) {
        EgressType::Escalator
    } else if str_is(s, &fare) {
        EgressType::FareControl
    } else if str_is(s, &door) {
        EgressType::Door
    } else if str_is(s, &exit) {
        EgressType::Exit
    } else if str_is(s, &ramp) {
        EgressType::Ramp
    } else {
        EgressType::Unknown
    }
}

/// Whether a feed name says up, down or neither.
pub open spec fn vertical_direction_spec(s: Seq<char>) -> VerticalDirection {
    if s == seq!['U', 'P'] {
        VerticalDirection::Up
    } else if s == seq!['D', 'O', 'W', 'N'] {
        VerticalDirection::Down
    } else {
        VerticalDirection::Level
    }
}

/// Whether a feed name says up, down or neither.
pub fn vertical_direction_of(s: &str) -> (r: VerticalDirection)
    ensures
        r == vertical_direction_spec(s@),
{
    let up = ['U', 'P'];
    let down = ['D', 'O', 'W', 'N'];
    assert(up@ =~= seq!['U', 'P']);
    assert(down@ =~= seq!['D', 'O', 'W', 'N']);
    if str_is(s, &up) {
        VerticalDirection::Up
    } else if str_is(s, &down) {
        VerticalDirection::Down
    } else {
        VerticalDirection::Level
    }
}

/// The direction a car marker is posted for: south when the feed says so,
/// north otherwise.
pub open spec fn platform_direction_spec(s: Seq<char>) -> PlatformDirection {
    if s == seq!['S', 'O', 'U', 'T', 'H'] {
        PlatformDirection::South
    } else {
        PlatformDirection::North
    }
}

/// The direction a car marker is posted for.
pub fn platform_direction_of(s: &str) -> (r: PlatformDirection)
    ensures
        r == platform_direction_spec(s@),
{
    let south = ['S', 'O', 'U', 'T', 'H'];
    assert(south@ =~= seq!['S', 'O', 'U', 'T', 'H']);
    if str_is(s, &south) {
        PlatformDirection::South
    } else {
        PlatformDirection::North
    }
}

/// A stored car marker is the feed's.
pub open spec fn car_marker_matches(r: CarMarker, cm: ExitStrategyCarMarker) -> bool {
    &&& r.marked_as@ == cm.marked_as@
    &&& r.is_opto == match cm.is_opto {
        Some(b) => b,
        None => false,
    }
    &&& r.consist_length_ft == cm.consist_length_ft
    &&& r.position_ft == cm.position_ft
    &&& r.direction == platform_direction_spec(cm.direction@)
}

/// A stored egress point is the feed's.
pub open spec fn egress_point_matches(r: EgressPoint, ep: ExitStrategyEgressPoint) -> bool {
    &&& r.id == ep.id
    &&& r.egress_type == egress_type_spec(ep.egress_type@)
    &&& r.position_ft == ep.position_ft
    &&& r.vertical_direction == vertical_direction_spec(ep.vertical_direction@)
}

/// The stored car markers are the feed's, in order.
pub open spec fn car_markers_match(r: Seq<CarMarker>, cms: Seq<ExitStrategyCarMarker>) -> bool {
    &&& r.len() == cms.len()
    &&& forall|i: int| 0 <= i < r.len() ==> car_marker_matches(#[trigger] r[i], cms[i])
}

/// The stored egress points are the feed's, in order.
pub open spec fn egress_points_match(r: Seq<EgressPoint>, eps: Seq<ExitStrategyEgressPoint>) -> bool {
    &&& r.len() == eps.len()
    &&& forall|i: int| 0 <= i < r.len() ==> egress_point_matches(#[trigger] r[i], eps[i])
}

/// A stored platform edge is the feed's; an edge without a measured layout
/// has length zero and no car markers.
pub open spec fn platform_edge_matches(r: PlatformEdge, pe: ExitStrategyPlatformEdge) -> bool {
    &&& r.id@ == pe.platform_edge_id@
    &&& match pe.spec {
        Some(spec) => r.length_ft == spec.length_ft && car_markers_match(
            r.car_markers@,
            spec.car_markers@,
        ),
        None => r.length_ft == 0 && r.car_markers@.len() == 0,
    }
    &&& egress_points_match(r.egress_points@, pe.egress_points@)
}

/// The stored platform edges are the feed's, in order.
pub open spec fn platform_edges_match(r: Seq<PlatformEdge>, pes: Seq<ExitStrategyPlatformEdge>) -> bool {
    &&& r.len() == pes.len()
    &&& forall|i: int| 0 <= i < r.len() ==> platform_edge_matches(#[trigger] r[i], pes[i])
}

fn car_marker_of(cm: &ExitStrategyCarMarker) -> (r: CarMarker)
    ensures
        car_marker_matches(r, *cm),
{
    CarMarker {
        marked_as: cm.marked_as.clone(),
        is_opto: match cm.is_opto {
            Some(b) => b,
            None => false,
        },
        consist_length_ft: cm.consist_length_ft,
        position_ft: cm.position_ft,
        direction: platform_direction_of(cm.direction.as_str()),
    }
}

fn egress_point_of(ep: &ExitStrategyEgressPoint) -> (r: EgressPoint)
    ensures
        egress_point_matches(r, *ep),
{
    EgressPoint {
        id: ep.id,
        egress_type: egress_type_of(ep.egress_type.as_str()),
        position_ft: ep.position_ft,
        vertical_direction: vertical_direction_of(ep.vertical_direction.as_str()),
    }
}

/// A stored platform edge for a platform edge of the exit strategy feed.
pub fn platform_edge_of(pe: &ExitStrategyPlatformEdge) -> (r: PlatformEdge)
    ensures
        platform_edge_matches(r, *pe),
{
    let mut car_markers: Vec<CarMarker> = Vec::new();
    let mut length_ft: u32 = 0;
    match &pe.spec {
        Some(spec) => {
            length_ft = spec.length_ft;
            let mut i: usize = 0;
            while i < spec.car_markers.len()
                invariant
                    i <= spec.car_markers@.len(),
                    car_markers@.len() == i,
                    forall|j: int|
                        0 <= j < i ==> car_marker_matches(
                            #[trigger] car_markers@[j],
                            spec.car_markers@[j],
                        ),
                decreases spec.car_markers.len() - i,
            {
                car_markers.push(car_marker_of(&spec.car_markers[i]));
                i = i + 1;
            }
        },
        None => {},
    }
    let mut egress_points: Vec<EgressPoint> = Vec::new();
    let mut k: usize = 0;
    while k < pe.egress_points.len()
        invariant
            k <= pe.egress_points@.len(),
            egress_points@.len() == k,
            forall|j: int|
                0 <= j < k ==> egress_point_matches(#[trigger] egress_points@[j], pe.egress_points@[j]),
        decreases pe.egress_points.len() - k,
    {
        egress_points.push(egress_point_of(&pe.egress_points[k]));
        k = k + 1;
    }
    PlatformEdge { id: pe.platform_edge_id.clone(), length_ft, car_markers, egress_points }
}

/// The text of the last section placed at `placement` (its title, or its
/// section id), or nothing when no section is placed there.
pub open spec fn placed_text(secs: Seq<HeliumBubbleSection>, placement: Seq<char>, title: bool) -> Seq<
    char,
>
    decreases secs.len(),
{
    if secs.len() == 0 {
        Seq::empty()
    } else if secs.last().placement@ == placement {
        if title {
            secs.last().title@
        } else {
            secs.last().station_section_id@
        }
    } else {
        placed_text(secs.drop_last(), placement, title)
    }
}

/// The placement of the northbound side of a bubble.
pub open spec fn top() -> Seq<char> {
    seq!['T', 'O', 'P']
}

/// The placement of the southbound side of a bubble.
pub open spec fn bottom() -> Seq<char> {
    seq!['B', 'O', 'T', 'T', 'O', 'M']
}

/// The text of the last section of a bubble placed at `placement`.
pub fn placed_section_text(secs: &Vec<HeliumBubbleSection>, placement: &[char], title: bool) -> (r:
    String)
    ensures
        r@ == placed_text(secs@, placement@, title),
{
    let mut cur = String::new();
    let mut i: usize = 0;
    while i < secs.len()
        invariant
            i <= secs@.len(),
            cur@ == placed_text(secs@.subrange(0, i as int), placement@, title),
        decreases secs.len() - i,
    {
        let ghost pre = secs@.subrange(0, i as int);
        let ghost nxt = secs@.subrange(0, i + 1);
        assert(nxt.drop_last() =~= pre);
        if str_is(secs[i].placement.as_str(), placement) {
            if title {
                cur = secs[i].title.clone();
            } else {
                cur = secs[i].station_section_id.clone();
            }
        }
        i = i + 1;
    }
    assert(secs@.subrange(0, i as int) =~= secs@);
    cur
}

/// The last bubble of a station: later bubbles of the same station replace
/// earlier ones.
pub open spec fn bubble_of(bs: Seq<HeliumBubble>, station_id: i32) -> Option<HeliumBubble>
    decreases bs.len(),
{
    if bs.len() == 0 {
        None
    } else if bs.last().station_id == station_id {
        Some(bs.last())
    } else {
        bubble_of(bs.drop_last(), station_id)
    }
}

/// The position of the last bubble of a station.
pub fn find_bubble(bs: &Vec<HeliumBubble>, station_id: i32) -> (r: Option<usize>)
    ensures
        r is None <==> bubble_of(bs@, station_id) is None,
        r matches Some(k) ==> k < bs@.len() && bubble_of(bs@, station_id) == Some(bs@[k as int]),
{
    let mut found: Option<usize> = None;
    let mut i: usize = 0;
    while i < bs.len()
        invariant
            i <= bs@.len(),
            found is None <==> bubble_of(bs@.subrange(0, i as int), station_id) is None,
            found matches Some(k) ==> k < i && bubble_of(bs@.subrange(0, i as int), station_id)
                == Some(bs@[k as int]),
        decreases bs.len() - i,
    {
        let ghost pre = bs@.subrange(0, i as int);
        let ghost nxt = bs@.subrange(0, i + 1);
        assert(nxt.drop_last() =~= pre);
        if bs[i].station_id == station_id {
            found = Some(i);
        }
        i = i + 1;
    }
    assert(bs@.subrange(0, i as int) =~= bs@);
    found
}

/// The first GTFS stop id of a station.
pub open spec fn gtfs_stop_of(gs: Seq<HeliumGtfsStop>, station_id: i32) -> Option<Seq<char>>
    decreases gs.len(),
{
    if gs.len() == 0 {
        None
    } else {
        match gtfs_stop_of(gs.drop_last(), station_id) {
            Some(x) => Some(x),
            None => if gs.last().parent_station_id == station_id {
                Some(gs.last().gtfs_stop_id@)
            } else {
                None
            },
        }
    }
}

/// The first GTFS stop id of a station, or nothing.
pub fn station_gtfs_stop_id(gs: &Vec<HeliumGtfsStop>, station_id: i32) -> (r: String)
    ensures
        r@ == match gtfs_stop_of(gs@, station_id) {
            Some(x) => x,
            None => Seq::empty(),
        },
{
    let mut i: usize = 0;
    while i < gs.len()
        invariant
            i <= gs@.len(),
            gtfs_stop_of(gs@.subrange(0, i as int), station_id) is None,
        decreases gs.len() - i,
    {
        let ghost pre = gs@.subrange(0, i as int);
        let ghost nxt = gs@.subrange(0, i + 1);
        assert(nxt.drop_last() =~= pre);
        if gs[i].parent_station_id == station_id {
            proof {
                lemma_gtfs_stop_prefix(gs@, station_id, i + 1);
            }
            return gs[i].gtfs_stop_id.clone();
        }
        i = i + 1;
    }
    assert(gs@.subrange(0, i as int) =~= gs@);
    String::new()
}

proof fn lemma_gtfs_stop_prefix(gs: Seq<HeliumGtfsStop>, station_id: i32, k: int)
    requires
        0 <= k <= gs.len(),
        gtfs_stop_of(gs.subrange(0, k), station_id) is Some,
    ensures
        gtfs_stop_of(gs, station_id) == gtfs_stop_of(gs.subrange(0, k), station_id),
    decreases gs.len() - k,
{
    if k < gs.len() {
        assert(gs.subrange(0, k + 1).drop_last() =~= gs.subrange(0, k));
        lemma_gtfs_stop_prefix(gs, station_id, k + 1);
    } else {
        assert(gs.subrange(0, k) =~= gs);
    }
}

/// The exit strategy of a station: later entries of the same station replace
/// earlier ones.
pub open spec fn exit_of(es: Seq<ExitStrategyStation>, station_id: i32) -> Option<ExitStrategyStation>
    decreases es.len(),
{
    if es.len() == 0 {
        None
    } else if es.last().mrn == station_id {
        Some(es.last())
    } else {
        exit_of(es.drop_last(), station_id)
    }
}

/// The stored platform edges of a station: those of its exit strategy, or
/// none.
pub fn station_platform_edges(es: &Vec<ExitStrategyStation>, station_id: i32) -> (r: Vec<
    PlatformEdge,
>)
    ensures
        match exit_of(es@, station_id) {
            Some(e) => platform_edges_match(r@, e.platform_edges@),
            None => r@.len() == 0,
        },
{
    let mut found: Option<usize> = None;
    let mut i: usize = 0;
    while i < es.len()
        invariant
            i <= es@.len(),
            found is None <==> exit_of(es@.subrange(0, i as int), station_id) is None,
            found matches Some(k) ==> k < i && exit_of(es@.subrange(0, i as int), station_id)
                == Some(es@[k as int]),
        decreases es.len() - i,
    {
        let ghost pre = es@.subrange(0, i as int);
        let ghost nxt = es@.subrange(0, i + 1);
        assert(nxt.drop_last() =~= pre);
        if es[i].mrn == station_id {
            found = Some(i);
        }
        i = i + 1;
    }
    assert(es@.subrange(0, i as int) =~= es@);
    let mut out: Vec<PlatformEdge> = Vec::new();
    match found {
        Some(k) => {
            let pes = &es[k].platform_edges;
            let mut j: usize = 0;
            while j < pes.len()
                invariant
                    j <= pes@.len(),
                    out@.len() == j,
                    forall|m: int| 0 <= m < j ==> platform_edge_matches(#[trigger] out@[m], pes@[m]),
                decreases pes.len() - j,
            {
                out.push(platform_edge_of(&pes[j]));
                j = j + 1;
            }
        },
        None => {},
    }
    out
}

/// A station's name: the primary name, and the secondary one after a hyphen
/// when there is a non-empty one.
pub open spec fn station_name_spec(primary: Seq<char>, secondary: Option<Seq<char>>) -> Seq<char> {
    match secondary {
        Some(sec) => if sec.len() > 0 {
            primary + seq!['-'] + sec
        } else {
            primary
        },
        None => primary,
    }
}

/// A station's name.
pub fn station_name(primary: &String, secondary: &Option<String>) -> (r: String)
    ensures
        r@ == station_name_spec(
            primary@,
            match secondary {
                Some(s) => Some(s@),
                None => None,
            },
        ),
{
    match secondary {
        Some(sec) => {
            if sec.unicode_len() > 0 {
                let mut v = crate::text::str_chars(primary.as_str());
                v.push('-');
                let w = crate::text::str_chars(sec.as_str());
                let mut i: usize = 0;
                let ghost base = v@;
                while i < w.len()
                    invariant
                        i <= w@.len(),
                        v@ == base + w@.subrange(0, i as int),
                    decreases w.len() - i,
                {
                    v.push(w[i]);
                    i = i + 1;
                    assert(v@ =~= base + w@.subrange(0, i as int));
                }
                assert(w@.subrange(0, i as int) =~= w@);
                assert(v@ =~= primary@ + seq!['-'] + sec@);
                string_from_chars(v.as_slice())
            } else {
                primary.clone()
            }
        },
        None => primary.clone(),
    }
}

/// The text of a bubble's side, or nothing without a bubble.
pub open spec fn bubble_text(b: Option<HeliumBubble>, placement: Seq<char>) -> Seq<char> {
    match b {
        Some(b) => placed_text(b.sections@, placement, true),
        None => Seq::empty(),
    }
}

/// The stored subway data of a station is built from the feeds.
pub open spec fn subway_data_matches(
    d: MtaSubwayStopData,
    s: HeliumStation,
    bubbles: Seq<HeliumBubble>,
    gtfs_stops: Seq<HeliumGtfsStop>,
    exits: Seq<ExitStrategyStation>,
) -> bool {
    let b = bubble_of(bubbles, s.station_id);
    &&& d.gtfs_stop_id@ == match gtfs_stop_of(gtfs_stops, s.station_id) {
        Some(x) => x,
        None => Seq::empty(),
    }
    &&& d.bubble_id@ == match b {
        Some(b) => b.bubble_id@,
        None => Seq::empty(),
    }
    &&& d.north_headsign@ == bubble_text(b, top())
    &&& d.south_headsign@ == bubble_text(b, bottom())
    &&& match exit_of(exits, s.station_id) {
        Some(e) => platform_edges_match(d.platform_edges@, e.platform_edges@),
        None => d.platform_edges@.len() == 0,
    }
    &&& d.line@ == s.line@
    &&& d.is_major == s.is_major
}

/// A stored stop is the station's.
pub open spec fn subway_stop_matches(
    r: Stop,
    s: HeliumStation,
    bubbles: Seq<HeliumBubble>,
    gtfs_stops: Seq<HeliumGtfsStop>,
    exits: Seq<ExitStrategyStation>,
) -> bool {
    &&& r.id@ == decimal(s.station_id as int)
    &&& r.name@ == station_name_spec(s.primary_name@, crate::ids::opt_string_view(s.secondary_name))
    &&& r.longitude == s.path_adjusted_longitude
    &&& r.latitude == s.path_adjusted_latitude
    &&& match r.data {
        StopData::MtaSubway(d) => subway_data_matches(d, s, bubbles, gtfs_stops, exits),
        _ => false,
    }
}

/// The stored stop of a station.
pub fn subway_stop(
    s: &HeliumStation,
    bubbles: &Vec<HeliumBubble>,
    gtfs_stops: &Vec<HeliumGtfsStop>,
    exits: &Vec<ExitStrategyStation>,
) -> (r: Stop)
    ensures
        subway_stop_matches(r, *s, bubbles@, gtfs_stops@, exits@),
{
    let name = station_name(&s.primary_name, &s.secondary_name);
    let top_lit = ['T', 'O', 'P'];
    let bottom_lit = ['B', 'O', 'T', 'T', 'O', 'M'];
    assert(top_lit@ =~= top());
    assert(bottom_lit@ =~= bottom());
    let (north, south, bubble_id) = match find_bubble(bubbles, s.station_id) {
        Some(k) => (
            placed_section_text(&bubbles[k].sections, &top_lit, true),
            placed_section_text(&bubbles[k].sections, &bottom_lit, true),
            bubbles[k].bubble_id.clone(),
        ),
        None => (String::new(), String::new(), String::new()),
    };
    let gtfs_stop_id = station_gtfs_stop_id(gtfs_stops, s.station_id);
    let platform_edges = station_platform_edges(exits, s.station_id);
    Stop {
        id: decimal_string(s.station_id as i64),
        name,
        longitude: s.path_adjusted_longitude,
        latitude: s.path_adjusted_latitude,
        data: StopData::MtaSubway(
            MtaSubwayStopData {
                gtfs_stop_id,
                bubble_id,
                platform_edges,
                line: s.line.clone(),
                is_major: s.is_major,
                north_headsign: north,
                south_headsign: south,
            },
        ),
    }
}

/// The stored stops of the stations, in order.
pub fn subway_stops(
    stations: &Vec<HeliumStation>,
    bubbles: &Vec<HeliumBubble>,
    gtfs_stops: &Vec<HeliumGtfsStop>,
    exits: &Vec<ExitStrategyStation>,
) -> (r: Vec<Stop>)
    ensures
        r@.len() == stations@.len(),
        forall|i: int|
            0 <= i < r@.len() ==> subway_stop_matches(
                #[trigger] r@[i],
                stations@[i],
                bubbles@,
                gtfs_stops@,
                exits@,
            ),
{
    let mut out: Vec<Stop> = Vec::new();
    let mut i: usize = 0;
    while i < stations.len()
        invariant
            i <= stations@.len(),
            out@.len() == i,
            forall|j: int|
                0 <= j < i ==> subway_stop_matches(
                    #[trigger] out@[j],
                    stations@[j],
                    bubbles@,
                    gtfs_stops@,
                    exits@,
                ),
        decreases stations.len() - i,
    {
        out.push(subway_stop(&stations[i], bubbles, gtfs_stops, exits));
        i = i + 1;
    }
    out
}

/// A stored route is the feed's: the route id doubles as the short name, and
/// the text color defaults to white.
pub open spec fn subway_route_matches(r: Route, h: HeliumRoute) -> bool {
    &&& r.id@ == h.route_id@
    &&& r.long_name@ == h.route_name@
    &&& r.short_name@ == h.route_id@
    &&& r.color@ == h.color@
    &&& r.text_color@ == match h.text_color {
        Some(c) => c@,
        None => default_text_color(),
    }
    &&& r.data is MtaSubway
}

/// The stored routes of the feed's routes, in order.
pub fn subway_routes(routes: &Vec<HeliumRoute>) -> (r: Vec<Route>)
    ensures
        r@.len() == routes@.len(),
        forall|i: int| 0 <= i < r@.len() ==> subway_route_matches(#[trigger] r@[i], routes@[i]),
{
    let mut out: Vec<Route> = Vec::new();
    let mut i: usize = 0;
    while i < routes.len()
        invariant
            i <= routes@.len(),
            out@.len() == i,
            forall|j: int| 0 <= j < i ==> subway_route_matches(#[trigger] out@[j], routes@[j]),
        decreases routes.len() - i,
    {
        let h = &routes[i];
        out.push(
            Route {
                id: h.route_id.clone(),
                long_name: h.route_name.clone(),
                short_name: h.route_id.clone(),
                color: h.color.clone(),
                text_color: text_color_or_default(&h.text_color),
                data: RouteData::MtaSubway,
            },
        );
        i = i + 1;
    }
    out
}

/// The route stops a station contributes: one per canonical route, numbered
/// by the route's position in the station's list.
pub open spec fn station_route_stops(s: HeliumStation) -> Seq<(Seq<char>, Seq<char>, i16)> {
    Seq::new(
        s.canonical_route_ids@.len(),
        |i: int| (s.canonical_route_ids@[i]@, decimal(s.station_id as int), i as i16),
    )
}

/// The route stops of all stations, station by station.
pub open spec fn subway_route_stops_spec(ss: Seq<HeliumStation>) -> Seq<(Seq<char>, Seq<char>, i16)>
    decreases ss.len(),
{
    if ss.len() == 0 {
        Seq::empty()
    } else {
        subway_route_stops_spec(ss.drop_last()) + station_route_stops(ss.last())
    }
}

/// A stored route stop is the expected one; every subway route stop is full
/// time.
pub open spec fn subway_route_stop_matches(r: RouteStop, e: (Seq<char>, Seq<char>, i16)) -> bool {
    &&& r.route_id@ == e.0
    &&& r.stop_id@ == e.1
    &&& r.stop_sequence == e.2
    &&& r.data matches RouteStopData::MtaSubway { stop_type } && stop_type == StopType::FullTime
}

/// The route stops of the stations, station by station.
pub fn subway_route_stops(stations: &Vec<HeliumStation>) -> (r: Vec<RouteStop>)
    ensures
        r@.len() == subway_route_stops_spec(stations@).len(),
        forall|i: int|
            0 <= i < r@.len() ==> subway_route_stop_matches(
                #[trigger] r@[i],
                subway_route_stops_spec(stations@)[i],
            ),
{
    let mut out: Vec<RouteStop> = Vec::new();
    let mut i: usize = 0;
    while i < stations.len()
        invariant
            i <= stations@.len(),
            out@.len() == subway_route_stops_spec(stations@.subrange(0, i as int)).len(),
            forall|j: int|
                0 <= j < out@.len() ==> subway_route_stop_matches(
                    #[trigger] out@[j],
                    subway_route_stops_spec(stations@.subrange(0, i as int))[j],
                ),
        decreases stations.len() - i,
    {
        let ghost pre = stations@.subrange(0, i as int);
        let ghost nxt = stations@.subrange(0, i + 1);
        assert(nxt.drop_last() =~= pre);
        let ghost base = subway_route_stops_spec(pre);
        let ghost add = station_route_stops(stations@[i as int]);
        let ghost n0 = out@.len();
        let s = &stations[i];
        let stop_id = decimal_string(s.station_id as i64);
        let mut k: usize = 0;
        while k < s.canonical_route_ids.len()
            invariant
                k <= s.canonical_route_ids@.len(),
                add == station_route_stops(*s),
                n0 == base.len(),
                stop_id@ == decimal(s.station_id as int),
                out@.len() == n0 + k,
                forall|j: int|
                    0 <= j < out@.len() ==> subway_route_stop_matches(
                        #[trigger] out@[j],
                        (base + add)[j],
                    ),
            decreases s.canonical_route_ids.len() - k,
        {
            out.push(
                RouteStop {
                    route_id: s.canonical_route_ids[k].clone(),
                    stop_id: stop_id.clone(),
                    stop_sequence: k as i16,
                    data: RouteStopData::MtaSubway { stop_type: StopType::FullTime },
                },
            );
            k = k + 1;
        }
        assert(subway_route_stops_spec(nxt) == base + add);
        i = i + 1;
    }
    assert(stations@.subrange(0, i as int) =~= stations@);
    out
}

/// The shapes of the shape segments with at least two points, in order.
pub open spec fn subway_shapes_spec(segs: Seq<(String, Vec<(u64, u64)>)>) -> Seq<(Seq<char>, Seq<(u64, u64)>)>
    decreases segs.len(),
{
    if segs.len() == 0 {
        Seq::empty()
    } else {
        let prev = subway_shapes_spec(segs.drop_last());
        if segs.last().1@.len() < 2 {
            prev
        } else {
            prev.push((segs.last().0@, segs.last().1@))
        }
    }
}

/// The shapes of the shape segments with at least two points, in order.
pub fn subway_shapes(segs: &Vec<(String, Vec<(u64, u64)>)>) -> (r: Vec<Shape>)
    ensures
        r@.len() == subway_shapes_spec(segs@).len(),
        forall|i: int|
            0 <= i < r@.len() ==> (#[trigger] r@[i]).id@ == subway_shapes_spec(segs@)[i].0
                && r@[i].coords@ == subway_shapes_spec(segs@)[i].1 && r@[i].source
                == Source::MtaSubway,
{
    let mut out: Vec<Shape> = Vec::new();
    let mut i: usize = 0;
    while i < segs.len()
        invariant
            i <= segs@.len(),
            out@.len() == subway_shapes_spec(segs@.subrange(0, i as int)).len(),
            forall|j: int|
                0 <= j < out@.len() ==> (#[trigger] out@[j]).id@ == subway_shapes_spec(
                    segs@.subrange(0, i as int),
                )[j].0 && out@[j].coords@ == subway_shapes_spec(segs@.subrange(0, i as int))[j].1
                    && out@[j].source == Source::MtaSubway,
        decreases segs.len() - i,
    {
        let ghost pre = segs@.subrange(0, i as int);
        let ghost nxt = segs@.subrange(0, i + 1);
        assert(nxt.drop_last() =~= pre);
        if segs[i].1.len() >= 2 {
            let coords = clone_coords(&segs[i].1);
            out.push(Shape { id: segs[i].0.clone(), source: Source::MtaSubway, coords });
        }
        i = i + 1;
    }
    assert(segs@.subrange(0, i as int) =~= segs@);
    out
}

/// A copy of a list of coordinates.
pub fn clone_coords(v: &Vec<(u64, u64)>) -> (r: Vec<(u64, u64)>)
    ensures
        r@ == v@,
{
    let mut out: Vec<(u64, u64)> = Vec::new();
    let mut i: usize = 0;
    while i < v.len()
        invariant
            i <= v@.len(),
            out@ == v@.subrange(0, i as int),
        decreases v.len() - i,
    {
        out.push(v[i]);
        i = i + 1;
        assert(out@ =~= v@.subrange(0, i as int));
    }
    out
}

/// The subway infrastructure feed; shape segments are listed with their
/// coordinates as `f64` bit patterns.
pub struct HeliumSubwayInfrastructure {
    pub stations: Vec<HeliumStation>,
    pub routes: Vec<HeliumRoute>,
    pub shape_segments: Vec<(String, Vec<(u64, u64)>)>,
    pub gtfs_stops: Vec<HeliumGtfsStop>,
    pub bubbles: Vec<HeliumBubble>,
}

/// The static importer of the MTA subway.
pub struct MtaSubwayStatic;

impl MtaSubwayStatic {
    /// The source this importer feeds.
    pub fn source(&self) -> (s: Source)
        ensures
            s == Source::MtaSubway,
    {
        Source::MtaSubway
    }

    /// How often the static data is refreshed, in seconds: every three days.
    pub fn refresh_interval_secs(&self) -> (secs: u64)
        ensures
            secs == 60 * 60 * 24 * 3,
    {
        60 * 60 * 24 * 3
    }

    /// The routes, stations, route stops and shapes that the infrastructure
    /// and exit strategy feeds describe.
    pub fn build_dataset(
        &self,
        infra: &HeliumSubwayInfrastructure,
        exits: &Vec<ExitStrategyStation>,
    ) -> (d: StaticDataset)
        ensures
            d.source == Source::MtaSubway,
            d.routes@.len() == infra.routes@.len(),
            forall|i: int|
                0 <= i < d.routes@.len() ==> subway_route_matches(
                    #[trigger] d.routes@[i],
                    infra.routes@[i],
                ),
            d.stops@.len() == infra.stations@.len(),
            forall|i: int|
                0 <= i < d.stops@.len() ==> subway_stop_matches(
                    #[trigger] d.stops@[i],
                    infra.stations@[i],
                    infra.bubbles@,
                    infra.gtfs_stops@,
                    exits@,
                ),
            d.route_stops@.len() == subway_route_stops_spec(infra.stations@).len(),
            forall|i: int|
                0 <= i < d.route_stops@.len() ==> subway_route_stop_matches(
                    #[trigger] d.route_stops@[i],
                    subway_route_stops_spec(infra.stations@)[i],
                ),
            d.shapes@.len() == subway_shapes_spec(infra.shape_segments@).len(),
            forall|i: int|
                0 <= i < d.shapes@.len() ==> (#[trigger] d.shapes@[i]).id@ == subway_shapes_spec(
                    infra.shape_segments@,
                )[i].0 && d.shapes@[i].coords@ == subway_shapes_spec(infra.shape_segments@)[i].1
                    && d.shapes@[i].source == Source::MtaSubway,
    {
        StaticDataset {
            source: Source::MtaSubway,
            routes: subway_routes(&infra.routes),
            stops: subway_stops(&infra.stations, &infra.bubbles, &infra.gtfs_stops, exits),
            route_stops: subway_route_stops(&infra.stations),
            shapes: subway_shapes(&infra.shape_segments),
        }
    }
}

} // verus!
