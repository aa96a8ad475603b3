//! Static data of MTA buses.
use vstd::prelude::*;

use crate::models::{
    default_text_color, text_color_or_default, CompassDirection, MtaBusDirection, MtaBusRouteData,
    MtaBusStopData, Route, RouteData, RouteStop, RouteStopData, Shape, StaticDataset, Stop,
    StopData,
};
use crate::source::Source;
use crate::subway_static::clone_coords;
use crate::text::{join_with, lemma_join_push};
use crate::njt_static::{chars_lt, seq_lt};
use crate::num::{decimal, decimal_string};
use crate::subway_realtime::{clone_strings, strings_view};
use crate::text::{str_chars, to_uppercase, uppercase_of};
use crate::text::{string_from_chars, trim_chars, trim_spec};

verus! {

/// The distinct terminals of a route's directions: each destination trimmed,
/// empty ones dropped, and a terminal repeated by the next direction kept once.
pub open spec fn terminals(ds: Seq<MtaBusDirection>) -> Seq<Seq<char>>
    decreases ds.len(),
{
    if ds.len() == 0 {
        Seq::empty()
    } else {
        let t = terminals(ds.drop_last());
        let x = trim_spec(ds.last().destination@);
        if x.len() == 0 {
            t
        } else if t.len() > 0 && t.last() == x {
            t
        } else {
            t.push(x)
        }
    }
}

/// A route's long name: "last terminal - first terminal", the single terminal
/// when there is one, or the route name when there is none.
pub open spec fn route_long_name_spec(route_name: Seq<char>, ds: Seq<MtaBusDirection>) -> Seq<char> {
    let t = terminals(ds);
    if t.len() == 0 {
        route_name
    } else if t.len() == 1 {
        t[0]
    } else {
        t.last() + seq![' ', '-', ' '] + t[0]
    }
}

/// The feed has no route long name, so build one out of the two terminals the
/// way the MTA writes them on schedules ("Bay Ridge 4 Av - Manhattan Beach").
/// Falls back to the route name for the handful of routes with one direction.
pub fn route_long_name(route_name: &str, directions: &[MtaBusDirection]) -> (r: String)
    ensures
        r@ == route_long_name_spec(route_name@, directions@),
{
    let mut terms: Vec<Vec<char>> = Vec::new();
    let mut i: usize = 0;
    while i < directions.len()
        invariant
            i <= directions@.len(),
            terms@.len() == terminals(directions@.subrange(0, i as int)).len(),
            forall|j: int|
                0 <= j < terms@.len() ==> (#[trigger] terms@[j])@ == terminals(
                    directions@.subrange(0, i as int),
                )[j],
        decreases directions.len() - i,
    {
        let ghost pre = directions@.subrange(0, i as int);
        let ghost cur = directions@.subrange(0, i + 1);
        assert(cur.drop_last() =~= pre);
        let raw = str_chars(directions[i].destination.as_str());
        let d = trim_chars(&raw);
        if d.len() > 0 {
            let dup = terms.len() > 0 && crate::text::chars_eq(
                terms[terms.len() - 1].as_slice(),
                d.as_slice(),
            );
            if !dup {
                terms.push(d);
            }
        }
        i = i + 1;
        assert forall|j: int| 0 <= j < terms@.len() implies (#[trigger] terms@[j])@ == terminals(
            cur,
        )[j] by {}
    }
    assert(directions@.subrange(0, i as int) =~= directions@);
    let n = terms.len();
    if n == 0 {
        let chars = str_chars(route_name);
        string_from_chars(chars.as_slice())
    } else if n == 1 {
        string_from_chars(terms[0].as_slice())
    } else {
        let mut out: Vec<char> = terms[n - 1].clone();
        out.push(' ');
        out.push('-');
        out.push(' ');
        let first = &terms[0];
        let mut k: usize = 0;
        let ghost base = out@;
        while k < first.len()
            invariant
                k <= first@.len(),
                out@ == base + first@.subrange(0, k as int),
            decreases first.len() - k,
        {
            out.push(first[k]);
            k = k + 1;
            assert(out@ =~= base + first@.subrange(0, k as int));
        }
        assert(first@.subrange(0, first@.len() as int) =~= first@);
        assert(out@ =~= terms@[n - 1]@ + seq![' ', '-', ' '] + terms@[0]@);
        string_from_chars(out.as_slice())
    }
}

/// A headsign of an MTA bus route direction.
pub struct HeliumBusHeadsign {
    pub destination: String,
    pub via: Vec<String>,
}

/// A direction of an MTA bus route in the infrastructure feed.
pub struct HeliumBusRouteDirection {
    pub direction_id: i16,
    pub headsign: HeliumBusHeadsign,
}

/// A route of the MTA bus infrastructure feed.
pub struct HeliumBusRoute {
    pub route_id: String,
    pub route_name: String,
    pub name_prefix: String,
    pub name_number: i32,
    pub name_suffix: Option<String>,
    pub borough: Option<String>,
    pub color: String,
    pub text_color: Option<String>,
    pub sort_key: i32,
    pub service_types: Vec<String>,
    pub directions: Vec<HeliumBusRouteDirection>,
}

/// A route serving a stop, with one of its service types and the shapes it
/// runs along.
pub struct HeliumBusStopRoute {
    pub route_name: String,
    pub service_type: String,
    pub shape_ids: Vec<String>,
}

/// A stop of the MTA bus infrastructure feed; coordinates and the bearing are
/// `f64` bit patterns.
pub struct HeliumBusStop {
    pub stop_id: i32,
    pub name_parts: Vec<String>,
    pub latitude: u64,
    pub longitude: u64,
    pub routes: Vec<HeliumBusStopRoute>,
    pub bearing: Option<u64>,
    pub is_boardable: bool,
}

/// The shapes of the feed: each shape lists indices into a shared pool of
/// segments (a negative index runs the segment backwards); coordinates are
/// `f64` bit patterns.
pub struct HeliumBusShapes {
    pub shape_to_segment: Vec<(String, Vec<i32>)>,
    pub segments: Vec<Vec<(u64, u64)>>,
}

impl HeliumBusShapes {
    /// The feed maps each shape id to its segments once: no shape id is
    /// listed twice.
    pub open spec fn wf(&self) -> bool {
        forall|i: int, j: int|
            0 <= i < j < self.shape_to_segment@.len() ==> (#[trigger] self.shape_to_segment@[i]).0@
                != (#[trigger] self.shape_to_segment@[j]).0@
    }
}

/// No two shapes have the same id.
pub open spec fn shape_ids_distinct(s: Seq<(Seq<char>, Seq<(u64, u64)>)>) -> bool {
    forall|i: int, j: int| 0 <= i < j < s.len() ==> (#[trigger] s[i]).0 != (#[trigger] s[j]).0
}

/// The MTA bus infrastructure feed.
pub struct HeliumBusInfrastructure {
    pub routes: Vec<HeliumBusRoute>,
    pub stops: Vec<HeliumBusStop>,
    pub shapes: HeliumBusShapes,
}

/// The id of the route whose upper-cased name is `upper`; a later route of
/// the same name replaces an earlier one.
pub open spec fn route_id_for(routes: Seq<HeliumBusRoute>, upper: Seq<char>) -> Option<Seq<char>>
    decreases routes.len(),
{
    if routes.len() == 0 {
        None
    } else if uppercase_of(routes.last().route_name@) == upper {
        Some(routes.last().route_id@)
    } else {
        route_id_for(routes.drop_last(), upper)
    }
}

/// A route stop of the feed: route id, stop id and the shapes it lists.
pub type RouteStopEntry = (Seq<char>, Seq<char>, Seq<Seq<char>>);

/// The route stops that the first `k` routes of a stop give: one per route
/// whose name names a known route.
pub open spec fn stop_entries(s: HeliumBusStop, routes: Seq<HeliumBusRoute>, k: int) -> Seq<
    RouteStopEntry,
>
    decreases k,
{
    if k <= 0 {
        Seq::empty()
    } else {
        let prev = stop_entries(s, routes, k - 1);
        let r = s.routes@[k - 1];
        match route_id_for(routes, uppercase_of(r.route_name@)) {
            Some(id) => prev.push((id, decimal(s.stop_id as int), strings_view(r.shape_ids@))),
            None => prev,
        }
    }
}

/// The route stops of all stops, stop by stop.
pub open spec fn route_stop_entries(stops: Seq<HeliumBusStop>, routes: Seq<HeliumBusRoute>) -> Seq<
    RouteStopEntry,
>
    decreases stops.len(),
{
    if stops.len() == 0 {
        Seq::empty()
    } else {
        route_stop_entries(stops.drop_last(), routes) + stop_entries(
            stops.last(),
            routes,
            stops.last().routes@.len() as int,
        )
    }
}

/// `acc` followed by the items of `xs` that it does not hold yet, in order.
pub open spec fn union_into(acc: Seq<Seq<char>>, xs: Seq<Seq<char>>) -> Seq<Seq<char>>
    decreases xs.len(),
{
    if xs.len() == 0 {
        acc
    } else {
        let a = union_into(acc, xs.drop_last());
        if a.contains(xs.last()) {
            a
        } else {
            a.push(xs.last())
        }
    }
}

/// The position of the first entry for a route and stop, or the length when
/// there is none.
pub open spec fn find_entry(acc: Seq<RouteStopEntry>, route_id: Seq<char>, stop_id: Seq<char>) -> int
    decreases acc.len(),
{
    if acc.len() == 0 {
        0
    } else if acc[0].0 == route_id && acc[0].1 == stop_id {
        0
    } else {
        1 + find_entry(acc.drop_first(), route_id, stop_id)
    }
}

/// One route stop per route and stop, in the order they first appear, each
/// with the union of the shapes every mention of it lists (a stop can list a
/// route once per service type).
pub open spec fn merge_entries(es: Seq<RouteStopEntry>) -> Seq<RouteStopEntry>
    decreases es.len(),
{
    if es.len() == 0 {
        Seq::empty()
    } else {
        let acc = merge_entries(es.drop_last());
        let e = es.last();
        let i = find_entry(acc, e.0, e.1);
        if i < acc.len() {
            acc.update(i, (acc[i].0, acc[i].1, union_into(acc[i].2, e.2)))
        } else {
            acc.push((e.0, e.1, union_into(Seq::empty(), e.2)))
        }
    }
}

/// The entry view of a stored route stop.
pub open spec fn bus_route_stop_view(r: RouteStop) -> RouteStopEntry {
    (
        r.route_id@,
        r.stop_id@,
        match r.data {
            RouteStopData::MtaBus { shape_ids, .. } => strings_view(shape_ids@),
            _ => Seq::empty(),
        },
    )
}

/// A stored MTA bus route stop carries no headsign, direction or opposite
/// stop: the feed maps no stop to a direction.
pub open spec fn bus_route_stop_plain(r: RouteStop) -> bool {
    r.data matches RouteStopData::MtaBus { headsign, direction, opposite_stop_id, .. } && headsign@.len()
        == 0 && direction == 0 && opposite_stop_id is None
}

proof fn lemma_find_entry(acc: Seq<RouteStopEntry>, route_id: Seq<char>, stop_id: Seq<char>, k: int)
    requires
        0 <= k <= acc.len(),
        forall|j: int| 0 <= j < k ==> !(#[trigger] acc[j].0 == route_id && acc[j].1 == stop_id),
        k == acc.len() || (acc[k].0 == route_id && acc[k].1 == stop_id),
    ensures
        find_entry(acc, route_id, stop_id) == k,
    decreases k,
{
    if k > 0 {
        let t = acc.drop_first();
        assert forall|j: int| 0 <= j < k - 1 implies !(#[trigger] t[j].0 == route_id && t[j].1
            == stop_id) by {
            assert(t[j] == acc[j + 1]);
        }
        if k < acc.len() {
            assert(t[k - 1] == acc[k]);
        }
        lemma_find_entry(t, route_id, stop_id, k - 1);
    }
}

/// Adds the items of `xs` that `acc` does not hold yet, in order.
fn union_strings(acc: &mut Vec<String>, xs: &Vec<String>)
    ensures
        strings_view(final(acc)@) == union_into(strings_view(old(acc)@), strings_view(xs@)),
{
    let mut i: usize = 0;
    while i < xs.len()
        invariant
            i <= xs@.len(),
            strings_view(acc@) == union_into(
                strings_view(old(acc)@),
                strings_view(xs@).subrange(0, i as int),
            ),
        decreases xs.len() - i,
    {
        let ghost pre = strings_view(xs@).subrange(0, i as int);
        let ghost cur = strings_view(xs@).subrange(0, i + 1);
        assert(cur.drop_last() =~= pre);
        let x = &xs[i];
        let mut found = false;
        let mut j: usize = 0;
        while j < acc.len()
            invariant
                j <= acc@.len(),
                found == exists|m: int| 0 <= m < j && #[trigger] acc@[m]@ == x@,
            decreases acc.len() - j,
        {
            if crate::text::chars_eq(str_chars(acc[j].as_str()).as_slice(), str_chars(x.as_str()).as_slice()) {
                found = true;
            }
            j = j + 1;
        }
        let ghost sv = strings_view(acc@);
        if found {
            proof {
                let m = choose|m: int| 0 <= m < acc@.len() && #[trigger] acc@[m]@ == x@;
                assert(sv[m] == x@);
                assert(sv.contains(cur.last()));
            }
        } else {
            assert(!sv.contains(cur.last())) by {
                if sv.contains(cur.last()) {
                    let m = choose|m: int| 0 <= m < sv.len() && sv[m] == cur.last();
                    assert(acc@[m]@ == x@);
                }
            }
            acc.push(x.clone());
            assert(strings_view(acc@) =~= sv.push(x@));
        }
        i = i + 1;
    }
    assert(strings_view(xs@).subrange(0, i as int) =~= strings_view(xs@));
}

/// Merges the route stops of `entries` into `acc` (see `merge_entries`).
fn merge_route_stop(acc: &mut Vec<RouteStop>, route_id: &String, stop_id: &String, shape_ids: &Vec<String>)
    requires
        forall|j: int| 0 <= j < old(acc)@.len() ==> bus_route_stop_plain(#[trigger] old(acc)@[j]),
        forall|j: int| 0 <= j < old(acc)@.len() ==> (#[trigger] old(acc)@[j]).stop_sequence == 0,
    ensures
        final(acc)@.len() == {
            let a = Seq::new(old(acc)@.len(), |j: int| bus_route_stop_view(old(acc)@[j]));
            merge_step(a, (route_id@, stop_id@, strings_view(shape_ids@))).len()
        },
        forall|j: int|
            0 <= j < final(acc)@.len() ==> bus_route_stop_view(#[trigger] final(acc)@[j]) == merge_step(
                Seq::new(old(acc)@.len(), |j: int| bus_route_stop_view(old(acc)@[j])),
                (route_id@, stop_id@, strings_view(shape_ids@)),
            )[j],
        forall|j: int| 0 <= j < final(acc)@.len() ==> bus_route_stop_plain(#[trigger] final(acc)@[j]),
        forall|j: int| 0 <= j < final(acc)@.len() ==> (#[trigger] final(acc)@[j]).stop_sequence == 0,
{
    let ghost a = Seq::new(acc@.len(), |j: int| bus_route_stop_view(acc@[j]));
    let ghost e = (route_id@, stop_id@, strings_view(shape_ids@));
    let rid = str_chars(route_id.as_str());
    let sid = str_chars(stop_id.as_str());
    let mut i: usize = 0;
    let mut hit = false;
    while i < acc.len() && !hit
        invariant
            i <= acc@.len(),
            a == Seq::new(acc@.len(), |j: int| bus_route_stop_view(acc@[j])),
            rid@ == route_id@,
            sid@ == stop_id@,
            forall|j: int| 0 <= j < i ==> !(#[trigger] a[j].0 == route_id@ && a[j].1 == stop_id@),
            hit ==> i < acc@.len() && a[i as int].0 == route_id@ && a[i as int].1 == stop_id@,
        decreases acc.len() - i, if hit { 0int } else { 1int },
    {
        let same = crate::text::chars_eq(str_chars(acc[i].route_id.as_str()).as_slice(), rid.as_slice())
            && crate::text::chars_eq(str_chars(acc[i].stop_id.as_str()).as_slice(), sid.as_slice());
        if same {
            hit = true;
        } else {
            i = i + 1;
        }
    }
    proof {
        lemma_find_entry(a, route_id@, stop_id@, i as int);
    }
    if i < acc.len() {
        let mut r = acc.remove(i);
        let ghost r0 = r;
        match &mut r.data {
            RouteStopData::MtaBus { shape_ids: ids, .. } => {
                union_strings(ids, shape_ids);
            },
            _ => {},
        }
        acc.insert(i, r);
        assert forall|j: int| 0 <= j < acc@.len() implies bus_route_stop_view(#[trigger] acc@[j])
            == merge_step(a, e)[j] by {
            if j != i {
                assert(acc@[j] == old(acc)@[j]);
            }
        }
        assert forall|j: int| 0 <= j < acc@.len() implies bus_route_stop_plain(#[trigger] acc@[j])
            && acc@[j].stop_sequence == 0 by {
            if j != i {
                assert(acc@[j] == old(acc)@[j]);
            }
        }
    } else {
        let mut ids: Vec<String> = Vec::new();
        assert(strings_view(ids@) =~= Seq::<Seq<char>>::empty());
        union_strings(&mut ids, shape_ids);
        acc.push(
            RouteStop {
                route_id: route_id.clone(),
                stop_id: stop_id.clone(),
                stop_sequence: 0,
                data: RouteStopData::MtaBus {
                    headsign: String::new(),
                    direction: 0,
                    opposite_stop_id: None,
                    shape_ids: ids,
                },
            },
        );
        assert forall|j: int| 0 <= j < acc@.len() implies bus_route_stop_view(#[trigger] acc@[j])
            == merge_step(a, e)[j] by {
            if j < old(acc)@.len() {
                assert(acc@[j] == old(acc)@[j]);
            }
        }
    }
}

/// One step of `merge_entries`: `e` merged into `acc`.
pub open spec fn merge_step(acc: Seq<RouteStopEntry>, e: RouteStopEntry) -> Seq<RouteStopEntry> {
    let i = find_entry(acc, e.0, e.1);
    if i < acc.len() {
        acc.update(i, (acc[i].0, acc[i].1, union_into(acc[i].2, e.2)))
    } else {
        acc.push((e.0, e.1, union_into(Seq::empty(), e.2)))
    }
}

/// The upper-cased names of the routes, in order.
fn upper_route_names(routes: &Vec<HeliumBusRoute>) -> (r: Vec<String>)
    ensures
        r@.len() == routes@.len(),
        forall|i: int| 0 <= i < r@.len() ==> (#[trigger] r@[i])@ == uppercase_of(routes@[i].route_name@),
{
    let mut out: Vec<String> = Vec::new();
    let mut i: usize = 0;
    while i < routes.len()
        invariant
            i <= routes@.len(),
            out@.len() == i,
            forall|j: int| 0 <= j < i ==> (#[trigger] out@[j])@ == uppercase_of(routes@[j].route_name@),
        decreases routes.len() - i,
    {
        out.push(to_uppercase(routes[i].route_name.as_str()));
        i = i + 1;
    }
    out
}

/// The id of the last route whose upper-cased name is `upper`.
fn find_route_id(routes: &Vec<HeliumBusRoute>, uppers: &Vec<String>, upper: &String) -> (r: Option<String>)
    requires
        uppers@.len() == routes@.len(),
        forall|i: int| 0 <= i < uppers@.len() ==> (#[trigger] uppers@[i])@ == uppercase_of(routes@[i].route_name@),
    ensures
        match r {
            Some(x) => route_id_for(routes@, upper@) == Some(x@),
            None => route_id_for(routes@, upper@) is None,
        },
{
    let u = str_chars(upper.as_str());
    let mut i: usize = routes.len();
    assert(routes@.subrange(0, i as int) =~= routes@);
    while i > 0
        invariant
            i <= routes@.len(),
            uppers@.len() == routes@.len(),
            forall|j: int| 0 <= j < uppers@.len() ==> (#[trigger] uppers@[j])@ == uppercase_of(routes@[j].route_name@),
            u@ == upper@,
            route_id_for(routes@, upper@) == route_id_for(routes@.subrange(0, i as int), upper@),
        decreases i,
    {
        let ghost pre = routes@.subrange(0, i as int);
        assert(pre.drop_last() =~= routes@.subrange(0, i - 1));
        if crate::text::chars_eq(str_chars(uppers[i - 1].as_str()).as_slice(), u.as_slice()) {
            return Some(routes[i - 1].route_id.clone());
        }
        i = i - 1;
    }
    None
}

/// One route stop per route and stop that the stops list, each with the
/// union of the shapes it is listed with, in the order they first appear.
pub fn merge_route_stops(stops: &Vec<HeliumBusStop>, routes: &Vec<HeliumBusRoute>) -> (r: Vec<RouteStop>)
    ensures
        r@.len() == merge_entries(route_stop_entries(stops@, routes@)).len(),
        forall|i: int|
            0 <= i < r@.len() ==> bus_route_stop_view(#[trigger] r@[i]) == merge_entries(
                route_stop_entries(stops@, routes@),
            )[i],
        forall|i: int| 0 <= i < r@.len() ==> bus_route_stop_plain(#[trigger] r@[i]),
        forall|i: int| 0 <= i < r@.len() ==> (#[trigger] r@[i]).stop_sequence == 0,
{
    let uppers = upper_route_names(routes);
    let mut acc: Vec<RouteStop> = Vec::new();
    let mut i: usize = 0;
    while i < stops.len()
        invariant
            i <= stops@.len(),
            uppers@.len() == routes@.len(),
            forall|j: int| 0 <= j < uppers@.len() ==> (#[trigger] uppers@[j])@ == uppercase_of(routes@[j].route_name@),
            acc@.len() == merge_entries(route_stop_entries(stops@.subrange(0, i as int), routes@)).len(),
            forall|j: int|
                0 <= j < acc@.len() ==> bus_route_stop_view(#[trigger] acc@[j]) == merge_entries(
                    route_stop_entries(stops@.subrange(0, i as int), routes@),
                )[j],
            forall|j: int| 0 <= j < acc@.len() ==> bus_route_stop_plain(#[trigger] acc@[j]),
            forall|j: int| 0 <= j < acc@.len() ==> (#[trigger] acc@[j]).stop_sequence == 0,
        decreases stops.len() - i,
    {
        let ghost pre = stops@.subrange(0, i as int);
        let ghost nxt = stops@.subrange(0, i + 1);
        assert(nxt.drop_last() =~= pre);
        let ghost base = route_stop_entries(pre, routes@);
        let s = &stops[i];
        let stop_id = decimal_string(s.stop_id as i64);
        let mut k: usize = 0;
        while k < s.routes.len()
            invariant
                k <= s.routes@.len(),
                uppers@.len() == routes@.len(),
                forall|j: int| 0 <= j < uppers@.len() ==> (#[trigger] uppers@[j])@ == uppercase_of(routes@[j].route_name@),
                stop_id@ == decimal(s.stop_id as int),
                acc@.len() == merge_entries(base + stop_entries(*s, routes@, k as int)).len(),
                forall|j: int|
                    0 <= j < acc@.len() ==> bus_route_stop_view(#[trigger] acc@[j]) == merge_entries(
                        base + stop_entries(*s, routes@, k as int),
                    )[j],
                forall|j: int| 0 <= j < acc@.len() ==> bus_route_stop_plain(#[trigger] acc@[j]),
                forall|j: int| 0 <= j < acc@.len() ==> (#[trigger] acc@[j]).stop_sequence == 0,
            decreases s.routes.len() - k,
        {
            let r = &s.routes[k];
            let upper = to_uppercase(r.route_name.as_str());
            let ghost m0 = merge_entries(base + stop_entries(*s, routes@, k as int));
            assert(Seq::new(acc@.len(), |j: int| bus_route_stop_view(acc@[j])) =~= m0);
            match find_route_id(routes, &uppers, &upper) {
                Some(route_id) => {
                    let ghost e = (route_id@, stop_id@, strings_view(r.shape_ids@));
                    assert(base + stop_entries(*s, routes@, k + 1) =~= (base + stop_entries(
                        *s,
                        routes@,
                        k as int,
                    )).push(e));
                    assert((base + stop_entries(*s, routes@, k + 1)).drop_last() =~= base
                        + stop_entries(*s, routes@, k as int));
                    merge_route_stop(&mut acc, &route_id, &stop_id, &r.shape_ids);
                },
                None => {
                    assert(stop_entries(*s, routes@, k + 1) == stop_entries(*s, routes@, k as int));
                },
            }
            k = k + 1;
        }
        assert(route_stop_entries(nxt, routes@) == base + stop_entries(*s, routes@, s.routes@.len() as int));
        i = i + 1;
    }
    assert(stops@.subrange(0, i as int) =~= stops@);
    acc
}

/// The position recorded for a stop in one shape's ordering: its first entry.
pub open spec fn stop_position(ps: Seq<(String, i16)>, stop_id: Seq<char>) -> Option<i16>
    decreases ps.len(),
{
    if ps.len() == 0 {
        None
    } else if ps[0].0@ == stop_id {
        Some(ps[0].1)
    } else {
        stop_position(ps.drop_first(), stop_id)
    }
}

/// The position of a stop along a shape, from the first ordering listed for
/// the shape.
pub open spec fn shape_order(orders: Seq<(String, Vec<(String, i16)>)>, shape_id: Seq<char>, stop_id: Seq<
    char,
>) -> Option<i16>
    decreases orders.len(),
{
    if orders.len() == 0 {
        None
    } else if orders[0].0@ == shape_id {
        stop_position(orders[0].1@, stop_id)
    } else {
        shape_order(orders.drop_first(), shape_id, stop_id)
    }
}

/// The earliest position of a stop along any of the shapes.
pub open spec fn min_order(orders: Seq<(String, Vec<(String, i16)>)>, shapes: Seq<Seq<char>>, stop_id: Seq<
    char,
>) -> Option<i16>
    decreases shapes.len(),
{
    if shapes.len() == 0 {
        None
    } else {
        let m = min_order(orders, shapes.drop_last(), stop_id);
        match shape_order(orders, shapes.last(), stop_id) {
            None => m,
            Some(v) => match m {
                None => Some(v),
                Some(w) => if v < w {
                    Some(v)
                } else {
                    Some(w)
                },
            },
        }
    }
}

/// The stop sequence of a route stop: its earliest position along the shapes
/// serving it (a route's two directions each number their stops from zero),
/// or zero when no shape orders it.
pub open spec fn route_stop_sequence(orders: Seq<(String, Vec<(String, i16)>)>, e: RouteStopEntry) -> i16 {
    match min_order(orders, e.2, e.1) {
        Some(v) => v,
        None => 0,
    }
}

fn find_stop_position(ps: &Vec<(String, i16)>, stop_id: &Vec<char>) -> (r: Option<i16>)
    ensures
        r == stop_position(ps@, stop_id@),
{
    let mut i: usize = 0;
    assert(ps@.subrange(0, ps@.len() as int) =~= ps@);
    while i < ps.len()
        invariant
            i <= ps@.len(),
            stop_position(ps@, stop_id@) == stop_position(ps@.subrange(i as int, ps@.len() as int), stop_id@),
        decreases ps.len() - i,
    {
        let ghost rest = ps@.subrange(i as int, ps@.len() as int);
        assert(rest[0] == ps@[i as int]);
        if crate::text::chars_eq(str_chars(ps[i].0.as_str()).as_slice(), stop_id.as_slice()) {
            return Some(ps[i].1);
        }
        assert(rest.drop_first() =~= ps@.subrange(i + 1, ps@.len() as int));
        i = i + 1;
    }
    None
}

fn find_shape_order(orders: &Vec<(String, Vec<(String, i16)>)>, shape_id: &Vec<char>, stop_id: &Vec<char>) -> (r: Option<i16>)
    ensures
        r == shape_order(orders@, shape_id@, stop_id@),
{
    let mut i: usize = 0;
    assert(orders@.subrange(0, orders@.len() as int) =~= orders@);
    while i < orders.len()
        invariant
            i <= orders@.len(),
            shape_order(orders@, shape_id@, stop_id@) == shape_order(
                orders@.subrange(i as int, orders@.len() as int),
                shape_id@,
                stop_id@,
            ),
        decreases orders.len() - i,
    {
        let ghost rest = orders@.subrange(i as int, orders@.len() as int);
        assert(rest[0] == orders@[i as int]);
        if crate::text::chars_eq(str_chars(orders[i].0.as_str()).as_slice(), shape_id.as_slice()) {
            return find_stop_position(&orders[i].1, stop_id);
        }
        assert(rest.drop_first() =~= orders@.subrange(i + 1, orders@.len() as int));
        i = i + 1;
    }
    None
}

/// The stop sequence of a route stop (see `route_stop_sequence`).
fn stop_sequence_of(orders: &Vec<(String, Vec<(String, i16)>)>, shape_ids: &Vec<String>, stop_id: &String) -> (r: i16)
    ensures
        r == route_stop_sequence(orders@, (Seq::empty(), stop_id@, strings_view(shape_ids@))),
{
    let sid = str_chars(stop_id.as_str());
    let mut best: Option<i16> = None;
    let mut i: usize = 0;
    while i < shape_ids.len()
        invariant
            i <= shape_ids@.len(),
            sid@ == stop_id@,
            best == min_order(orders@, strings_view(shape_ids@).subrange(0, i as int), stop_id@),
        decreases shape_ids.len() - i,
    {
        let ghost pre = strings_view(shape_ids@).subrange(0, i as int);
        let ghost cur = strings_view(shape_ids@).subrange(0, i + 1);
        assert(cur.drop_last() =~= pre);
        let shape = str_chars(shape_ids[i].as_str());
        match find_shape_order(orders, &shape, &sid) {
            Some(v) => {
                best = match best {
                    None => Some(v),
                    Some(w) => if v < w {
                        Some(v)
                    } else {
                        Some(w)
                    },
                };
            },
            None => {},
        }
        i = i + 1;
    }
    assert(strings_view(shape_ids@).subrange(0, i as int) =~= strings_view(shape_ids@));
    match best {
        Some(v) => v,
        None => 0,
    }
}

/// Sets each route stop's sequence (see `route_stop_sequence`).
pub fn assign_stop_sequences(acc: &mut Vec<RouteStop>, orders: &Vec<(String, Vec<(String, i16)>)>)
    ensures
        final(acc)@.len() == old(acc)@.len(),
        forall|i: int|
            0 <= i < final(acc)@.len() ==> bus_route_stop_view(#[trigger] final(acc)@[i])
                == bus_route_stop_view(old(acc)@[i]) && final(acc)@[i].stop_sequence == route_stop_sequence(
                orders@,
                bus_route_stop_view(old(acc)@[i]),
            ) && (bus_route_stop_plain(old(acc)@[i]) ==> bus_route_stop_plain(final(acc)@[i])),
{
    let ghost orig = acc@;
    let mut i: usize = 0;
    while i < acc.len()
        invariant
            i <= acc@.len(),
            acc@.len() == orig.len(),
            forall|j: int|
                0 <= j < acc@.len() ==> bus_route_stop_view(#[trigger] acc@[j]) == bus_route_stop_view(orig[j])
                    && (bus_route_stop_plain(orig[j]) ==> bus_route_stop_plain(acc@[j])) && (j < i
                    ==> acc@[j].stop_sequence == route_stop_sequence(orders@, bus_route_stop_view(orig[j]))),
        decreases acc.len() - i,
    {
        let ghost before = acc@;
        let mut r = acc.remove(i);
        let seq = match &r.data {
            RouteStopData::MtaBus { shape_ids, .. } => stop_sequence_of(orders, shape_ids, &r.stop_id),
            _ => {
                let empty: Vec<String> = Vec::new();
                assert(strings_view(empty@) =~= Seq::<Seq<char>>::empty());
                stop_sequence_of(orders, &empty, &r.stop_id)
            },
        };
        r.stop_sequence = seq;
        acc.insert(i, r);
        assert forall|j: int| 0 <= j < acc@.len() implies bus_route_stop_view(#[trigger] acc@[j])
            == bus_route_stop_view(orig[j]) && (bus_route_stop_plain(orig[j]) ==> bus_route_stop_plain(
            acc@[j],
        )) && (j < i + 1 ==> acc@[j].stop_sequence == route_stop_sequence(
            orders@,
            bus_route_stop_view(orig[j]),
        )) by {
            if j != i {
                assert(acc@[j] == before[j]);
            }
        }
        i = i + 1;
    }
}

/// The order of route stops: by route id, then by stop id.
pub open spec fn entry_lt(a: RouteStopEntry, b: RouteStopEntry) -> bool {
    seq_lt(a.0, b.0) || (a.0 == b.0 && seq_lt(a.1, b.1))
}

/// How many leading entries of `s` come before `e`.
pub open spec fn lt_prefix(s: Seq<RouteStopEntry>, e: RouteStopEntry) -> int
    decreases s.len(),
{
    if s.len() == 0 {
        0
    } else if entry_lt(s[0], e) {
        1 + lt_prefix(s.drop_first(), e)
    } else {
        0
    }
}

/// The entries in route-then-stop order, by insertion: each entry goes in
/// after the leading entries that come before it.
pub open spec fn sort_entries(a: Seq<RouteStopEntry>) -> Seq<RouteStopEntry>
    decreases a.len(),
{
    if a.len() == 0 {
        Seq::empty()
    } else {
        let s = sort_entries(a.drop_last());
        s.insert(lt_prefix(s, a.last()), a.last())
    }
}

proof fn lemma_lt_prefix(s: Seq<RouteStopEntry>, e: RouteStopEntry, k: int)
    requires
        0 <= k <= s.len(),
        forall|j: int| 0 <= j < k ==> entry_lt(#[trigger] s[j], e),
        k == s.len() || !entry_lt(s[k], e),
    ensures
        lt_prefix(s, e) == k,
    decreases k,
{
    if k > 0 {
        let t = s.drop_first();
        assert forall|j: int| 0 <= j < k - 1 implies entry_lt(#[trigger] t[j], e) by {
            assert(t[j] == s[j + 1]);
        }
        if k < s.len() {
            assert(t[k - 1] == s[k]);
        }
        lemma_lt_prefix(t, e, k - 1);
    }
}

fn route_stop_lt(a: &RouteStop, b: &RouteStop) -> (r: bool)
    ensures
        r == entry_lt(bus_route_stop_view(*a), bus_route_stop_view(*b)),
{
    let ar = str_chars(a.route_id.as_str());
    let br = str_chars(b.route_id.as_str());
    if chars_lt(&ar, &br) {
        true
    } else if crate::text::chars_eq(ar.as_slice(), br.as_slice()) {
        let asid = str_chars(a.stop_id.as_str());
        let bsid = str_chars(b.stop_id.as_str());
        chars_lt(&asid, &bsid)
    } else {
        false
    }
}

/// The route stops in route-then-stop order (see `sort_entries`); every
/// route stop keeps its values.
pub fn sort_route_stops(v: Vec<RouteStop>) -> (r: Vec<RouteStop>)
    ensures
        r@.len() == v@.len(),
        Seq::new(r@.len(), |i: int| bus_route_stop_view(r@[i])) == sort_entries(
            Seq::new(v@.len(), |i: int| bus_route_stop_view(v@[i])),
        ),
        forall|i: int| 0 <= i < r@.len() ==> exists|j: int| 0 <= j < v@.len() && #[trigger] r@[i] == v@[j],
{
    let ghost all = v@;
    let ghost views = Seq::new(v@.len(), |i: int| bus_route_stop_view(v@[i]));
    let n = v.len();
    let mut rest = v;
    let mut out: Vec<RouteStop> = Vec::new();
    let mut k: usize = 0;
    while rest.len() > 0
        invariant
            k + rest@.len() == all.len(),
            all.len() == n,
            rest@ == all.subrange(k as int, all.len() as int),
            views == Seq::new(all.len(), |i: int| bus_route_stop_view(all[i])),
            out@.len() == k,
            Seq::new(out@.len(), |i: int| bus_route_stop_view(out@[i])) == sort_entries(
                views.subrange(0, k as int),
            ),
            forall|i: int| 0 <= i < out@.len() ==> exists|j: int| 0 <= j < all.len() && #[trigger] out@[i] == all[j],
        decreases rest.len(),
    {
        let x = rest.remove(0);
        assert(x == all[k as int]);
        let ghost ov = Seq::new(out@.len(), |i: int| bus_route_stop_view(out@[i]));
        let mut p: usize = 0;
        let mut going = true;
        while p < out.len() && going
            invariant
                p <= out@.len(),
                ov == Seq::new(out@.len(), |i: int| bus_route_stop_view(out@[i])),
                forall|j: int| 0 <= j < p ==> entry_lt(#[trigger] ov[j], bus_route_stop_view(x)),
                !going ==> p < out@.len() && !entry_lt(ov[p as int], bus_route_stop_view(x)),
            decreases out.len() - p, if going { 1int } else { 0int },
        {
            if route_stop_lt(&out[p], &x) {
                p = p + 1;
            } else {
                going = false;
            }
        }
        proof {
            lemma_lt_prefix(ov, bus_route_stop_view(x), p as int);
            let pre = views.subrange(0, k as int);
            let cur = views.subrange(0, k + 1);
            assert(cur.drop_last() =~= pre);
            assert(cur.last() == bus_route_stop_view(x));
        }
        let ghost o0 = out@;
        out.insert(p, x);
        assert(Seq::new(out@.len(), |i: int| bus_route_stop_view(out@[i])) =~= ov.insert(
            p as int,
            bus_route_stop_view(x),
        ));
        assert forall|i: int| 0 <= i < out@.len() implies exists|j: int| 0 <= j < all.len() && #[trigger] out@[i] == all[j] by {
            if i < p {
                assert(out@[i] == o0[i]);
            } else if i == p {
                assert(out@[i] == all[k as int]);
            } else {
                assert(out@[i] == o0[i - 1]);
            }
        }
        k = k + 1;
        assert(rest@ =~= all.subrange(k as int, all.len() as int));
    }
    assert(views.subrange(0, k as int) =~= views);
    out
}

/// The coordinates of one segment reference: the segment at the index's
/// absolute value, backwards when the index is negative, nothing when there is
/// no such segment.
pub open spec fn segment_coords(segments: Seq<Vec<(u64, u64)>>, idx: i32) -> Seq<(u64, u64)> {
    let k = if idx < 0 {
        -(idx as int)
    } else {
        idx as int
    };
    if k < segments.len() {
        if idx < 0 {
            segments[k]@.reverse()
        } else {
            segments[k]@
        }
    } else {
        Seq::empty()
    }
}

/// A shape's polyline: its segments joined in order.
pub open spec fn shape_coords(segments: Seq<Vec<(u64, u64)>>, indices: Seq<i32>) -> Seq<(u64, u64)>
    decreases indices.len(),
{
    if indices.len() == 0 {
        Seq::empty()
    } else {
        shape_coords(segments, indices.drop_last()) + segment_coords(segments, indices.last())
    }
}

/// A shape's polyline, from its segment references.
pub fn assemble_shape(indices: &Vec<i32>, segments: &Vec<Vec<(u64, u64)>>) -> (r: Vec<(u64, u64)>)
    ensures
        r@ == shape_coords(segments@, indices@),
{
    let mut out: Vec<(u64, u64)> = Vec::new();
    let mut i: usize = 0;
    while i < indices.len()
        invariant
            i <= indices@.len(),
            out@ == shape_coords(segments@, indices@.subrange(0, i as int)),
        decreases indices.len() - i,
    {
        let ghost pre = indices@.subrange(0, i as int);
        let ghost cur = indices@.subrange(0, i + 1);
        assert(cur.drop_last() =~= pre);
        let idx = indices[i];
        let k: u64 = if idx < 0 {
            (-(idx as i64)) as u64
        } else {
            idx as u64
        };
        let ghost base = out@;
        if k < segments.len() as u64 {
            let seg = &segments[k as usize];
            if idx < 0 {
                let mut j: usize = seg.len();
                while j > 0
                    invariant
                        j <= seg@.len(),
                        out@ == base + seg@.reverse().subrange(0, seg@.len() - j),
                    decreases j,
                {
                    out.push(seg[j - 1]);
                    j = j - 1;
                    assert(out@ =~= base + seg@.reverse().subrange(0, seg@.len() - j));
                }
                assert(seg@.reverse().subrange(0, seg@.len() as int) =~= seg@.reverse());
            } else {
                let mut j: usize = 0;
                while j < seg.len()
                    invariant
                        j <= seg@.len(),
                        out@ == base + seg@.subrange(0, j as int),
                    decreases seg.len() - j,
                {
                    out.push(seg[j]);
                    j = j + 1;
                    assert(out@ =~= base + seg@.subrange(0, j as int));
                }
                assert(seg@.subrange(0, seg@.len() as int) =~= seg@);
            }
        } else {
            assert(out@ =~= base + Seq::<(u64, u64)>::empty());
        }
        i = i + 1;
    }
    assert(indices@.subrange(0, i as int) =~= indices@);
    out
}

/// The shapes with at least two points, as `(shape id, polyline)`, in the
/// order the feed lists them.
pub open spec fn shape_lines_spec(shapes: HeliumBusShapes) -> Seq<(Seq<char>, Seq<(u64, u64)>)> {
    shape_lines_upto(shapes.shape_to_segment@, shapes.segments@)
}

/// The shapes with at least two points among the listed ones, in order.
pub open spec fn shape_lines_upto(list: Seq<(String, Vec<i32>)>, segments: Seq<Vec<(u64, u64)>>) -> Seq<
    (Seq<char>, Seq<(u64, u64)>),
>
    decreases list.len(),
{
    if list.len() == 0 {
        Seq::empty()
    } else {
        let prev = shape_lines_upto(list.drop_last(), segments);
        let c = shape_coords(segments, list.last().1@);
        if c.len() >= 2 {
            prev.push((list.last().0@, c))
        } else {
            prev
        }
    }
}

proof fn lemma_shape_lines_from(list: Seq<(String, Vec<i32>)>, segments: Seq<Vec<(u64, u64)>>)
    ensures
        forall|i: int|
            0 <= i < shape_lines_upto(list, segments).len() ==> exists|j: int|
                0 <= j < list.len() && (#[trigger] shape_lines_upto(list, segments)[i]).0 == list[j].0@,
    decreases list.len(),
{
    if list.len() > 0 {
        let q = list.drop_last();
        lemma_shape_lines_from(q, segments);
        let p = shape_lines_upto(q, segments);
        let r = shape_lines_upto(list, segments);
        assert forall|i: int| 0 <= i < r.len() implies exists|j: int|
            0 <= j < list.len() && (#[trigger] r[i]).0 == list[j].0@ by {
            if i < p.len() {
                assert(r[i] == p[i]);
                let j = choose|j: int| 0 <= j < q.len() && p[i].0 == q[j].0@;
                assert(q[j] == list[j]);
            } else {
                assert(r[i].0 == list[list.len() - 1].0@);
            }
        }
    }
}

proof fn lemma_shape_lines_distinct(list: Seq<(String, Vec<i32>)>, segments: Seq<Vec<(u64, u64)>>)
    requires
        forall|i: int, j: int| 0 <= i < j < list.len() ==> (#[trigger] list[i]).0@ != (#[trigger] list[j]).0@,
    ensures
        shape_ids_distinct(shape_lines_upto(list, segments)),
    decreases list.len(),
{
    if list.len() > 0 {
        let q = list.drop_last();
        assert forall|i: int, j: int| 0 <= i < j < q.len() implies (#[trigger] q[i]).0@ != (#[trigger] q[j]).0@ by {
            assert(q[i] == list[i] && q[j] == list[j]);
        }
        lemma_shape_lines_distinct(q, segments);
        lemma_shape_lines_from(q, segments);
        let p = shape_lines_upto(q, segments);
        let r = shape_lines_upto(list, segments);
        assert forall|i: int, j: int| 0 <= i < j < r.len() implies (#[trigger] r[i]).0 != (#[trigger] r[j]).0 by {
            assert(r[i] == p[i]);
            if j < p.len() {
                assert(r[j] == p[j]);
            } else {
                let k = choose|k: int| 0 <= k < q.len() && p[i].0 == q[k].0@;
                assert(q[k] == list[k]);
                assert(r[j].0 == list[list.len() - 1].0@);
            }
        }
    }
}

proof fn lemma_sort_shapes_from(a: Seq<ShapeView>)
    ensures
        sort_shapes_spec(a).len() == a.len(),
        forall|i: int|
            0 <= i < sort_shapes_spec(a).len() ==> exists|j: int| 0 <= j < a.len() && #[trigger] sort_shapes_spec(a)[i] == a[j],
    decreases a.len(),
{
    if a.len() > 0 {
        let q = a.drop_last();
        lemma_sort_shapes_from(q);
        let s = sort_shapes_spec(q);
        lemma_id_le_prefix_bound(s, a.last().0);
        let k = id_le_prefix(s, a.last().0);
        let r = sort_shapes_spec(a);
        assert(r == s.insert(k, a.last()));
        assert forall|i: int| 0 <= i < r.len() implies exists|j: int| 0 <= j < a.len() && #[trigger] r[i] == a[j] by {
            if i < k {
                assert(r[i] == s[i]);
                let j = choose|j: int| 0 <= j < q.len() && s[i] == q[j];
                assert(q[j] == a[j]);
            } else if i == k {
                assert(r[i] == a[a.len() - 1]);
            } else {
                assert(r[i] == s[i - 1]);
                let j = choose|j: int| 0 <= j < q.len() && s[i - 1] == q[j];
                assert(q[j] == a[j]);
            }
        }
    }
}

proof fn lemma_id_le_prefix_bound(s: Seq<ShapeView>, id: Seq<char>)
    ensures
        0 <= id_le_prefix(s, id) <= s.len(),
    decreases s.len(),
{
    if s.len() > 0 {
        lemma_id_le_prefix_bound(s.drop_first(), id);
    }
}

/// Sorting shapes keeps their ids distinct.
proof fn lemma_sort_shapes_distinct(a: Seq<ShapeView>)
    requires
        shape_ids_distinct(a),
    ensures
        shape_ids_distinct(sort_shapes_spec(a)),
    decreases a.len(),
{
    if a.len() > 0 {
        let q = a.drop_last();
        assert(shape_ids_distinct(q)) by {
            assert forall|i: int, j: int| 0 <= i < j < q.len() implies (#[trigger] q[i]).0 != (#[trigger] q[j]).0 by {
                assert(q[i] == a[i] && q[j] == a[j]);
            }
        }
        lemma_sort_shapes_distinct(q);
        lemma_sort_shapes_from(q);
        let s = sort_shapes_spec(q);
        lemma_id_le_prefix_bound(s, a.last().0);
        let k = id_le_prefix(s, a.last().0);
        let x = a.last();
        let r = sort_shapes_spec(a);
        assert(r == s.insert(k, x));
        assert forall|m: int| 0 <= m < s.len() implies (#[trigger] s[m]).0 != x.0 by {
            let j = choose|j: int| 0 <= j < q.len() && s[m] == q[j];
            assert(q[j] == a[j]);
        }
        assert forall|i: int, j: int| 0 <= i < j < r.len() implies (#[trigger] r[i]).0 != (#[trigger] r[j]).0 by {
            if j < k {
                assert(r[i] == s[i] && r[j] == s[j]);
            } else if j == k {
                assert(r[i] == s[i]);
            } else if i < k {
                assert(r[i] == s[i] && r[j] == s[j - 1]);
            } else if i == k {
                assert(r[j] == s[j - 1]);
            } else {
                assert(r[i] == s[i - 1] && r[j] == s[j - 1]);
            }
        }
    }
}

/// Reassembles each shape's polyline from the feed's shared segment pool;
/// shapes with fewer than two points are dropped.
pub fn build_shape_lines(shapes: &HeliumBusShapes) -> (r: Vec<Shape>)
    ensures
        r@.len() == shape_lines_spec(*shapes).len(),
        forall|i: int|
            0 <= i < r@.len() ==> (#[trigger] r@[i]).id@ == shape_lines_spec(*shapes)[i].0 && r@[i].coords@
                == shape_lines_spec(*shapes)[i].1 && r@[i].source == Source::MtaBus,
{
    let list = &shapes.shape_to_segment;
    let mut out: Vec<Shape> = Vec::new();
    let mut i: usize = 0;
    while i < list.len()
        invariant
            i <= list@.len(),
            list@ == shapes.shape_to_segment@,
            out@.len() == shape_lines_upto(list@.subrange(0, i as int), shapes.segments@).len(),
            forall|j: int|
                0 <= j < out@.len() ==> (#[trigger] out@[j]).id@ == shape_lines_upto(
                    list@.subrange(0, i as int),
                    shapes.segments@,
                )[j].0 && out@[j].coords@ == shape_lines_upto(list@.subrange(0, i as int), shapes.segments@)[j].1
                    && out@[j].source == Source::MtaBus,
        decreases list.len() - i,
    {
        let ghost pre = list@.subrange(0, i as int);
        let ghost cur = list@.subrange(0, i + 1);
        assert(cur.drop_last() =~= pre);
        let coords = assemble_shape(&list[i].1, &shapes.segments);
        if coords.len() >= 2 {
            out.push(Shape { id: list[i].0.clone(), source: Source::MtaBus, coords });
        }
        i = i + 1;
    }
    assert(list@.subrange(0, i as int) =~= list@);
    out
}

/// The pieces of a stop's name joined with `/`.
pub fn join_name_parts(parts: &Vec<String>) -> (r: String)
    ensures
        r@ == join_with(strings_view(parts@), seq!['/']),
{
    let mut out: Vec<char> = Vec::new();
    let mut i: usize = 0;
    while i < parts.len()
        invariant
            i <= parts@.len(),
            out@ == join_with(strings_view(parts@).subrange(0, i as int), seq!['/']),
        decreases parts.len() - i,
    {
        let ghost pre = strings_view(parts@).subrange(0, i as int);
        let ghost cur = strings_view(parts@).subrange(0, i + 1);
        assert(cur =~= pre.push(parts@[i as int]@));
        proof {
            lemma_join_push(pre, seq!['/'], parts@[i as int]@);
        }
        if i > 0 {
            out.push('/');
        }
        let w = str_chars(parts[i].as_str());
        let ghost base = out@;
        let mut j: usize = 0;
        while j < w.len()
            invariant
                j <= w@.len(),
                out@ == base + w@.subrange(0, j as int),
            decreases w.len() - j,
        {
            out.push(w[j]);
            j = j + 1;
            assert(out@ =~= base + w@.subrange(0, j as int));
        }
        assert(w@.subrange(0, w@.len() as int) =~= w@);
        i = i + 1;
    }
    assert(strings_view(parts@).subrange(0, i as int) =~= strings_view(parts@));
    string_from_chars(out.as_slice())
}

/// A direction as values: id, destination and the places it goes via.
pub type DirectionView = (i16, Seq<char>, Seq<Seq<char>>);

/// The values of a stored direction.
pub open spec fn dir_view(d: MtaBusDirection) -> DirectionView {
    (d.direction_id, d.destination@, strings_view(d.via@))
}

/// The values of stored directions.
pub open spec fn dir_views(ds: Seq<MtaBusDirection>) -> Seq<DirectionView> {
    Seq::new(ds.len(), |i: int| dir_view(ds[i]))
}

/// The values of a feed direction.
pub open spec fn feed_dir_views(ds: Seq<HeliumBusRouteDirection>) -> Seq<DirectionView> {
    Seq::new(
        ds.len(),
        |i: int| (ds[i].direction_id, ds[i].headsign.destination@, strings_view(ds[i].headsign.via@)),
    )
}

/// How many leading directions of `s` have an id no greater than `d`.
pub open spec fn le_prefix(s: Seq<DirectionView>, d: i16) -> int
    decreases s.len(),
{
    if s.len() == 0 {
        0
    } else if s[0].0 <= d {
        1 + le_prefix(s.drop_first(), d)
    } else {
        0
    }
}

/// The directions sorted by id, keeping the feed's order among equal ids:
/// each goes in after the leading directions whose id is not greater.
pub open spec fn sort_directions_spec(a: Seq<DirectionView>) -> Seq<DirectionView>
    decreases a.len(),
{
    if a.len() == 0 {
        Seq::empty()
    } else {
        let s = sort_directions_spec(a.drop_last());
        s.insert(le_prefix(s, a.last().0), a.last())
    }
}

proof fn lemma_le_prefix(s: Seq<DirectionView>, d: i16, k: int)
    requires
        0 <= k <= s.len(),
        forall|j: int| 0 <= j < k ==> (#[trigger] s[j]).0 <= d,
        k == s.len() || s[k].0 > d,
    ensures
        le_prefix(s, d) == k,
    decreases k,
{
    if k > 0 {
        let t = s.drop_first();
        assert forall|j: int| 0 <= j < k - 1 implies (#[trigger] t[j]).0 <= d by {
            assert(t[j] == s[j + 1]);
        }
        if k < s.len() {
            assert(t[k - 1] == s[k]);
        }
        lemma_le_prefix(t, d, k - 1);
    }
}

/// Sorts directions by id, stably (see `sort_directions_spec`).
pub fn sort_directions(v: Vec<MtaBusDirection>) -> (r: Vec<MtaBusDirection>)
    ensures
        dir_views(r@) == sort_directions_spec(dir_views(v@)),
{
    let ghost all = v@;
    let n = v.len();
    let mut rest = v;
    let mut out: Vec<MtaBusDirection> = Vec::new();
    let mut k: usize = 0;
    while rest.len() > 0
        invariant
            k + rest@.len() == all.len(),
            all.len() == n,
            rest@ == all.subrange(k as int, all.len() as int),
            dir_views(out@) == sort_directions_spec(dir_views(all).subrange(0, k as int)),
        decreases rest.len(),
    {
        let x = rest.remove(0);
        assert(x == all[k as int]);
        let ghost ov = dir_views(out@);
        let mut p: usize = 0;
        while p < out.len() && out[p].direction_id <= x.direction_id
            invariant
                p <= out@.len(),
                ov == dir_views(out@),
                forall|j: int| 0 <= j < p ==> (#[trigger] ov[j]).0 <= x.direction_id,
            decreases out.len() - p,
        {
            p = p + 1;
        }
        proof {
            lemma_le_prefix(ov, x.direction_id, p as int);
            let pre = dir_views(all).subrange(0, k as int);
            let cur = dir_views(all).subrange(0, k + 1);
            assert(cur.drop_last() =~= pre);
            assert(cur.last() == dir_view(x));
        }
        out.insert(p, x);
        assert(dir_views(out@) =~= ov.insert(p as int, dir_view(x)));
        k = k + 1;
        assert(rest@ =~= all.subrange(k as int, all.len() as int));
    }
    assert(dir_views(all).subrange(0, k as int) =~= dir_views(all));
    out
}

/// The shapes the first `k` routes of a stop add for routes named `key`
/// (upper-cased) to those in `acc`.
pub open spec fn entries_shapes(acc: Seq<Seq<char>>, rs: Seq<HeliumBusStopRoute>, key: Seq<char>, k: int) -> Seq<
    Seq<char>,
>
    decreases k,
{
    if k <= 0 {
        acc
    } else {
        let a = entries_shapes(acc, rs, key, k - 1);
        if uppercase_of(rs[k - 1].route_name@) == key {
            union_into(a, strings_view(rs[k - 1].shape_ids@))
        } else {
            a
        }
    }
}

/// Every shape the stops list for routes named `key` (upper-cased), in the
/// order they first appear: the feed's realtime trips carry no shape, so a
/// route keeps all of its shapes.
pub open spec fn named_shapes(stops: Seq<HeliumBusStop>, key: Seq<char>) -> Seq<Seq<char>>
    decreases stops.len(),
{
    if stops.len() == 0 {
        Seq::empty()
    } else {
        entries_shapes(
            named_shapes(stops.drop_last(), key),
            stops.last().routes@,
            key,
            stops.last().routes@.len() as int,
        )
    }
}

/// The upper-cased route names of each stop's routes.
fn stop_route_uppers(stops: &Vec<HeliumBusStop>) -> (r: Vec<Vec<String>>)
    ensures
        r@.len() == stops@.len(),
        forall|i: int|
            0 <= i < r@.len() ==> (#[trigger] r@[i])@.len() == stops@[i].routes@.len() && forall|k: int|
                0 <= k < r@[i]@.len() ==> (#[trigger] r@[i]@[k])@ == uppercase_of(
                    stops@[i].routes@[k].route_name@,
                ),
{
    let mut out: Vec<Vec<String>> = Vec::new();
    let mut i: usize = 0;
    while i < stops.len()
        invariant
            i <= stops@.len(),
            out@.len() == i,
            forall|a: int|
                0 <= a < i ==> (#[trigger] out@[a])@.len() == stops@[a].routes@.len() && forall|k: int|
                    0 <= k < out@[a]@.len() ==> (#[trigger] out@[a]@[k])@ == uppercase_of(
                        stops@[a].routes@[k].route_name@,
                    ),
        decreases stops.len() - i,
    {
        let rs = &stops[i].routes;
        let mut names: Vec<String> = Vec::new();
        let mut k: usize = 0;
        while k < rs.len()
            invariant
                k <= rs@.len(),
                names@.len() == k,
                forall|m: int| 0 <= m < k ==> (#[trigger] names@[m])@ == uppercase_of(rs@[m].route_name@),
            decreases rs.len() - k,
        {
            names.push(to_uppercase(rs[k].route_name.as_str()));
            k = k + 1;
        }
        out.push(names);
        i = i + 1;
    }
    out
}

/// Every shape the stops list for routes named `key` (see `named_shapes`).
fn route_shape_ids(stops: &Vec<HeliumBusStop>, uppers: &Vec<Vec<String>>, key: &Vec<char>) -> (r: Vec<String>)
    requires
        uppers@.len() == stops@.len(),
        forall|i: int|
            0 <= i < uppers@.len() ==> (#[trigger] uppers@[i])@.len() == stops@[i].routes@.len() && forall|k: int|
                0 <= k < uppers@[i]@.len() ==> (#[trigger] uppers@[i]@[k])@ == uppercase_of(
                    stops@[i].routes@[k].route_name@,
                ),
    ensures
        strings_view(r@) == named_shapes(stops@, key@),
{
    let mut acc: Vec<String> = Vec::new();
    let mut i: usize = 0;
    assert(strings_view(acc@) =~= Seq::<Seq<char>>::empty());
    while i < stops.len()
        invariant
            i <= stops@.len(),
            uppers@.len() == stops@.len(),
            forall|a: int|
                0 <= a < uppers@.len() ==> (#[trigger] uppers@[a])@.len() == stops@[a].routes@.len() && forall|k: int|
                    0 <= k < uppers@[a]@.len() ==> (#[trigger] uppers@[a]@[k])@ == uppercase_of(
                        stops@[a].routes@[k].route_name@,
                    ),
            strings_view(acc@) == named_shapes(stops@.subrange(0, i as int), key@),
        decreases stops.len() - i,
    {
        let ghost pre = stops@.subrange(0, i as int);
        let ghost nxt = stops@.subrange(0, i + 1);
        assert(nxt.drop_last() =~= pre);
        let ghost base = named_shapes(pre, key@);
        let rs = &stops[i].routes;
        let names = &uppers[i];
        let mut k: usize = 0;
        while k < rs.len()
            invariant
                k <= rs@.len(),
                rs@ == stops@[i as int].routes@,
                names@.len() == rs@.len(),
                forall|m: int| 0 <= m < names@.len() ==> (#[trigger] names@[m])@ == uppercase_of(rs@[m].route_name@),
                strings_view(acc@) == entries_shapes(base, rs@, key@, k as int),
            decreases rs.len() - k,
        {
            if crate::text::chars_eq(str_chars(names[k].as_str()).as_slice(), key.as_slice()) {
                union_strings(&mut acc, &rs[k].shape_ids);
            }
            k = k + 1;
        }
        i = i + 1;
    }
    assert(stops@.subrange(0, i as int) =~= stops@);
    acc
}

/// A stored MTA bus route is the feed's, with its directions sorted by id, a
/// long name built from their terminals and every shape its stops list.
pub open spec fn bus_route_matches(r: Route, h: HeliumBusRoute, stops: Seq<HeliumBusStop>) -> bool {
    &&& r.id@ == h.route_id@
    &&& r.short_name@ == h.route_name@
    &&& r.color@ == h.color@
    &&& r.text_color@ == match h.text_color {
        Some(c) => c@,
        None => default_text_color(),
    }
    &&& match r.data {
        RouteData::MtaBus(d) => {
            &&& r.long_name@ == route_long_name_spec(h.route_name@, d.directions@)
            &&& dir_views(d.directions@) == sort_directions_spec(feed_dir_views(h.directions@))
            &&& d.sort_key == h.sort_key
            &&& strings_view(d.service_types@) == strings_view(h.service_types@)
            &&& crate::ids::opt_string_view(d.borough) == crate::ids::opt_string_view(h.borough)
            &&& d.name_prefix@ == h.name_prefix@
            &&& d.name_number == h.name_number
            &&& crate::ids::opt_string_view(d.name_suffix) == crate::ids::opt_string_view(h.name_suffix)
            &&& strings_view(d.shape_ids@) == named_shapes(stops, uppercase_of(h.route_name@))
        },
        _ => false,
    }
}

/// The stored route of a feed route.
fn bus_route(h: &HeliumBusRoute, stops: &Vec<HeliumBusStop>, uppers: &Vec<Vec<String>>) -> (r: Route)
    requires
        uppers@.len() == stops@.len(),
        forall|i: int|
            0 <= i < uppers@.len() ==> (#[trigger] uppers@[i])@.len() == stops@[i].routes@.len() && forall|k: int|
                0 <= k < uppers@[i]@.len() ==> (#[trigger] uppers@[i]@[k])@ == uppercase_of(
                    stops@[i].routes@[k].route_name@,
                ),
    ensures
        bus_route_matches(r, *h, stops@),
{
    let key = str_chars(to_uppercase(h.route_name.as_str()).as_str());
    let shape_ids = route_shape_ids(stops, uppers, &key);
    let mut dirs: Vec<MtaBusDirection> = Vec::new();
    let mut i: usize = 0;
    assert(dir_views(dirs@) =~= feed_dir_views(h.directions@).subrange(0, 0));
    while i < h.directions.len()
        invariant
            i <= h.directions@.len(),
            dirs@.len() == i,
            dir_views(dirs@) == feed_dir_views(h.directions@).subrange(0, i as int),
        decreases h.directions.len() - i,
    {
        let d = &h.directions[i];
        let ghost d0 = dirs@;
        let nd = MtaBusDirection {
            direction_id: d.direction_id,
            destination: d.headsign.destination.clone(),
            via: clone_strings(&d.headsign.via),
        };
        assert(dir_view(nd) == feed_dir_views(h.directions@)[i as int]);
        dirs.push(nd);
        i = i + 1;
        assert forall|j: int| 0 <= j < dirs@.len() implies dir_views(dirs@)[j] == feed_dir_views(
            h.directions@,
        ).subrange(0, i as int)[j] by {
            if j < d0.len() {
                assert(dirs@[j] == d0[j]);
                assert(dir_views(d0)[j] == feed_dir_views(h.directions@).subrange(0, i - 1)[j]);
            } else {
                assert(dirs@[j] == nd);
                assert(j == i - 1);
            }
        }
        assert(dir_views(dirs@) =~= feed_dir_views(h.directions@).subrange(0, i as int));
    }
    assert(feed_dir_views(h.directions@).subrange(0, i as int) =~= feed_dir_views(h.directions@));
    let directions = sort_directions(dirs);
    let long_name = route_long_name(h.route_name.as_str(), directions.as_slice());
    Route {
        id: h.route_id.clone(),
        long_name,
        short_name: h.route_name.clone(),
        color: h.color.clone(),
        text_color: text_color_or_default(&h.text_color),
        data: RouteData::MtaBus(
            MtaBusRouteData {
                sort_key: h.sort_key,
                service_types: clone_strings(&h.service_types),
                borough: crate::ids::clone_opt_string(&h.borough),
                name_prefix: h.name_prefix.clone(),
                name_number: h.name_number,
                name_suffix: crate::ids::clone_opt_string(&h.name_suffix),
                directions,
                shape_ids,
            },
        ),
    }
}

/// The direction a stop faces: the compass sector of its bearing (`sector`),
/// or unknown when the feed gives it no bearing.
pub open spec fn stop_facing(s: HeliumBusStop, sector: CompassDirection) -> CompassDirection {
    match s.bearing {
        Some(_) => sector,
        None => CompassDirection::Unknown,
    }
}

/// A stored MTA bus stop is the feed's, facing the sector of its bearing
/// (`sector`), if it has one; its name is its name parts joined with `/`.
pub open spec fn bus_stop_matches(r: Stop, s: HeliumBusStop, sector: CompassDirection) -> bool {
    &&& r.id@ == decimal(s.stop_id as int)
    &&& r.name@ == join_with(strings_view(s.name_parts@), seq!['/'])
    &&& r.longitude == s.longitude
    &&& r.latitude == s.latitude
    &&& r.data matches StopData::MtaBus(d) && d.bearing == s.bearing && d.is_boardable == s.is_boardable
        && d.direction == stop_facing(s, sector)
}

/// The stored stop of a feed stop whose bearing lies in compass sector
/// `sector` (not read when the stop has no bearing).
pub fn bus_stop(s: &HeliumBusStop, sector: CompassDirection) -> (r: Stop)
    ensures
        bus_stop_matches(r, *s, sector),
{
    let direction = match s.bearing {
        Some(_) => sector,
        None => CompassDirection::Unknown,
    };
    Stop {
        id: decimal_string(s.stop_id as i64),
        name: join_name_parts(&s.name_parts),
        longitude: s.longitude,
        latitude: s.latitude,
        data: StopData::MtaBus(
            MtaBusStopData { bearing: s.bearing, is_boardable: s.is_boardable, direction },
        ),
    }
}

/// The `(shape id, stop id)` pairs the stops list, stop by stop: every shape
/// of every route serving a stop.
pub open spec fn shape_stop_pairs_spec(stops: Seq<HeliumBusStop>) -> Seq<(Seq<char>, Seq<char>)>
    decreases stops.len(),
{
    if stops.len() == 0 {
        Seq::empty()
    } else {
        let s = stops.last();
        shape_stop_pairs_spec(stops.drop_last()) + stop_shape_pairs(s.routes@, decimal(s.stop_id as int))
    }
}

/// The `(shape id, stop id)` pairs of one stop's routes.
pub open spec fn stop_shape_pairs(rs: Seq<HeliumBusStopRoute>, stop_id: Seq<char>) -> Seq<(Seq<char>, Seq<char>)>
    decreases rs.len(),
{
    if rs.len() == 0 {
        Seq::empty()
    } else {
        stop_shape_pairs(rs.drop_last(), stop_id) + Seq::new(
            rs.last().shape_ids@.len(),
            |k: int| (rs.last().shape_ids@[k]@, stop_id),
        )
    }
}

/// The `(shape id, stop id)` pairs the stops list (see `shape_stop_pairs_spec`):
/// the stops to order along each shape.
pub fn shape_stop_pairs(stops: &Vec<HeliumBusStop>) -> (r: Vec<(String, String)>)
    ensures
        r@.len() == shape_stop_pairs_spec(stops@).len(),
        forall|i: int|
            0 <= i < r@.len() ==> (#[trigger] r@[i]).0@ == shape_stop_pairs_spec(stops@)[i].0 && r@[i].1@
                == shape_stop_pairs_spec(stops@)[i].1,
{
    let mut out: Vec<(String, String)> = Vec::new();
    let mut i: usize = 0;
    while i < stops.len()
        invariant
            i <= stops@.len(),
            out@.len() == shape_stop_pairs_spec(stops@.subrange(0, i as int)).len(),
            forall|j: int|
                0 <= j < out@.len() ==> (#[trigger] out@[j]).0@ == shape_stop_pairs_spec(
                    stops@.subrange(0, i as int),
                )[j].0 && out@[j].1@ == shape_stop_pairs_spec(stops@.subrange(0, i as int))[j].1,
        decreases stops.len() - i,
    {
        let ghost pre = stops@.subrange(0, i as int);
        let ghost nxt = stops@.subrange(0, i + 1);
        assert(nxt.drop_last() =~= pre);
        let ghost base = shape_stop_pairs_spec(pre);
        let s = &stops[i];
        let stop_id = decimal_string(s.stop_id as i64);
        let rs = &s.routes;
        let mut k: usize = 0;
        while k < rs.len()
            invariant
                k <= rs@.len(),
                rs@ == s.routes@,
                stop_id@ == decimal(s.stop_id as int),
                out@.len() == (base + stop_shape_pairs(rs@.subrange(0, k as int), stop_id@)).len(),
                forall|j: int|
                    0 <= j < out@.len() ==> (#[trigger] out@[j]).0@ == (base + stop_shape_pairs(
                        rs@.subrange(0, k as int),
                        stop_id@,
                    ))[j].0 && out@[j].1@ == (base + stop_shape_pairs(rs@.subrange(0, k as int), stop_id@))[j].1,
            decreases rs.len() - k,
        {
            let ghost rpre = rs@.subrange(0, k as int);
            let ghost rnxt = rs@.subrange(0, k + 1);
            assert(rnxt.drop_last() =~= rpre);
            let ghost before = base + stop_shape_pairs(rpre, stop_id@);
            let ids = &rs[k].shape_ids;
            let mut m: usize = 0;
            while m < ids.len()
                invariant
                    m <= ids@.len(),
                    stop_id@ == decimal(s.stop_id as int),
                    out@.len() == before.len() + m,
                    forall|j: int|
                        0 <= j < out@.len() ==> (#[trigger] out@[j]).0@ == (before + Seq::new(
                            ids@.len(),
                            |q: int| (ids@[q]@, stop_id@),
                        ))[j].0 && out@[j].1@ == (before + Seq::new(ids@.len(), |q: int| (ids@[q]@, stop_id@)))[j].1,
                decreases ids.len() - m,
            {
                out.push((ids[m].clone(), stop_id.clone()));
                m = m + 1;
            }
            assert(base + stop_shape_pairs(rnxt, stop_id@) =~= before + Seq::new(
                ids@.len(),
                |q: int| (ids@[q]@, stop_id@),
            ));
            k = k + 1;
        }
        assert(rs@.subrange(0, k as int) =~= rs@);
        i = i + 1;
    }
    assert(stops@.subrange(0, i as int) =~= stops@);
    out
}

/// The stop ids with runs of equal neighbours kept once.
pub open spec fn dedup_adjacent(s: Seq<Seq<char>>) -> Seq<Seq<char>>
    decreases s.len(),
{
    if s.len() == 0 {
        Seq::empty()
    } else {
        let d = dedup_adjacent(s.drop_last());
        if d.len() > 0 && d.last() == s.last() {
            d
        } else {
            d.push(s.last())
        }
    }
}

/// Numbers the stops of a shape, given in their order along it: repeated
/// neighbours (a shape passing a stop twice in a row) count once, and each
/// stop gets its position.
pub fn number_stops(ordered: &Vec<String>) -> (r: Vec<(String, i16)>)
    ensures
        r@.len() == dedup_adjacent(strings_view(ordered@)).len(),
        forall|i: int|
            0 <= i < r@.len() ==> (#[trigger] r@[i]).0@ == dedup_adjacent(strings_view(ordered@))[i]
                && r@[i].1 == i as i16,
{
    let mut out: Vec<(String, i16)> = Vec::new();
    let mut last: Vec<char> = Vec::new();
    let mut i: usize = 0;
    while i < ordered.len()
        invariant
            i <= ordered@.len(),
            out@.len() == dedup_adjacent(strings_view(ordered@).subrange(0, i as int)).len(),
            out@.len() > 0 ==> last@ == dedup_adjacent(strings_view(ordered@).subrange(0, i as int)).last(),
            forall|j: int|
                0 <= j < out@.len() ==> (#[trigger] out@[j]).0@ == dedup_adjacent(
                    strings_view(ordered@).subrange(0, i as int),
                )[j] && out@[j].1 == j as i16,
        decreases ordered.len() - i,
    {
        let ghost pre = strings_view(ordered@).subrange(0, i as int);
        let ghost cur = strings_view(ordered@).subrange(0, i + 1);
        assert(cur.drop_last() =~= pre);
        let c = str_chars(ordered[i].as_str());
        if out.len() > 0 && crate::text::chars_eq(last.as_slice(), c.as_slice()) {
        } else {
            let n = out.len();
            out.push((ordered[i].clone(), n as i16));
            last = c;
        }
        i = i + 1;
    }
    assert(strings_view(ordered@).subrange(0, i as int) =~= strings_view(ordered@));
    out
}

/// A shape as values: id and polyline.
pub type ShapeView = (Seq<char>, Seq<(u64, u64)>);

/// The values of stored shapes.
pub open spec fn shape_views(v: Seq<Shape>) -> Seq<ShapeView> {
    Seq::new(v.len(), |i: int| (v[i].id@, v[i].coords@))
}

/// How many leading shapes of `s` have an id not after `id`.
pub open spec fn id_le_prefix(s: Seq<ShapeView>, id: Seq<char>) -> int
    decreases s.len(),
{
    if s.len() == 0 {
        0
    } else if !seq_lt(id, s[0].0) {
        1 + id_le_prefix(s.drop_first(), id)
    } else {
        0
    }
}

/// The shapes sorted by id, keeping the given order among equal ids.
pub open spec fn sort_shapes_spec(a: Seq<ShapeView>) -> Seq<ShapeView>
    decreases a.len(),
{
    if a.len() == 0 {
        Seq::empty()
    } else {
        let s = sort_shapes_spec(a.drop_last());
        s.insert(id_le_prefix(s, a.last().0), a.last())
    }
}

proof fn lemma_id_le_prefix(s: Seq<ShapeView>, id: Seq<char>, k: int)
    requires
        0 <= k <= s.len(),
        forall|j: int| 0 <= j < k ==> !seq_lt(id, (#[trigger] s[j]).0),
        k == s.len() || seq_lt(id, s[k].0),
    ensures
        id_le_prefix(s, id) == k,
    decreases k,
{
    if k > 0 {
        let t = s.drop_first();
        assert forall|j: int| 0 <= j < k - 1 implies !seq_lt(id, (#[trigger] t[j]).0) by {
            assert(t[j] == s[j + 1]);
        }
        if k < s.len() {
            assert(t[k - 1] == s[k]);
        }
        lemma_id_le_prefix(t, id, k - 1);
    }
}

/// Sorts shapes by id, stably (see `sort_shapes_spec`); each keeps its source.
pub fn sort_shapes(v: Vec<Shape>) -> (r: Vec<Shape>)
    ensures
        shape_views(r@) == sort_shapes_spec(shape_views(v@)),
        (forall|i: int| 0 <= i < v@.len() ==> (#[trigger] v@[i]).source == Source::MtaBus) ==> (forall|i: int|
            0 <= i < r@.len() ==> (#[trigger] r@[i]).source == Source::MtaBus),
{
    let ghost all = v@;
    let n = v.len();
    let mut rest = v;
    let mut out: Vec<Shape> = Vec::new();
    let mut k: usize = 0;
    while rest.len() > 0
        invariant
            k + rest@.len() == all.len(),
            all.len() == n,
            rest@ == all.subrange(k as int, all.len() as int),
            shape_views(out@) == sort_shapes_spec(shape_views(all).subrange(0, k as int)),
            (forall|i: int| 0 <= i < all.len() ==> (#[trigger] all[i]).source == Source::MtaBus) ==> (forall|i: int|
                0 <= i < out@.len() ==> (#[trigger] out@[i]).source == Source::MtaBus),
        decreases rest.len(),
    {
        let x = rest.remove(0);
        assert(x == all[k as int]);
        let ghost ov = shape_views(out@);
        let xid = str_chars(x.id.as_str());
        let mut p: usize = 0;
        let mut going = true;
        while p < out.len() && going
            invariant
                p <= out@.len(),
                ov == shape_views(out@),
                xid@ == x.id@,
                forall|j: int| 0 <= j < p ==> !seq_lt(x.id@, (#[trigger] ov[j]).0),
                !going ==> p < out@.len() && seq_lt(x.id@, ov[p as int].0),
            decreases out.len() - p, if going { 1int } else { 0int },
        {
            let pid = str_chars(out[p].id.as_str());
            if chars_lt(&xid, &pid) {
                going = false;
            } else {
                p = p + 1;
            }
        }
        proof {
            lemma_id_le_prefix(ov, x.id@, p as int);
            let pre = shape_views(all).subrange(0, k as int);
            let cur = shape_views(all).subrange(0, k + 1);
            assert(cur.drop_last() =~= pre);
        }
        let ghost o0 = out@;
        out.insert(p, x);
        assert(shape_views(out@) =~= ov.insert(p as int, (x.id@, x.coords@)));
        assert((forall|i: int| 0 <= i < all.len() ==> (#[trigger] all[i]).source == Source::MtaBus) ==> (
        forall|i: int| 0 <= i < out@.len() ==> (#[trigger] out@[i]).source == Source::MtaBus)) by {
            if forall|i: int| 0 <= i < all.len() ==> (#[trigger] all[i]).source == Source::MtaBus {
                assert forall|i: int| 0 <= i < out@.len() implies (#[trigger] out@[i]).source
                    == Source::MtaBus by {
                    if i < p {
                        assert(out@[i] == o0[i]);
                    } else if i > p {
                        assert(out@[i] == o0[i - 1]);
                    }
                }
            }
        }
        k = k + 1;
        assert(rest@ =~= all.subrange(k as int, all.len() as int));
    }
    assert(shape_views(all).subrange(0, k as int) =~= shape_views(all));
    out
}

/// The static importer of MTA buses.
pub struct MtaBusStatic;

impl MtaBusStatic {
    /// A new importer.
    pub fn new() -> (r: Self) {
        MtaBusStatic
    }

    /// The source this importer feeds.
    pub fn source(&self) -> (s: Source)
        ensures
            s == Source::MtaBus,
    {
        Source::MtaBus
    }

    /// How often the static data is refreshed, in seconds: every three days.
    pub fn refresh_interval_secs(&self) -> (secs: u64)
        ensures
            secs == 60 * 60 * 24 * 3,
    {
        60 * 60 * 24 * 3
    }

    /// The routes, stops, route stops and shapes of the infrastructure feed.
    /// `stop_directions` gives the compass sector of each stop's bearing (one
    /// per stop; a stop without a bearing faces no known direction, whatever
    /// its entry) and `stop_orders` the position of each stop along each
    /// shape it lies on.
    pub fn build_static_dataset(
        &self,
        infra: &HeliumBusInfrastructure,
        stop_directions: &Vec<CompassDirection>,
        stop_orders: &Vec<(String, Vec<(String, i16)>)>,
    ) -> (d: StaticDataset)
        requires
            stop_directions@.len() == infra.stops@.len(),
            infra.shapes.wf(),
        ensures
            d.source == Source::MtaBus,
            d.routes@.len() == infra.routes@.len(),
            forall|i: int|
                0 <= i < d.routes@.len() ==> bus_route_matches(
                    #[trigger] d.routes@[i],
                    infra.routes@[i],
                    infra.stops@,
                ),
            d.stops@.len() == infra.stops@.len(),
            forall|i: int|
                0 <= i < d.stops@.len() ==> bus_stop_matches(
                    #[trigger] d.stops@[i],
                    infra.stops@[i],
                    stop_directions@[i],
                ),
            Seq::new(d.route_stops@.len(), |i: int| bus_route_stop_view(d.route_stops@[i])) == sort_entries(
                merge_entries(route_stop_entries(infra.stops@, infra.routes@)),
            ),
            forall|i: int|
                0 <= i < d.route_stops@.len() ==> bus_route_stop_plain(#[trigger] d.route_stops@[i])
                    && d.route_stops@[i].stop_sequence == route_stop_sequence(
                    stop_orders@,
                    bus_route_stop_view(d.route_stops@[i]),
                ),
            shape_views(d.shapes@) == sort_shapes_spec(shape_lines_spec(infra.shapes)),
            forall|i: int| 0 <= i < d.shapes@.len() ==> (#[trigger] d.shapes@[i]).source == Source::MtaBus,
            forall|i: int, j: int| 0 <= i < j < d.shapes@.len() ==> (#[trigger] d.shapes@[i]).id@ != (#[trigger] d.shapes@[j]).id@,
    {
        let uppers = stop_route_uppers(&infra.stops);
        let mut routes: Vec<Route> = Vec::new();
        let mut i: usize = 0;
        while i < infra.routes.len()
            invariant
                i <= infra.routes@.len(),
                uppers@.len() == infra.stops@.len(),
                forall|a: int|
                    0 <= a < uppers@.len() ==> (#[trigger] uppers@[a])@.len() == infra.stops@[a].routes@.len()
                        && forall|k: int|
                        0 <= k < uppers@[a]@.len() ==> (#[trigger] uppers@[a]@[k])@ == uppercase_of(
                            infra.stops@[a].routes@[k].route_name@,
                        ),
                routes@.len() == i,
                forall|j: int|
                    0 <= j < i ==> bus_route_matches(#[trigger] routes@[j], infra.routes@[j], infra.stops@),
            decreases infra.routes.len() - i,
        {
            routes.push(bus_route(&infra.routes[i], &infra.stops, &uppers));
            i = i + 1;
        }
        let mut stops: Vec<Stop> = Vec::new();
        let mut j: usize = 0;
        while j < infra.stops.len()
            invariant
                j <= infra.stops@.len(),
                stop_directions@.len() == infra.stops@.len(),
                stops@.len() == j,
                forall|m: int|
                    0 <= m < j ==> bus_stop_matches(#[trigger] stops@[m], infra.stops@[m], stop_directions@[m]),
            decreases infra.stops.len() - j,
        {
            stops.push(bus_stop(&infra.stops[j], stop_directions[j]));
            j = j + 1;
        }
        let mut merged = merge_route_stops(&infra.stops, &infra.routes);
        let ghost m0 = merged@;
        assert(Seq::new(m0.len(), |q: int| bus_route_stop_view(m0[q])) =~= merge_entries(
            route_stop_entries(infra.stops@, infra.routes@),
        ));
        assign_stop_sequences(&mut merged, stop_orders);
        assert(Seq::new(merged@.len(), |q: int| bus_route_stop_view(merged@[q])) =~= Seq::new(
            m0.len(),
            |q: int| bus_route_stop_view(m0[q]),
        ));
        let ghost m1 = merged@;
        let route_stops = sort_route_stops(merged);
        assert forall|q: int| 0 <= q < route_stops@.len() implies bus_route_stop_plain(
            #[trigger] route_stops@[q],
        ) && route_stops@[q].stop_sequence == route_stop_sequence(
            stop_orders@,
            bus_route_stop_view(route_stops@[q]),
        ) by {
            let w = choose|w: int| 0 <= w < m1.len() && route_stops@[q] == m1[w];
            assert(bus_route_stop_view(m1[w]) == bus_route_stop_view(m0[w]));
        }
        let lines = build_shape_lines(&infra.shapes);
        assert(shape_views(lines@) =~= shape_lines_spec(infra.shapes));
        let shapes = sort_shapes(lines);
        proof {
            lemma_shape_lines_distinct(infra.shapes.shape_to_segment@, infra.shapes.segments@);
            lemma_sort_shapes_distinct(shape_lines_spec(infra.shapes));
            let sv = shape_views(shapes@);
            assert forall|i: int, j: int| 0 <= i < j < shapes@.len() implies (#[trigger] shapes@[i]).id@
                != (#[trigger] shapes@[j]).id@ by {
                assert(sv[i].0 == shapes@[i].id@ && sv[j].0 == shapes@[j].id@);
            }
        }
        StaticDataset { source: Source::MtaBus, routes, stops, route_stops, shapes }
    }
}

/// The compass direction a bus stop record names (`N`, `NE`, ...); anything
/// else is unknown.
pub open spec fn compass_named(s: Seq<char>) -> CompassDirection {
    if s == seq!['S', 'W'] {
        CompassDirection::SW
    } else if s == seq!['S'] {
        CompassDirection::S
    } else if s == seq!['S', 'E'] {
        CompassDirection::SE
    } else if s == seq!['E'] {
        CompassDirection::E
    } else if s == seq!['W'] {
        CompassDirection::W
    } else if s == seq!['N', 'E'] {
        CompassDirection::NE
    } else if s == seq!['N', 'W'] {
        CompassDirection::NW
    } else if s == seq!['N'] {
        CompassDirection::N
    } else {
        CompassDirection::Unknown
    }
}

/// The compass direction a bus stop record names (see `compass_named`).
pub fn compass_direction_of(s: &str) -> (r: CompassDirection)
    ensures
        r == compass_named(s@),
{
    let sw = ['S', 'W'];
    let so = ['S'];
    let se = ['S', 'E'];
    let ea = ['E'];
    let we = ['W'];
    let ne = ['N', 'E'];
    let nw = ['N', 'W'];
    let no = ['N'];
    assert(sw@ =~= seq!['S', 'W']);
    assert(so@ =~= seq!['S']);
    assert(se@ =~= seq!['S', 'E']);
    assert(ea@ =~= seq!['E']);
    assert(we@ =~= seq!['W']);
    assert(ne@ =~= seq!['N', 'E']);
    assert(nw@ =~= seq!['N', 'W']);
    assert(no@ =~= seq!['N']);
    if crate::text::str_is(s, &sw) {
        CompassDirection::SW
    } else if crate::text::str_is(s, &so) {
        CompassDirection::S
    } else if crate::text::str_is(s, &se) {
        CompassDirection::SE
    } else if crate::text::str_is(s, &ea) {
        CompassDirection::E
    } else if crate::text::str_is(s, &we) {
        CompassDirection::W
    } else if crate::text::str_is(s, &ne) {
        CompassDirection::NE
    } else if crate::text::str_is(s, &nw) {
        CompassDirection::NW
    } else if crate::text::str_is(s, &no) {
        CompassDirection::N
    } else {
        CompassDirection::Unknown
    }
}

/// The number after the first `_` of an agency-prefixed id
/// (`MTA_302434` gives 302434), when there is one and it is an `i32`.
pub open spec fn prefixed_number(s: Seq<char>) -> Option<int> {
    let k = crate::ids::first_index(s, '_');
    if k < s.len() {
        crate::num::parse_int_spec(crate::ids::tail_from(s, k + 1), true, i32::MIN as int, i32::MAX as int)
    } else {
        None
    }
}

/// The numbers of agency-prefixed ids (see `prefixed_number`); none when
/// one of them has no number.
pub fn prefixed_numbers(ids: &Vec<String>) -> (r: Option<Vec<i32>>)
    ensures
        match r {
            Some(v) => v@.len() == ids@.len() && forall|i: int|
                0 <= i < ids@.len() ==> prefixed_number((#[trigger] ids@[i])@) == Some(v@[i] as int),
            None => exists|i: int| 0 <= i < ids@.len() && (#[trigger] prefixed_number(ids@[i]@)) is None,
        },
{
    let mut out: Vec<i32> = Vec::new();
    let mut i: usize = 0;
    while i < ids.len()
        invariant
            i <= ids@.len(),
            out@.len() == i,
            forall|j: int| 0 <= j < i ==> prefixed_number((#[trigger] ids@[j])@) == Some(out@[j] as int),
        decreases ids.len() - i,
    {
        let c = str_chars(ids[i].as_str());
        let k = crate::ids::find_char(&c, '_');
        if k >= c.len() {
            assert(prefixed_number(ids@[i as int]@) is None);
            return None;
        }
        let rest = crate::ids::slice_chars(&c, k + 1, c.len());
        match crate::num::parse_i32(&rest) {
            Some(v) => out.push(v),
            None => {
                assert(prefixed_number(ids@[i as int]@) is None);
                return None;
            },
        }
        i = i + 1;
    }
    Some(out)
}

} // verus!
