//! The subway station import: the stations of each
//! route from the schedule service, their headsigns from the nearby-stops
//! service, and the transfers of the static GTFS feed.
use vstd::prelude::*;

use crate::ids::{
    fake_stop_id, find_char, first_index, is_fake_stop_id, opt_string_view, slice_chars, tail_from,
};
use crate::models::StopType;
use crate::num::{decimal, decimal_chars, is_digit, parse_i32, parse_int_spec};
use crate::njt_static::{
    chars_lt, lemma_seq_lt_irrefl, lemma_seq_lt_total, lemma_seq_lt_trans, seq_lt,
};
use crate::text::{join_with, lemma_join_push, str_chars, str_is, string_from_chars};

verus! {

/// The part of an id after its first `:` (`MTASBWY:A27` gives `A27`); none
/// when it holds no `:`.
pub open spec fn after_prefix(s: Seq<char>) -> Option<Seq<char>> {
    let k = first_index(s, ':');
    if k < s.len() {
        Some(tail_from(s, k + 1))
    } else {
        None
    }
}

/// The part of an id after its first `:` (see `after_prefix`).
pub fn remove_prefix(s: &str) -> (r: Option<String>)
    ensures
        opt_string_view(r) == after_prefix(s@),
{
    let chars = str_chars(s);
    let k = find_char(&chars, ':');
    if k < chars.len() {
        let rest = slice_chars(&chars, k + 1, chars.len());
        Some(string_from_chars(rest.as_slice()))
    } else {
        None
    }
}

/// The accessibility flag of a station: `1` (both directions) and `2` (one
/// direction) are accessible, `0` is not; anything else is invalid.
pub open spec fn ada_value(s: Seq<char>) -> Option<bool> {
    if s == seq!['1'] || s == seq!['2'] {
        Some(true)
    } else if s == seq!['0'] {
        Some(false)
    } else {
        None
    }
}

/// The accessibility flag of a station (see `ada_value`).
pub fn parse_ada(s: &str) -> (r: Option<bool>)
    ensures
        r == ada_value(s@),
{
    let one = ['1'];
    let two = ['2'];
    let zero = ['0'];
    assert(one@ =~= seq!['1']);
    assert(two@ =~= seq!['2']);
    assert(zero@ =~= seq!['0']);
    if str_is(s, &one) || str_is(s, &two) {
        Some(true)
    } else if str_is(s, &zero) {
        Some(false)
    } else {
        None
    }
}

/// An empty text means no value.
pub fn empty_to_none(s: String) -> (r: Option<String>)
    ensures
        opt_string_view(r) == if s@.len() == 0 {
            None
        } else {
            Some(s@)
        },
{
    let n = str_chars(s.as_str()).len();
    if n == 0 {
        None
    } else {
        Some(s)
    }
}

/// A transfer between two stations of the static feed.
#[derive(Debug, Clone)]
pub struct Transfer {
    pub from_stop_id: String,
    pub to_stop_id: String,
}

/// The station id of the South Ferry loop, which no train serves.
pub open spec fn loop_station() -> Seq<char> {
    seq!['1', '4', '0']
}

/// A transfer is kept when it leads to another station and neither end is
/// the South Ferry loop.
pub open spec fn transfer_kept(t: Transfer) -> bool {
    &&& t.to_stop_id@ != t.from_stop_id@
    &&& t.from_stop_id@ != loop_station()
    &&& t.to_stop_id@ != loop_station()
}

/// The `(from, to)` station ids of the kept transfers, in order.
pub open spec fn kept_transfers(ts: Seq<Transfer>) -> Seq<(Seq<char>, Seq<char>)>
    decreases ts.len(),
{
    if ts.len() == 0 {
        Seq::empty()
    } else {
        let prev = kept_transfers(ts.drop_last());
        if transfer_kept(ts.last()) {
            prev.push((ts.last().from_stop_id@, ts.last().to_stop_id@))
        } else {
            prev
        }
    }
}

/// The `(from, to)` station ids of a list of transfers.
pub open spec fn transfer_ids(ts: Seq<Transfer>) -> Seq<(Seq<char>, Seq<char>)> {
    Seq::new(ts.len(), |i: int| (ts[i].from_stop_id@, ts[i].to_stop_id@))
}

/// The transfers worth storing (see `transfer_kept`), in order.
pub fn keep_transfers(ts: &Vec<Transfer>) -> (r: Vec<Transfer>)
    ensures
        transfer_ids(r@) == kept_transfers(ts@),
{
    let lp = ['1', '4', '0'];
    assert(lp@ =~= loop_station());
    let mut out: Vec<Transfer> = Vec::new();
    let mut i: usize = 0;
    while i < ts.len()
        invariant
            i <= ts@.len(),
            lp@ == loop_station(),
            transfer_ids(out@) == kept_transfers(ts@.subrange(0, i as int)),
        decreases ts.len() - i,
    {
        let ghost pre = ts@.subrange(0, i as int);
        let ghost cur = ts@.subrange(0, i + 1);
        assert(cur.drop_last() =~= pre);
        let t = &ts[i];
        let from = str_chars(t.from_stop_id.as_str());
        let to = str_chars(t.to_stop_id.as_str());
        let same = crate::text::chars_eq(from.as_slice(), to.as_slice());
        let from_loop = crate::text::chars_eq(from.as_slice(), &lp);
        let to_loop = crate::text::chars_eq(to.as_slice(), &lp);
        if !same && !from_loop && !to_loop {
            out.push(Transfer { from_stop_id: t.from_stop_id.clone(), to_stop_id: t.to_stop_id.clone() });
        }
        assert(transfer_ids(out@) =~= kept_transfers(cur));
        i = i + 1;
    }
    assert(ts@.subrange(0, i as int) =~= ts@);
    out
}

/// A station of a route, as the schedule service lists it (ids without
/// their agency prefix).
#[derive(Debug, Clone)]
pub struct Station {
    pub route_id: String,
    pub stop_sequence: i16,
    pub stop_id: String,
    pub stop_name: String,
    pub stop_type: i16,
    pub ada: bool,
    pub notes: Option<String>,
    pub borough: String,
}

/// A route's station with its place along the route.
#[derive(Debug, Clone)]
pub struct RouteStopRow {
    pub route_id: String,
    pub stop_id: String,
    pub stop_sequence: i16,
    pub stop_type: StopType,
}

/// How often a route serves a station, by the schedule service's code: 0
/// full time, 1 part time (a local stop), 2 late nights only, 3 rush hours
/// only in one direction, 4 a part-time extension run only in rush hours;
/// no other code is known.
pub open spec fn stop_type_code(n: i16) -> Option<StopType> {
    if n == 0 {
        Some(StopType::FullTime)
    } else if n == 1 {
        Some(StopType::PartTime)
    } else if n == 2 {
        Some(StopType::LateNight)
    } else if n == 3 {
        Some(StopType::RushHourOneDirection)
    } else if n == 4 {
        Some(StopType::RushHour)
    } else {
        None
    }
}

/// The stop type of a schedule service code (see `stop_type_code`).
pub fn stop_type_from_code(n: i16) -> (r: Option<StopType>)
    ensures
        r == stop_type_code(n),
{
    if n == 0 {
        Some(StopType::FullTime)
    } else if n == 1 {
        Some(StopType::PartTime)
    } else if n == 2 {
        Some(StopType::LateNight)
    } else if n == 3 {
        Some(StopType::RushHourOneDirection)
    } else if n == 4 {
        Some(StopType::RushHour)
    } else {
        None
    }
}

/// The route-stop rows of the stations listed for `route`: one per station,
/// in order, under the route that was asked for, with the stop type its code
/// names. Every station's code must be a known one.
pub fn route_stop_rows(route: &str, stations: &Vec<Station>) -> (r: Vec<RouteStopRow>)
    requires
        forall|i: int| 0 <= i < stations@.len() ==> stop_type_code((#[trigger] stations@[i]).stop_type) is Some,
    ensures
        r@.len() == stations@.len(),
        forall|i: int|
            0 <= i < r@.len() ==> {
                &&& (#[trigger] r@[i]).route_id@ == route@
                &&& r@[i].stop_id@ == stations@[i].stop_id@
                &&& r@[i].stop_sequence == stations@[i].stop_sequence
                &&& Some(r@[i].stop_type) == stop_type_code(stations@[i].stop_type)
            },
{
    let mut out: Vec<RouteStopRow> = Vec::new();
    let mut i: usize = 0;
    while i < stations.len()
        invariant
            i <= stations@.len(),
            out@.len() == i,
            forall|j: int| 0 <= j < stations@.len() ==> stop_type_code((#[trigger] stations@[j]).stop_type) is Some,
            forall|j: int|
                0 <= j < i ==> {
                    &&& (#[trigger] out@[j]).route_id@ == route@
                    &&& out@[j].stop_id@ == stations@[j].stop_id@
                    &&& out@[j].stop_sequence == stations@[j].stop_sequence
                    &&& Some(out@[j].stop_type) == stop_type_code(stations@[j].stop_type)
                },
        decreases stations.len() - i,
    {
        let s = &stations[i];
        let stop_type = match stop_type_from_code(s.stop_type) {
            Some(t) => t,
            None => {
                assert(stop_type_code(stations@[i as int].stop_type) is Some);
                StopType::FullTime
            },
        };
        out.push(
            RouteStopRow {
                route_id: string_from_chars(str_chars(route).as_slice()),
                stop_id: s.stop_id.clone(),
                stop_sequence: s.stop_sequence,
                stop_type,
            },
        );
        i = i + 1;
    }
    out
}

/// The index of the first station with id `id` (the length when none has it).
pub open spec fn first_station(s: Seq<Station>, id: Seq<char>) -> int
    decreases s.len(),
{
    if s.len() == 0 {
        0
    } else if s[0].stop_id@ == id {
        0
    } else {
        1 + first_station(s.drop_first(), id)
    }
}

proof fn lemma_first_station(s: Seq<Station>, id: Seq<char>, k: int)
    requires
        0 <= k < s.len(),
        s[k].stop_id@ == id,
        forall|m: int| 0 <= m < k ==> (#[trigger] s[m]).stop_id@ != id,
    ensures
        first_station(s, id) == k,
    decreases k,
{
    if k > 0 {
        let t = s.drop_first();
        assert forall|m: int| 0 <= m < k - 1 implies (#[trigger] t[m]).stop_id@ != id by {
            assert(t[m] == s[m + 1]);
        }
        assert(t[k - 1] == s[k]);
        lemma_first_station(t, id, k - 1);
    }
}

/// The station ids of a list of stations.
pub open spec fn station_ids(s: Seq<Station>) -> Seq<Seq<char>> {
    Seq::new(s.len(), |i: int| s[i].stop_id@)
}

/// The stations are in strictly increasing order of id.
pub open spec fn ids_strictly_sorted(r: Seq<Station>) -> bool {
    forall|i: int, j: int|
        0 <= i < j < r.len() ==> seq_lt((#[trigger] r[i]).stop_id@, (#[trigger] r[j]).stop_id@)
}

/// `r` lists, in order of id, the first station of `s` with each id.
pub open spec fn first_stations_by_id(r: Seq<Station>, s: Seq<Station>) -> bool {
    &&& ids_strictly_sorted(r)
    &&& forall|i: int|
        0 <= i < r.len() ==> first_station(s, (#[trigger] r[i]).stop_id@) < s.len() && r[i]
            == s[first_station(s, r[i].stop_id@)]
    &&& forall|m: int| 0 <= m < s.len() ==> station_ids(r).contains((#[trigger] s[m]).stop_id@)
}

/// The stations without repeats: sorted by id, keeping the first station
/// listed with each id.
pub fn dedup_stations(stations: Vec<Station>) -> (r: Vec<Station>)
    ensures
        first_stations_by_id(r@, stations@),
{
    let ghost all = stations@;
    let n = stations.len();
    let mut rest = stations;
    let mut out: Vec<Station> = Vec::new();
    let mut k: usize = 0;
    while rest.len() > 0
        invariant
            k + rest@.len() == all.len(),
            all.len() == n,
            rest@ == all.subrange(k as int, all.len() as int),
            ids_strictly_sorted(out@),
            forall|i: int|
                0 <= i < out@.len() ==> first_station(all, (#[trigger] out@[i]).stop_id@) < k
                    && out@[i] == all[first_station(all, out@[i].stop_id@)],
            forall|m: int| 0 <= m < k ==> station_ids(out@).contains((#[trigger] all[m]).stop_id@),
        decreases rest.len(),
    {
        let x = rest.remove(0);
        assert(x == all[k as int]);
        let xc = str_chars(x.stop_id.as_str());
        let mut p: usize = 0;
        let mut going = true;
        while p < out.len() && going
            invariant
                p <= out@.len(),
                xc@ == x.stop_id@,
                forall|j: int| 0 <= j < p ==> seq_lt((#[trigger] out@[j]).stop_id@, x.stop_id@),
                !going ==> p < out@.len() && !seq_lt(out@[p as int].stop_id@, x.stop_id@),
            decreases out.len() - p, if going { 1int } else { 0int },
        {
            let pc = str_chars(out[p].stop_id.as_str());
            if chars_lt(&pc, &xc) {
                p = p + 1;
            } else {
                going = false;
            }
        }
        let dup = if p < out.len() {
            let pc = str_chars(out[p].stop_id.as_str());
            crate::text::chars_eq(pc.as_slice(), xc.as_slice())
        } else {
            false
        };
        let ghost o0 = out@;
        if dup {
            proof {
                assert(station_ids(o0)[p as int] == x.stop_id@);
            }
        } else {
            proof {
                // x's id is new: below position p ids are smaller, from p on larger
                assert forall|j: int| 0 <= j < o0.len() implies (#[trigger] o0[j]).stop_id@
                    != x.stop_id@ by {
                    if j < p {
                        lemma_seq_lt_irrefl(x.stop_id@);
                    } else {
                        lemma_seq_lt_total(o0[p as int].stop_id@, x.stop_id@);
                        if j > p {
                            lemma_seq_lt_trans(x.stop_id@, o0[p as int].stop_id@, o0[j].stop_id@);
                            lemma_seq_lt_irrefl(x.stop_id@);
                        }
                    }
                }
                assert forall|m: int| 0 <= m < k implies (#[trigger] all[m]).stop_id@
                    != x.stop_id@ by {
                    assert(station_ids(o0).contains(all[m].stop_id@));
                    let j = choose|j: int| 0 <= j < o0.len() && station_ids(o0)[j] == all[m].stop_id@;
                    assert(o0[j].stop_id@ != x.stop_id@);
                }
                lemma_first_station(all, x.stop_id@, k as int);
            }
            out.insert(p, x);
            proof {
                let o1 = out@;
                assert forall|i: int, j: int| 0 <= i < j < o1.len() implies seq_lt(
                    (#[trigger] o1[i]).stop_id@,
                    (#[trigger] o1[j]).stop_id@,
                ) by {
                    if j < p {
                        assert(o1[i] == o0[i] && o1[j] == o0[j]);
                    } else if j == p {
                        assert(o1[i] == o0[i]);
                    } else if i == p {
                        assert(o1[j] == o0[j - 1]);
                        lemma_seq_lt_total(o0[p as int].stop_id@, x.stop_id@);
                        if j - 1 > p {
                            lemma_seq_lt_trans(x.stop_id@, o0[p as int].stop_id@, o0[j - 1].stop_id@);
                        }
                    } else if i < p {
                        assert(o1[i] == o0[i] && o1[j] == o0[j - 1]);
                    } else {
                        assert(o1[i] == o0[i - 1] && o1[j] == o0[j - 1]);
                    }
                }
                assert forall|i: int| 0 <= i < o1.len() implies first_station(
                    all,
                    (#[trigger] o1[i]).stop_id@,
                ) < k + 1 && o1[i] == all[first_station(all, o1[i].stop_id@)] by {
                    if i < p {
                        assert(o1[i] == o0[i]);
                    } else if i > p {
                        assert(o1[i] == o0[i - 1]);
                    }
                }
                assert forall|m: int| 0 <= m < k + 1 implies station_ids(o1).contains(
                    (#[trigger] all[m]).stop_id@,
                ) by {
                    if m == k {
                        assert(station_ids(o1)[p as int] == x.stop_id@);
                    } else {
                        assert(station_ids(o0).contains(all[m].stop_id@));
                        let j = choose|j: int| 0 <= j < o0.len() && station_ids(o0)[j] == all[m].stop_id@;
                        if j < p {
                            assert(station_ids(o1)[j] == all[m].stop_id@);
                        } else {
                            assert(station_ids(o1)[j + 1] == all[m].stop_id@);
                        }
                    }
                }
            }
        }
        k = k + 1;
        assert(rest@ =~= all.subrange(k as int, all.len() as int));
    }
    out
}

/// The prefix of a station id in the nearby-stops service.
pub open spec fn agency_prefix() -> Seq<char> {
    seq!['M', 'T', 'A', 'S', 'B', 'W', 'Y', ':']
}

/// The `stops` parameter of the nearby-stops request: every station id with
/// the agency prefix, joined with commas.
pub open spec fn nearby_stops_param(s: Seq<Station>) -> Seq<char> {
    join_with(Seq::new(s.len(), |i: int| agency_prefix() + s[i].stop_id@), seq![','])
}

/// The `stops` parameter of the nearby-stops request (see
/// `nearby_stops_param`).
pub fn nearby_stop_ids(stations: &Vec<Station>) -> (r: String)
    ensures
        r@ == nearby_stops_param(stations@),
{
    let prefix = ['M', 'T', 'A', 'S', 'B', 'W', 'Y', ':'];
    assert(prefix@ =~= agency_prefix());
    let ghost parts = Seq::new(stations@.len(), |i: int| agency_prefix() + stations@[i].stop_id@);
    let mut out: Vec<char> = Vec::new();
    let mut k: usize = 0;
    while k < stations.len()
        invariant
            k <= stations@.len(),
            prefix@ == agency_prefix(),
            parts == Seq::new(stations@.len(), |i: int| agency_prefix() + stations@[i].stop_id@),
            out@ == join_with(parts.subrange(0, k as int), seq![',']),
        decreases stations.len() - k,
    {
        let ghost pre = parts.subrange(0, k as int);
        assert(parts.subrange(0, k + 1) =~= pre.push(parts[k as int]));
        proof {
            lemma_join_push(pre, seq![','], parts[k as int]);
        }
        if k > 0 {
            out.push(',');
        }
        let mut w: Vec<char> = Vec::new();
        let mut j: usize = 0;
        while j < 8
            invariant
                j <= 8,
                prefix@ == agency_prefix(),
                w@ == agency_prefix().subrange(0, j as int),
            decreases 8 - j,
        {
            w.push(prefix[j]);
            j = j + 1;
            assert(w@ =~= agency_prefix().subrange(0, j as int));
        }
        let id = str_chars(stations[k].stop_id.as_str());
        let mut j: usize = 0;
        while j < id.len()
            invariant
                j <= id@.len(),
                w@ == agency_prefix() + id@.subrange(0, j as int),
            decreases id.len() - j,
        {
            w.push(id[j]);
            j = j + 1;
            assert(w@ =~= agency_prefix() + id@.subrange(0, j as int));
        }
        assert(id@.subrange(0, id@.len() as int) =~= id@);
        assert(w@ == parts[k as int]);
        let ghost base = out@;
        let mut j: usize = 0;
        while j < w.len()
            invariant
                j <= w@.len(),
                out@ == base + w@.subrange(0, j as int),
            decreases w.len() - j,
        {
            out.push(w[j]);
            j = j + 1;
            assert(out@ =~= base + w@.subrange(0, j as int));
        }
        assert(w@.subrange(0, w@.len() as int) =~= w@);
        k = k + 1;
    }
    assert(parts.subrange(0, k as int) =~= parts);
    string_from_chars(out.as_slice())
}

/// A stop time of a route group in the nearby-stops service; its stop id
/// ends with the direction letter.
#[derive(Debug, Clone)]
pub struct StationTime {
    pub stop_id: String,
}

/// A group of upcoming trips at a station, with their headsign.
#[derive(Debug, Clone)]
pub struct NearbyGroup {
    pub headsign: String,
    pub times: Vec<StationTime>,
}

/// A station of the nearby-stops service; `lat` and `lon` are `f32` bit
/// patterns.
#[derive(Debug, Clone)]
pub struct NearbyStop {
    pub id: String,
    pub name: String,
    pub lat: u32,
    pub lon: u32,
}

/// A station's answer from the nearby-stops service.
#[derive(Debug, Clone)]
pub struct NearbyStation {
    pub groups: Vec<NearbyGroup>,
    pub stop: NearbyStop,
}

/// The headsigns of a station and its position (`f32` bit patterns).
#[derive(Debug, Clone)]
pub struct StationHeadsigns {
    pub stop_id: String,
    pub north: String,
    pub south: String,
    pub lat: u32,
    pub lon: u32,
}

/// Some stop time of the group goes in direction `dir` (its stop id ends
/// with that letter).
pub open spec fn group_goes(g: NearbyGroup, dir: char) -> bool {
    exists|j: int|
        0 <= j < g.times@.len() && (#[trigger] g.times@[j]).stop_id@.len() > 0
            && g.times@[j].stop_id@.last() == dir
}

/// The headsign of the first group that goes in direction `dir`.
pub open spec fn first_headsign(gs: Seq<NearbyGroup>, dir: char) -> Option<Seq<char>>
    decreases gs.len(),
{
    if gs.len() == 0 {
        None
    } else if group_goes(gs[0], dir) {
        Some(gs[0].headsign@)
    } else {
        first_headsign(gs.drop_first(), dir)
    }
}

/// The headsign toward `dir`: the first group's that goes that way, else
/// `fallback`.
pub open spec fn headsign_toward(gs: Seq<NearbyGroup>, dir: char, fallback: Seq<char>) -> Seq<char> {
    match first_headsign(gs, dir) {
        Some(h) => h,
        None => fallback,
    }
}

proof fn lemma_first_headsign(gs: Seq<NearbyGroup>, dir: char, k: int)
    requires
        0 <= k <= gs.len(),
        forall|j: int| 0 <= j < k ==> !group_goes(#[trigger] gs[j], dir),
    ensures
        first_headsign(gs, dir) == first_headsign(gs.subrange(k, gs.len() as int), dir),
    decreases k,
{
    if k > 0 {
        let t = gs.drop_first();
        assert forall|j: int| 0 <= j < k - 1 implies !group_goes(#[trigger] t[j], dir) by {
            assert(t[j] == gs[j + 1]);
        }
        lemma_first_headsign(t, dir, k - 1);
        assert(t.subrange(k - 1, t.len() as int) =~= gs.subrange(k, gs.len() as int));
    } else {
        assert(gs.subrange(0, gs.len() as int) =~= gs);
    }
}

fn goes(g: &NearbyGroup, dir: char) -> (b: bool)
    ensures
        b == group_goes(*g, dir),
{
    let mut j: usize = 0;
    while j < g.times.len()
        invariant
            j <= g.times@.len(),
            forall|m: int|
                0 <= m < j ==> !((#[trigger] g.times@[m]).stop_id@.len() > 0 && g.times@[m].stop_id@.last()
                    == dir),
        decreases g.times.len() - j,
    {
        let id = str_chars(g.times[j].stop_id.as_str());
        if id.len() > 0 && id[id.len() - 1] == dir {
            return true;
        }
        j = j + 1;
    }
    false
}

fn headsign_for(gs: &Vec<NearbyGroup>, dir: char, fallback: &[char]) -> (r: String)
    ensures
        r@ == headsign_toward(gs@, dir, fallback@),
{
    let mut i: usize = 0;
    while i < gs.len()
        invariant
            i <= gs@.len(),
            forall|j: int| 0 <= j < i ==> !group_goes(#[trigger] gs@[j], dir),
        decreases gs.len() - i,
    {
        if goes(&gs[i], dir) {
            proof {
                lemma_first_headsign(gs@, dir, i as int);
                assert(gs@.subrange(i as int, gs@.len() as int)[0] == gs@[i as int]);
            }
            return gs[i].headsign.clone();
        }
        i = i + 1;
    }
    proof {
        lemma_first_headsign(gs@, dir, i as int);
        assert(gs@.subrange(i as int, gs@.len() as int).len() == 0);
    }
    string_from_chars(fallback)
}

/// The default northbound headsign.
pub open spec fn northbound() -> Seq<char> {
    seq!['N', 'o', 'r', 't', 'h', 'b', 'o', 'u', 'n', 'd']
}

/// The default southbound headsign.
pub open spec fn southbound() -> Seq<char> {
    seq!['S', 'o', 'u', 't', 'h', 'b', 'o', 'u', 'n', 'd']
}

/// The headsigns of a station: the first group with a stop time toward the
/// north (`N`) gives the north headsign, and likewise the south (`S`); the
/// defaults are `Northbound` and `Southbound`.
pub fn station_headsigns(station: &NearbyStation) -> (r: StationHeadsigns)
    ensures
        r.stop_id@ == station.stop.id@,
        r.north@ == headsign_toward(station.groups@, 'N', northbound()),
        r.south@ == headsign_toward(station.groups@, 'S', southbound()),
        r.lat == station.stop.lat,
        r.lon == station.stop.lon,
{
    let north = ['N', 'o', 'r', 't', 'h', 'b', 'o', 'u', 'n', 'd'];
    let south = ['S', 'o', 'u', 't', 'h', 'b', 'o', 'u', 'n', 'd'];
    assert(north@ =~= northbound());
    assert(south@ =~= southbound());
    StationHeadsigns {
        stop_id: station.stop.id.clone(),
        north: headsign_for(&station.groups, 'N', &north),
        south: headsign_for(&station.groups, 'S', &south),
        lat: station.stop.lat,
        lon: station.stop.lon,
    }
}

/// The index of the first headsign entry of station `id` (the length when
/// there is none).
pub open spec fn headsigns_index(hs: Seq<StationHeadsigns>, id: Seq<char>) -> int
    decreases hs.len(),
{
    if hs.len() == 0 {
        0
    } else if hs[0].stop_id@ == id {
        0
    } else {
        1 + headsigns_index(hs.drop_first(), id)
    }
}

proof fn lemma_headsigns_index(hs: Seq<StationHeadsigns>, id: Seq<char>, k: int)
    requires
        0 <= k <= hs.len(),
        forall|j: int| 0 <= j < k ==> (#[trigger] hs[j]).stop_id@ != id,
    ensures
        headsigns_index(hs, id) == k + headsigns_index(hs.subrange(k, hs.len() as int), id),
    decreases k,
{
    if k > 0 {
        let t = hs.drop_first();
        assert forall|j: int| 0 <= j < k - 1 implies (#[trigger] t[j]).stop_id@ != id by {
            assert(t[j] == hs[j + 1]);
        }
        lemma_headsigns_index(t, id, k - 1);
        assert(t.subrange(k - 1, t.len() as int) =~= hs.subrange(k, hs.len() as int));
    } else {
        assert(hs.subrange(0, hs.len() as int) =~= hs);
    }
}

/// The stations from which a transfer leads to station `id`, in order.
pub open spec fn transfers_to(ts: Seq<Transfer>, id: Seq<char>) -> Seq<Seq<char>>
    decreases ts.len(),
{
    if ts.len() == 0 {
        Seq::empty()
    } else {
        let prev = transfers_to(ts.drop_last(), id);
        if ts.last().to_stop_id@ == id {
            prev.push(ts.last().from_stop_id@)
        } else {
            prev
        }
    }
}

/// A station as stored: its names, accessibility, headsigns, position and
/// the stations that transfer to it.
#[derive(Debug, Clone)]
pub struct StopRow {
    pub stop_id: String,
    pub name: String,
    pub ada: bool,
    pub notes: Option<String>,
    pub borough: String,
    pub north_headsign: String,
    pub south_headsign: String,
    pub lat: u32,
    pub lon: u32,
    pub transfers: Vec<String>,
}

/// The texts of a list of strings.
pub open spec fn texts(v: Seq<String>) -> Seq<Seq<char>> {
    Seq::new(v.len(), |i: int| v[i]@)
}

/// The stored row of a station, given its headsign entry and the transfers.
pub open spec fn stop_row_matches(r: StopRow, s: Station, h: StationHeadsigns, ts: Seq<Transfer>) -> bool {
    &&& r.stop_id@ == s.stop_id@
    &&& r.name@ == s.stop_name@
    &&& r.ada == s.ada
    &&& opt_string_view(r.notes) == opt_string_view(s.notes)
    &&& r.borough@ == s.borough@
    &&& r.north_headsign@ == h.north@
    &&& r.south_headsign@ == h.south@
    &&& r.lat == h.lat
    &&& r.lon == h.lon
    &&& texts(r.transfers@) == transfers_to(ts, s.stop_id@)
}

fn find_headsigns(hs: &Vec<StationHeadsigns>, id: &Vec<char>) -> (k: usize)
    requires
        headsigns_index(hs@, id@) < hs@.len(),
    ensures
        k == headsigns_index(hs@, id@),
{
    let mut i: usize = 0;
    while i < hs.len()
        invariant
            i <= hs@.len(),
            headsigns_index(hs@, id@) < hs@.len(),
            forall|j: int| 0 <= j < i ==> (#[trigger] hs@[j]).stop_id@ != id@,
        decreases hs.len() - i,
    {
        let c = str_chars(hs[i].stop_id.as_str());
        if crate::text::chars_eq(c.as_slice(), id.as_slice()) {
            proof {
                lemma_headsigns_index(hs@, id@, i as int);
                assert(hs@.subrange(i as int, hs@.len() as int)[0] == hs@[i as int]);
            }
            return i;
        }
        i = i + 1;
    }
    proof {
        lemma_headsigns_index(hs@, id@, i as int);
    }
    i
}

fn transfers_into(ts: &Vec<Transfer>, id: &Vec<char>) -> (r: Vec<String>)
    ensures
        texts(r@) == transfers_to(ts@, id@),
{
    let mut out: Vec<String> = Vec::new();
    let mut i: usize = 0;
    while i < ts.len()
        invariant
            i <= ts@.len(),
            texts(out@) == transfers_to(ts@.subrange(0, i as int), id@),
        decreases ts.len() - i,
    {
        let ghost pre = ts@.subrange(0, i as int);
        let ghost cur = ts@.subrange(0, i + 1);
        assert(cur.drop_last() =~= pre);
        let to = str_chars(ts[i].to_stop_id.as_str());
        if crate::text::chars_eq(to.as_slice(), id.as_slice()) {
            out.push(ts[i].from_stop_id.clone());
        }
        assert(texts(out@) =~= transfers_to(cur, id@));
        i = i + 1;
    }
    assert(ts@.subrange(0, i as int) =~= ts@);
    out
}

/// The stored rows of the stations, one per station in order; each takes
/// the first headsign entry of its id, which must exist.
pub fn stop_rows(stations: &Vec<Station>, heads: &Vec<StationHeadsigns>, transfers: &Vec<Transfer>) -> (r: Vec<
    StopRow,
>)
    requires
        forall|i: int|
            0 <= i < stations@.len() ==> headsigns_index(heads@, (#[trigger] stations@[i]).stop_id@)
                < heads@.len(),
    ensures
        r@.len() == stations@.len(),
        forall|i: int|
            0 <= i < r@.len() ==> stop_row_matches(
                #[trigger] r@[i],
                stations@[i],
                heads@[headsigns_index(heads@, stations@[i].stop_id@)],
                transfers@,
            ),
{
    let mut out: Vec<StopRow> = Vec::new();
    let mut i: usize = 0;
    while i < stations.len()
        invariant
            i <= stations@.len(),
            out@.len() == i,
            forall|k: int|
                0 <= k < stations@.len() ==> headsigns_index(heads@, (#[trigger] stations@[k]).stop_id@)
                    < heads@.len(),
            forall|j: int|
                0 <= j < i ==> stop_row_matches(
                    #[trigger] out@[j],
                    stations@[j],
                    heads@[headsigns_index(heads@, stations@[j].stop_id@)],
                    transfers@,
                ),
        decreases stations.len() - i,
    {
        let s = &stations[i];
        let id = str_chars(s.stop_id.as_str());
        let k = find_headsigns(heads, &id);
        let h = &heads[k];
        out.push(
            StopRow {
                stop_id: s.stop_id.clone(),
                name: s.stop_name.clone(),
                ada: s.ada,
                notes: crate::ids::clone_opt_string(&s.notes),
                borough: s.borough.clone(),
                north_headsign: h.north.clone(),
                south_headsign: h.south.clone(),
                lat: h.lat,
                lon: h.lon,
                transfers: transfers_into(transfers, &id),
            },
        );
        i = i + 1;
    }
    out
}

/// Whether a character has one of Unicode's number categories, as
/// `char::is_numeric` tells.
pub uninterp spec fn char_numeric(c: char) -> bool;

/// Calls `char::is_numeric`; the answer is named `char_numeric` of the
/// character. Which characters are numeric is not restated.
#[verifier::external_body]
fn is_numeric(c: char) -> (b: bool)
    ensures
        b == char_numeric(c),
{
    c.is_numeric()
}

/// The digits a station id is spelled with as a number: a numeric character
/// stands for itself, any other for the decimal digits of its code point
/// (`A27` becomes `6527`).
pub open spec fn id_number_text(s: Seq<char>) -> Seq<char>
    decreases s.len(),
{
    if s.len() == 0 {
        Seq::empty()
    } else {
        let prev = id_number_text(s.drop_last());
        if char_numeric(s.last()) {
            prev.push(s.last())
        } else {
            prev + decimal(s.last() as u32 as int)
        }
    }
}

/// Whether a station id spells a number: its numeric characters are ASCII
/// digits and the number it spells fits an `i32` (the empty id spells
/// none).
pub open spec fn spells_number(s: Seq<char>) -> bool {
    &&& forall|i: int| 0 <= i < s.len() ==> (char_numeric(#[trigger] s[i]) ==> is_digit(s[i]))
    &&& parse_int_spec(id_number_text(s), true, i32::MIN as int, i32::MAX as int) is Some
}

/// The number of a station id (see `id_number_text`); none for the MTA's
/// non-existent stops and for an invalid id, one that spells no number.
pub open spec fn stop_number(s: Seq<char>) -> Option<i32> {
    if is_fake_stop_id(s) || !spells_number(s) {
        None
    } else {
        Some(parse_int_spec(id_number_text(s), true, i32::MIN as int, i32::MAX as int).unwrap() as i32)
    }
}

fn number_text(s: &Vec<char>) -> (r: (Vec<char>, bool))
    ensures
        r.0@ == id_number_text(s@),
        r.1 == (forall|i: int| 0 <= i < s@.len() ==> (char_numeric(#[trigger] s@[i]) ==> is_digit(s@[i]))),
{
    let mut out: Vec<char> = Vec::new();
    let mut ok = true;
    let mut i: usize = 0;
    while i < s.len()
        invariant
            i <= s@.len(),
            out@ == id_number_text(s@.subrange(0, i as int)),
            ok == (forall|j: int| 0 <= j < i ==> (char_numeric(#[trigger] s@[j]) ==> is_digit(s@[j]))),
        decreases s.len() - i,
    {
        let ghost pre = s@.subrange(0, i as int);
        let ghost cur = s@.subrange(0, i + 1);
        assert(cur.drop_last() =~= pre);
        let c = s[i];
        if is_numeric(c) {
            if !('0' <= c && c <= '9') {
                ok = false;
            }
            out.push(c);
        } else {
            let d = decimal_chars(c as u32 as i64);
            let ghost base = out@;
            let mut k: usize = 0;
            while k < d.len()
                invariant
                    k <= d@.len(),
                    out@ == base + d@.subrange(0, k as int),
                decreases d.len() - k,
            {
                out.push(d[k]);
                k = k + 1;
                assert(out@ =~= base + d@.subrange(0, k as int));
            }
            assert(d@.subrange(0, d@.len() as int) =~= d@);
        }
        assert(out@ =~= id_number_text(cur));
        i = i + 1;
    }
    assert(s@.subrange(0, i as int) =~= s@);
    (out, ok)
}

/// The number of a station id (see `stop_number`): each character's digit
/// when it is numeric, else its code point, written one after the other;
/// none for the MTA's non-existent stops and for an invalid id.
pub fn convert_stop_id(stop_id: &str) -> (r: Option<i32>)
    ensures
        r == stop_number(stop_id@),
{
    let chars = str_chars(stop_id);
    if fake_stop_id(&chars) {
        return None;
    }
    let (text, ok) = number_text(&chars);
    if !ok {
        return None;
    }
    parse_i32(&text)
}

/// The borough of a station.
#[derive(Debug, Clone, Copy, PartialEq, Eq, Structural)]
pub enum Borough {
    Brooklyn,
    Queens,
    StatenIsland,
    Manhattan,
    Bronx,
}

/// The borough a station's borough name names.
pub open spec fn borough_named(s: Seq<char>) -> Option<Borough> {
    if s == seq!['B', 'r', 'o', 'o', 'k', 'l', 'y', 'n'] {
        Some(Borough::Brooklyn)
    } else if s == seq!['Q', 'u', 'e', 'e', 'n', 's'] {
        Some(Borough::Queens)
    } else if s == seq!['S', 't', 'a', 't', 'e', 'n', ' ', 'I', 's', 'l', 'a', 'n', 'd'] {
        Some(Borough::StatenIsland)
    } else if s == seq!['M', 'a', 'n', 'h', 'a', 't', 't', 'a', 'n'] {
        Some(Borough::Manhattan)
    } else if s == seq!['B', 'r', 'o', 'n', 'x'] {
        Some(Borough::Bronx)
    } else {
        None
    }
}

/// The borough a station's borough name names (see `borough_named`).
pub fn borough_of(s: &str) -> (r: Option<Borough>)
    ensures
        r == borough_named(s@),
{
    let brooklyn = ['B', 'r', 'o', 'o', 'k', 'l', 'y', 'n'];
    let queens = ['Q', 'u', 'e', 'e', 'n', 's'];
    let staten = ['S', 't', 'a', 't', 'e', 'n', ' ', 'I', 's', 'l', 'a', 'n', 'd'];
    let manhattan = ['M', 'a', 'n', 'h', 'a', 't', 't', 'a', 'n'];
    let bronx = ['B', 'r', 'o', 'n', 'x'];
    assert(brooklyn@ =~= seq!['B', 'r', 'o', 'o', 'k', 'l', 'y', 'n']);
    assert(queens@ =~= seq!['Q', 'u', 'e', 'e', 'n', 's']);
    assert(staten@ =~= seq!['S', 't', 'a', 't', 'e', 'n', ' ', 'I', 's', 'l', 'a', 'n', 'd']);
    assert(manhattan@ =~= seq!['M', 'a', 'n', 'h', 'a', 't', 't', 'a', 'n']);
    assert(bronx@ =~= seq!['B', 'r', 'o', 'n', 'x']);
    if str_is(s, &brooklyn) {
        Some(Borough::Brooklyn)
    } else if str_is(s, &queens) {
        Some(Borough::Queens)
    } else if str_is(s, &staten) {
        Some(Borough::StatenIsland)
    } else if str_is(s, &manhattan) {
        Some(Borough::Manhattan)
    } else if str_is(s, &bronx) {
        Some(Borough::Bronx)
    } else {
        None
    }
}

} // verus!
