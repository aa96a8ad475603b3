//! The stops each NJ Transit bus route serves, derived from the GTFS trips:
//! one row per route and stop with its earliest stop sequence, its most
//! common headsign, its direction and the stop across the street.
use vstd::hash_map::StringHashMap;
use vstd::prelude::*;

use crate::ids::{normalize_headsign, normalized_headsign};
use crate::models::{RouteStop, RouteStopData};
use crate::num::{decimal, decimal_chars};
use crate::njt_static::{lookup, StopRemap};
use crate::text::{str_chars, to_uppercase, trim_chars, trim_spec, uppercase_of};

verus! {

/// A stop time of a GTFS trip.
pub struct GtfsStopTime {
    pub stop_id: String,
    pub stop_headsign: Option<String>,
    pub stop_sequence: u32,
}

/// A GTFS trip; `direction_id` is 0 or 1 when the feed gives one.
pub struct GtfsTrip {
    pub route_id: String,
    pub direction_id: Option<i16>,
    pub trip_headsign: Option<String>,
    pub stop_times: Vec<GtfsStopTime>,
}

/// The canonical id of a stop: what the remap folds it into, or itself.
pub open spec fn canonical_id(es: Seq<(Seq<char>, Seq<char>)>, id: Seq<char>) -> Seq<char> {
    match lookup(es, id) {
        Some(c) => c,
        None => id,
    }
}

/// The direction of a trip: its direction id, or 0.
pub open spec fn trip_direction(t: GtfsTrip) -> i16 {
    match t.direction_id {
        Some(d) => d,
        None => 0,
    }
}

/// The headsign shown at a stop: the stop's own when it has non-blank text,
/// else the trip's, else nothing.
pub open spec fn raw_headsign(st: GtfsStopTime, t: GtfsTrip) -> Seq<char> {
    match st.stop_headsign {
        Some(h) if trim_spec(h@).len() > 0 => h@,
        _ => match t.trip_headsign {
            Some(h) => h@,
            None => Seq::empty(),
        },
    }
}

/// One visit of a trip to a stop: route, canonical stop, direction, stop
/// sequence and normalized headsign.
pub type Visit = (Seq<char>, Seq<char>, i16, i16, Seq<char>);

/// The visit of the `k`-th stop time of a trip.
pub open spec fn visit_of(t: GtfsTrip, es: Seq<(Seq<char>, Seq<char>)>, k: int) -> Visit {
    let st = t.stop_times@[k];
    (
        t.route_id@,
        canonical_id(es, st.stop_id@),
        trip_direction(t),
        st.stop_sequence as i16,
        normalized_headsign(t.route_id@, raw_headsign(st, t)),
    )
}

/// The visits of the first `k` stop times of a trip.
pub open spec fn trip_visits(t: GtfsTrip, es: Seq<(Seq<char>, Seq<char>)>, k: int) -> Seq<Visit>
    decreases k,
{
    if k <= 0 {
        Seq::empty()
    } else {
        trip_visits(t, es, k - 1).push(visit_of(t, es, k - 1))
    }
}

/// The visits of all trips, trip by trip.
pub open spec fn visits(trips: Seq<GtfsTrip>, es: Seq<(Seq<char>, Seq<char>)>) -> Seq<Visit>
    decreases trips.len(),
{
    if trips.len() == 0 {
        Seq::empty()
    } else {
        visits(trips.drop_last(), es) + trip_visits(
            trips.last(),
            es,
            trips.last().stop_times@.len() as int,
        )
    }
}

/// What looking up `k` in `es` gives once `e` is added at the end.
proof fn lemma_lookup_push(es: Seq<(Seq<char>, Seq<char>)>, e: (Seq<char>, Seq<char>), k: Seq<char>)
    ensures
        lookup(es.push(e), k) == match lookup(es, k) {
            Some(v) => Some(v),
            None => if e.0 == k {
                Some(e.1)
            } else {
                None
            },
        },
    decreases es.len(),
{
    if es.len() > 0 {
        assert(es.push(e).drop_first() =~= es.drop_first().push(e));
        assert(es.push(e)[0] == es[0]);
        lemma_lookup_push(es.drop_first(), e, k);
    } else {
        assert(es.push(e).drop_first() =~= Seq::<(Seq<char>, Seq<char>)>::empty());
        assert(lookup(Seq::<(Seq<char>, Seq<char>)>::empty(), k) is None);
        assert(es.push(e)[0] == e);
    }
}

/// An index of a stop remap for constant-time lookups.
pub struct RemapIndex {
    pub map: StringHashMap<String>,
}

impl RemapIndex {
    /// The index answers as the remap does.
    pub open spec fn indexes(&self, es: Seq<(Seq<char>, Seq<char>)>) -> bool {
        forall|k: Seq<char>|
            #![trigger self.map@.contains_key(k)]
            #![trigger lookup(es, k)]
            (self.map@.contains_key(k) <==> lookup(es, k) is Some) && (self.map@.contains_key(k)
                ==> Some(self.map@[k]@) == lookup(es, k))
    }

    /// The index of a stop remap.
    pub fn new(remap: &StopRemap) -> (r: RemapIndex)
        ensures
            r.indexes(remap.view_entries()),
    {
        let ghost es = remap.view_entries();
        let mut map: StringHashMap<String> = StringHashMap::new();
        let mut i: usize = 0;
        while i < remap.entries.len()
            invariant
                i <= es.len(),
                es == remap.view_entries(),
                es.len() == remap.entries@.len(),
                forall|k: Seq<char>|
                    #![trigger map@.contains_key(k)]
                    #![trigger lookup(es.subrange(0, i as int), k)]
                    (map@.contains_key(k) <==> lookup(es.subrange(0, i as int), k) is Some) && (
                    map@.contains_key(k) ==> Some(map@[k]@) == lookup(es.subrange(0, i as int), k)),
            decreases remap.entries.len() - i,
        {
            let ghost pre = es.subrange(0, i as int);
            let ghost e = es[i as int];
            assert(es.subrange(0, i + 1) =~= pre.push(e));
            assert(e == (remap.entries@[i as int].0@, remap.entries@[i as int].1@));
            let k = &remap.entries[i].0;
            let present = map.contains_key(k.as_str());
            if !present {
                map.insert(k.clone(), remap.entries[i].1.clone());
            }
            assert forall|q: Seq<char>|
                #![trigger map@.contains_key(q)]
                #![trigger lookup(es.subrange(0, i + 1), q)]
                (map@.contains_key(q) <==> lookup(es.subrange(0, i + 1), q) is Some) && (
                map@.contains_key(q) ==> Some(map@[q]@) == lookup(es.subrange(0, i + 1), q)) by {
                lemma_lookup_push(pre, e, q);
            }
            i = i + 1;
        }
        assert(es.subrange(0, i as int) =~= es);
        RemapIndex { map }
    }

    /// The canonical id of a stop (see `canonical_id`).
    pub(crate) fn canonical(&self, id: &String, es: Ghost<Seq<(Seq<char>, Seq<char>)>>) -> (r: String)
        requires
            self.indexes(es@),
        ensures
            r@ == canonical_id(es@, id@),
    {
        match self.map.get(id.as_str()) {
            Some(c) => c.clone(),
            None => id.clone(),
        }
    }
}

/// Headsign tallies: each headsign with how often it was shown.
pub type Tally = Seq<(Seq<char>, int)>;

/// The visits of a route to a stop in one direction: route, stop, direction,
/// smallest stop sequence and headsign tally.
pub type Group = (Seq<char>, Seq<char>, i16, i16, Tally);

/// The position of a headsign in a tally, or the tally's length.
pub open spec fn find_tally(c: Tally, h: Seq<char>) -> int
    decreases c.len(),
{
    if c.len() == 0 {
        0
    } else if c[0].0 == h {
        0
    } else {
        1 + find_tally(c.drop_first(), h)
    }
}

/// A tally with one more showing of `h`; empty headsigns are not counted.
pub open spec fn add_count(c: Tally, h: Seq<char>) -> Tally {
    if h.len() == 0 {
        c
    } else {
        let i = find_tally(c, h);
        if i < c.len() {
            c.update(i, (c[i].0, c[i].1 + 1))
        } else {
            c.push((h, 1))
        }
    }
}

/// The position of the group of a route, stop and direction, or the number
/// of groups.
pub open spec fn find_group(gs: Seq<Group>, r: Seq<char>, s: Seq<char>, d: i16) -> int
    decreases gs.len(),
{
    if gs.len() == 0 {
        0
    } else if gs[0].0 == r && gs[0].1 == s && gs[0].2 == d {
        0
    } else {
        1 + find_group(gs.drop_first(), r, s, d)
    }
}

/// The groups after one more visit.
pub open spec fn group_step(gs: Seq<Group>, v: Visit) -> Seq<Group> {
    let i = find_group(gs, v.0, v.1, v.2);
    if i < gs.len() {
        let g = gs[i];
        gs.update(
            i,
            (
                g.0,
                g.1,
                g.2,
                if v.3 < g.3 {
                    v.3
                } else {
                    g.3
                },
                add_count(g.4, v.4),
            ),
        )
    } else {
        gs.push((v.0, v.1, v.2, v.3, add_count(Seq::empty(), v.4)))
    }
}

/// The groups of a list of visits, in the order they first appear.
pub open spec fn group_visits(vs: Seq<Visit>) -> Seq<Group>
    decreases vs.len(),
{
    if vs.len() == 0 {
        Seq::empty()
    } else {
        group_step(group_visits(vs.drop_last()), vs.last())
    }
}

/// The total number of stop times of the trips.
pub open spec fn total_stop_times(trips: Seq<GtfsTrip>) -> int
    decreases trips.len(),
{
    if trips.len() == 0 {
        0
    } else {
        total_stop_times(trips.drop_last()) + trips.last().stop_times@.len()
    }
}

/// The key of a group in the hash index.
pub open spec fn group_key(r: Seq<char>, s: Seq<char>, d: i16) -> Seq<char> {
    r + seq!['\u{0}'] + s + seq!['\u{0}'] + decimal(d as int)
}

/// A group being built.
struct GroupAcc {
    route_id: String,
    stop_id: String,
    direction: i16,
    min_sequence: i16,
    counts: Vec<(String, u64)>,
}

spec fn tally_view(c: Seq<(String, u64)>) -> Tally {
    Seq::new(c.len(), |i: int| (c[i].0@, c[i].1 as int))
}

spec fn acc_view(g: GroupAcc) -> Group {
    (g.route_id@, g.stop_id@, g.direction, g.min_sequence, tally_view(g.counts@))
}

spec fn accs_view(gs: Seq<GroupAcc>) -> Seq<Group> {
    Seq::new(gs.len(), |i: int| acc_view(gs[i]))
}

proof fn lemma_find_tally(c: Tally, h: Seq<char>, k: int)
    requires
        0 <= k <= c.len(),
        forall|j: int| 0 <= j < k ==> (#[trigger] c[j]).0 != h,
        k == c.len() || c[k].0 == h,
    ensures
        find_tally(c, h) == k,
    decreases k,
{
    if k > 0 {
        let t = c.drop_first();
        assert forall|j: int| 0 <= j < k - 1 implies (#[trigger] t[j]).0 != h by {
            assert(t[j] == c[j + 1]);
        }
        if k < c.len() {
            assert(t[k - 1] == c[k]);
        }
        lemma_find_tally(t, h, k - 1);
    }
}

proof fn lemma_find_group(gs: Seq<Group>, r: Seq<char>, s: Seq<char>, d: i16, k: int)
    requires
        0 <= k <= gs.len(),
        forall|j: int| 0 <= j < k ==> !((#[trigger] gs[j]).0 == r && gs[j].1 == s && gs[j].2 == d),
        k == gs.len() || (gs[k].0 == r && gs[k].1 == s && gs[k].2 == d),
    ensures
        find_group(gs, r, s, d) == k,
    decreases k,
{
    if k > 0 {
        let t = gs.drop_first();
        assert forall|j: int| 0 <= j < k - 1 implies !((#[trigger] t[j]).0 == r && t[j].1 == s && t[j].2
            == d) by {
            assert(t[j] == gs[j + 1]);
        }
        if k < gs.len() {
            assert(t[k - 1] == gs[k]);
        }
        lemma_find_group(t, r, s, d, k - 1);
    }
}

pub proof fn lemma_find_group_bound(gs: Seq<Group>, r: Seq<char>, s: Seq<char>, d: i16)
    ensures
        0 <= find_group(gs, r, s, d) <= gs.len(),
        forall|i: int|
            0 <= i < find_group(gs, r, s, d) ==> !((#[trigger] gs[i]).0 == r && gs[i].1 == s && gs[i].2 == d),
        find_group(gs, r, s, d) < gs.len() ==> {
            let k = find_group(gs, r, s, d);
            gs[k].0 == r && gs[k].1 == s && gs[k].2 == d
        },
    decreases gs.len(),
{
    if gs.len() > 0 && !(gs[0].0 == r && gs[0].1 == s && gs[0].2 == d) {
        let t = gs.drop_first();
        lemma_find_group_bound(t, r, s, d);
        assert forall|i: int| 0 <= i < find_group(gs, r, s, d) implies !((#[trigger] gs[i]).0 == r
            && gs[i].1 == s && gs[i].2 == d) by {
            if i > 0 {
                assert(gs[i] == t[i - 1]);
            }
        }
        if find_group(gs, r, s, d) < gs.len() {
            assert(gs[find_group(gs, r, s, d)] == t[find_group(t, r, s, d)]);
        }
    }
}

/// Counts one more showing of `h` (see `add_count`); every count stays below
/// `bound`.
fn count_headsign(counts: &mut Vec<(String, u64)>, h: String, bound: Ghost<int>)
    requires
        1 <= bound@ < u64::MAX,
        forall|i: int| 0 <= i < old(counts)@.len() ==> (#[trigger] old(counts)@[i]).1 < bound@,
    ensures
        tally_view(final(counts)@) == add_count(tally_view(old(counts)@), h@),
        forall|i: int| 0 <= i < final(counts)@.len() ==> (#[trigger] final(counts)@[i]).1 <= bound@,
{
    let ghost c = tally_view(counts@);
    if h.unicode_len() == 0 {
        return;
    }
    let hc = str_chars(h.as_str());
    let mut i: usize = 0;
    while i < counts.len()
        invariant
            i <= counts@.len(),
            c == tally_view(counts@),
            counts@ == old(counts)@,
            bound@ < u64::MAX,
            forall|j: int| 0 <= j < old(counts)@.len() ==> (#[trigger] old(counts)@[j]).1 < bound@,
            hc@ == h@,
            h@.len() > 0,
            forall|j: int| 0 <= j < i ==> (#[trigger] c[j]).0 != h@,
        decreases counts.len() - i,
    {
        if crate::text::chars_eq(str_chars(counts[i].0.as_str()).as_slice(), hc.as_slice()) {
            proof {
                lemma_find_tally(c, h@, i as int);
            }
            let (name, n) = counts.remove(i);
            counts.insert(i, (name, n + 1));
            assert(tally_view(counts@) =~= c.update(i as int, (c[i as int].0, c[i as int].1 + 1)));
            assert forall|q: int| 0 <= q < counts@.len() implies (#[trigger] counts@[q]).1 <= bound@ by {
                if q != i {
                    assert(counts@[q] == old(counts)@[q]);
                }
            }
            return;
        }
        i = i + 1;
    }
    proof {
        lemma_find_tally(c, h@, i as int);
    }
    counts.push((h, 1));
    assert(tally_view(counts@) =~= c.push((h@, 1)));
    assert forall|q: int| 0 <= q < counts@.len() implies (#[trigger] counts@[q]).1 <= bound@ by {
        if q < old(counts)@.len() {
            assert(counts@[q] == old(counts)@[q]);
        }
    }
}

/// The hash-index key of a group.
fn group_key_exec(r: &String, s: &String, d: i16) -> (k: String)
    ensures
        k@ == group_key(r@, s@, d),
{
    let mut v = str_chars(r.as_str());
    v.push('\u{0}');
    let w = str_chars(s.as_str());
    let ghost b0 = v@;
    let mut i: usize = 0;
    while i < w.len()
        invariant
            i <= w@.len(),
            v@ == b0 + w@.subrange(0, i as int),
        decreases w.len() - i,
    {
        v.push(w[i]);
        i = i + 1;
        assert(v@ =~= b0 + w@.subrange(0, i as int));
    }
    v.push('\u{0}');
    let dd = decimal_chars(d as i64);
    let ghost b1 = v@;
    let mut j: usize = 0;
    while j < dd.len()
        invariant
            j <= dd@.len(),
            v@ == b1 + dd@.subrange(0, j as int),
        decreases dd.len() - j,
    {
        v.push(dd[j]);
        j = j + 1;
        assert(v@ =~= b1 + dd@.subrange(0, j as int));
    }
    assert(w@.subrange(0, w@.len() as int) =~= w@);
    assert(dd@.subrange(0, dd@.len() as int) =~= dd@);
    assert(v@ =~= r@ + seq!['\u{0}'] + s@ + seq!['\u{0}'] + decimal(d as int));
    crate::text::string_from_chars(v.as_slice())
}

/// The hash index points every group's key at a group, and groups are
/// distinct; every headsign count is at most `n`.
spec fn groups_ok(accs: Seq<GroupAcc>, index: Map<Seq<char>, usize>, n: int) -> bool {
    &&& forall|j: int|
        0 <= j < accs.len() ==> #[trigger] index.contains_key(
            group_key(accs[j].route_id@, accs[j].stop_id@, accs[j].direction),
        )
    &&& forall|k: Seq<char>| #[trigger] index.contains_key(k) ==> index[k] < accs.len()
    &&& forall|i: int, j: int|
        0 <= i < j < accs.len() ==> !(acc_view(#[trigger] accs[i]).0 == acc_view(#[trigger] accs[j]).0
            && acc_view(accs[i]).1 == acc_view(accs[j]).1 && acc_view(accs[i]).2 == acc_view(accs[j]).2)
    &&& forall|j: int, c: int|
        0 <= j < accs.len() && 0 <= c < accs[j].counts@.len() ==> (#[trigger] accs[j].counts@[c]).1 <= n
}

/// The position of the group of `(r, s, d)`, found by scanning.
fn scan_groups(accs: &Vec<GroupAcc>, r: &String, s: &String, d: i16) -> (k: usize)
    ensures
        k as int == find_group(accs_view(accs@), r@, s@, d),
{
    let ghost gs = accs_view(accs@);
    let rc = str_chars(r.as_str());
    let sc = str_chars(s.as_str());
    let mut i: usize = 0;
    while i < accs.len()
        invariant
            i <= accs@.len(),
            gs == accs_view(accs@),
            rc@ == r@,
            sc@ == s@,
            forall|j: int| 0 <= j < i ==> !((#[trigger] gs[j]).0 == r@ && gs[j].1 == s@ && gs[j].2 == d),
        decreases accs.len() - i,
    {
        if accs[i].direction == d && crate::text::chars_eq(
            str_chars(accs[i].route_id.as_str()).as_slice(),
            rc.as_slice(),
        ) && crate::text::chars_eq(str_chars(accs[i].stop_id.as_str()).as_slice(), sc.as_slice()) {
            proof {
                lemma_find_group(gs, r@, s@, d, i as int);
            }
            return i;
        }
        i = i + 1;
    }
    proof {
        lemma_find_group(gs, r@, s@, d, i as int);
    }
    i
}

/// Adds one visit to the groups (see `group_step`).
fn add_visit(
    accs: &mut Vec<GroupAcc>,
    index: &mut StringHashMap<usize>,
    r: &String,
    s: &String,
    d: i16,
    q: i16,
    h: String,
    n: Ghost<int>,
)
    requires
        0 <= n@,
        n@ + 1 < u64::MAX,
        groups_ok(old(accs)@, old(index)@, n@),
    ensures
        accs_view(final(accs)@) == group_step(accs_view(old(accs)@), (r@, s@, d, q, h@)),
        groups_ok(final(accs)@, final(index)@, n@ + 1),
{
    let ghost gs = accs_view(accs@);
    let key = group_key_exec(r, s, d);
    let hint = match index.get(key.as_str()) {
        Some(j) => Some(*j),
        None => None,
    };
    let k: usize = match hint {
        Some(j) => {
            let same = accs[j].direction == d && crate::text::chars_eq(
                str_chars(accs[j].route_id.as_str()).as_slice(),
                str_chars(r.as_str()).as_slice(),
            ) && crate::text::chars_eq(
                str_chars(accs[j].stop_id.as_str()).as_slice(),
                str_chars(s.as_str()).as_slice(),
            );
            if same {
                proof {
                    assert forall|i: int| 0 <= i < j implies !((#[trigger] gs[i]).0 == r@ && gs[i].1 == s@
                        && gs[i].2 == d) by {
                        assert(acc_view(accs@[i]) == gs[i]);
                        assert(acc_view(accs@[j as int]) == gs[j as int]);
                    }
                    lemma_find_group(gs, r@, s@, d, j as int);
                }
                j
            } else {
                scan_groups(accs, r, s, d)
            }
        },
        None => {
            proof {
                assert forall|i: int| 0 <= i < gs.len() implies !((#[trigger] gs[i]).0 == r@ && gs[i].1 == s@
                    && gs[i].2 == d) by {
                    if gs[i].0 == r@ && gs[i].1 == s@ && gs[i].2 == d {
                        assert(index@.contains_key(
                            group_key(accs@[i].route_id@, accs@[i].stop_id@, accs@[i].direction),
                        ));
                    }
                }
                lemma_find_group(gs, r@, s@, d, gs.len() as int);
            }
            accs.len()
        },
    };
    if k < accs.len() {
        let ghost before = accs@;
        let mut g = accs.remove(k);
        if q < g.min_sequence {
            g.min_sequence = q;
        }
        count_headsign(&mut g.counts, h, Ghost(n@ + 1));
        accs.insert(k, g);
        assert(accs_view(accs@) =~= group_step(gs, (r@, s@, d, q, h@)));
        assert forall|j: int| 0 <= j < accs@.len() && j != k implies #[trigger] accs@[j] == before[j] by {}
        assert(groups_ok(accs@, index@, n@ + 1)) by {
            assert forall|j: int| 0 <= j < accs@.len() implies #[trigger] index@.contains_key(
                group_key(accs@[j].route_id@, accs@[j].stop_id@, accs@[j].direction),
            ) by {
                if j != k {
                    assert(accs@[j] == before[j]);
                }
            }
            assert forall|i: int, j: int| 0 <= i < j < accs@.len() implies !(acc_view(
                #[trigger] accs@[i],
            ).0 == acc_view(#[trigger] accs@[j]).0 && acc_view(accs@[i]).1 == acc_view(accs@[j]).1
                && acc_view(accs@[i]).2 == acc_view(accs@[j]).2) by {
                if i != k {
                    assert(accs@[i] == before[i]);
                }
                if j != k {
                    assert(accs@[j] == before[j]);
                }
            }
            assert forall|j: int, c: int| 0 <= j < accs@.len() && 0 <= c < accs@[j].counts@.len() implies (
            #[trigger] accs@[j].counts@[c]).1 <= n@ + 1 by {
                if j != k {
                    assert(accs@[j] == before[j]);
                }
            }
        }
    } else {
        proof {
            lemma_find_group_bound(gs, r@, s@, d);
        }
        let ghost before = accs@;
        let mut counts: Vec<(String, u64)> = Vec::new();
        assert(tally_view(counts@) =~= Seq::<(Seq<char>, int)>::empty());
        count_headsign(&mut counts, h, Ghost(n@ + 1));
        let len = accs.len();
        accs.push(
            GroupAcc {
                route_id: r.clone(),
                stop_id: s.clone(),
                direction: d,
                min_sequence: q,
                counts,
            },
        );
        index.insert(key, len);
        assert(accs_view(accs@) =~= group_step(gs, (r@, s@, d, q, h@)));
        assert(groups_ok(accs@, index@, n@ + 1)) by {
            assert forall|j: int| 0 <= j < accs@.len() implies #[trigger] index@.contains_key(
                group_key(accs@[j].route_id@, accs@[j].stop_id@, accs@[j].direction),
            ) by {
                if j < len {
                    assert(accs@[j] == before[j]);
                }
            }
            assert forall|i: int, j: int| 0 <= i < j < accs@.len() implies !(acc_view(
                #[trigger] accs@[i],
            ).0 == acc_view(#[trigger] accs@[j]).0 && acc_view(accs@[i]).1 == acc_view(accs@[j]).1
                && acc_view(accs@[i]).2 == acc_view(accs@[j]).2) by {
                assert(accs@[i] == before[i]);
                if j < len {
                    assert(accs@[j] == before[j]);
                } else {
                    assert(gs[i] == acc_view(before[i]));
                }
            }
            assert forall|j: int, c: int| 0 <= j < accs@.len() && 0 <= c < accs@[j].counts@.len() implies (
            #[trigger] accs@[j].counts@[c]).1 <= n@ + 1 by {
                if j < len {
                    assert(accs@[j] == before[j]);
                }
            }
        }
    }
}

proof fn lemma_total_prefix(trips: Seq<GtfsTrip>, i: int)
    requires
        0 <= i <= trips.len(),
    ensures
        total_stop_times(trips.subrange(0, i)) <= total_stop_times(trips),
        total_stop_times(trips.subrange(0, i)) >= 0,
    decreases trips.len() - i,
{
    if i < trips.len() {
        lemma_total_prefix(trips, i + 1);
        assert(trips.subrange(0, i + 1).drop_last() =~= trips.subrange(0, i));
    } else {
        assert(trips.subrange(0, i) =~= trips);
    }
    lemma_total_nonneg(trips.subrange(0, i));
}

proof fn lemma_total_nonneg(trips: Seq<GtfsTrip>)
    ensures
        total_stop_times(trips) >= 0,
    decreases trips.len(),
{
    if trips.len() > 0 {
        lemma_total_nonneg(trips.drop_last());
    }
}

proof fn lemma_trip_visits_len(t: GtfsTrip, es: Seq<(Seq<char>, Seq<char>)>, k: int)
    requires
        k >= 0,
    ensures
        trip_visits(t, es, k).len() == k,
    decreases k,
{
    if k > 0 {
        lemma_trip_visits_len(t, es, k - 1);
    }
}

/// The headsign shown at a stop (see `raw_headsign`).
fn raw_headsign_exec(st: &GtfsStopTime, t: &GtfsTrip) -> (r: String)
    ensures
        r@ == raw_headsign(*st, *t),
{
    match &st.stop_headsign {
        Some(h) => {
            let c = str_chars(h.as_str());
            if trim_chars(&c).len() > 0 {
                return h.clone();
            }
        },
        None => {},
    }
    match &t.trip_headsign {
        Some(h) => h.clone(),
        None => String::new(),
    }
}

/// The groups of the trips' visits (see `group_visits`).
fn group_trips(trips: &Vec<GtfsTrip>, remap: &StopRemap) -> (r: Vec<GroupAcc>)
    requires
        total_stop_times(trips@) + 1 < u64::MAX,
    ensures
        accs_view(r@) == group_visits(visits(trips@, remap.view_entries())),
{
    let ghost es = remap.view_entries();
    let idx = RemapIndex::new(remap);
    let mut accs: Vec<GroupAcc> = Vec::new();
    let mut index: StringHashMap<usize> = StringHashMap::new();
    let ghost mut n: int = 0;
    let mut i: usize = 0;
    assert(accs_view(accs@) =~= group_visits(visits(trips@.subrange(0, 0), es)));
    while i < trips.len()
        invariant
            i <= trips@.len(),
            es == remap.view_entries(),
            idx.indexes(es),
            total_stop_times(trips@) + 1 < u64::MAX,
            n == total_stop_times(trips@.subrange(0, i as int)),
            accs_view(accs@) == group_visits(visits(trips@.subrange(0, i as int), es)),
            groups_ok(accs@, index@, n),
        decreases trips.len() - i,
    {
        let ghost pre = trips@.subrange(0, i as int);
        let ghost nxt = trips@.subrange(0, i + 1);
        assert(nxt.drop_last() =~= pre);
        proof {
            lemma_total_prefix(trips@, i + 1);
            lemma_total_nonneg(pre);
        }
        let t = &trips[i];
        let d: i16 = match t.direction_id {
            Some(x) => x,
            None => 0,
        };
        let mut k: usize = 0;
        while k < t.stop_times.len()
            invariant
                k <= t.stop_times@.len(),
                t == trips@[i as int],
                es == remap.view_entries(),
                idx.indexes(es),
                d == trip_direction(*t),
                n + t.stop_times@.len() + 1 < u64::MAX,
                n >= 0,
                accs_view(accs@) == group_visits(visits(pre, es) + trip_visits(*t, es, k as int)),
                groups_ok(accs@, index@, n + k),
            decreases t.stop_times.len() - k,
        {
            let st = &t.stop_times[k];
            let stop = idx.canonical(&st.stop_id, Ghost(es));
            let raw = raw_headsign_exec(st, t);
            let h = normalize_headsign(t.route_id.as_str(), raw.as_str());
            let ghost v = visit_of(*t, es, k as int);
            assert(visits(pre, es) + trip_visits(*t, es, k + 1) =~= (visits(pre, es) + trip_visits(
                *t,
                es,
                k as int,
            )).push(v));
            assert((visits(pre, es) + trip_visits(*t, es, k + 1)).drop_last() =~= visits(pre, es)
                + trip_visits(*t, es, k as int));
            add_visit(
                &mut accs,
                &mut index,
                &t.route_id,
                &stop,
                d,
                st.stop_sequence as i16,
                h,
                Ghost(n + k),
            );
            k = k + 1;
        }
        proof {
            n = n + t.stop_times@.len();
        }
        assert(visits(nxt, es) == visits(pre, es) + trip_visits(*t, es, t.stop_times@.len() as int));
        i = i + 1;
    }
    assert(trips@.subrange(0, i as int) =~= trips@);
    accs
}

/// The most shown headsign of a tally with its count; on a tie the one
/// counted first.
pub open spec fn best_of(c: Tally) -> Option<(Seq<char>, int)>
    decreases c.len(),
{
    if c.len() == 0 {
        None
    } else {
        match best_of(c.drop_last()) {
            None => Some(c.last()),
            Some(b) => if c.last().1 > b.1 {
                Some(c.last())
            } else {
                Some(b)
            },
        }
    }
}

/// The headsign of a group: its most shown one, or "Unknown".
pub open spec fn headsign_of(c: Tally) -> Seq<char> {
    match best_of(c) {
        Some(b) => b.0,
        None => seq!['U', 'n', 'k', 'n', 'o', 'w', 'n'],
    }
}

fn best_headsign(counts: &Vec<(String, u64)>) -> (r: String)
    ensures
        r@ == headsign_of(tally_view(counts@)),
{
    let ghost c = tally_view(counts@);
    let mut best: Option<usize> = None;
    let mut i: usize = 0;
    while i < counts.len()
        invariant
            i <= counts@.len(),
            c == tally_view(counts@),
            match best {
                None => best_of(c.subrange(0, i as int)) is None,
                Some(b) => b < i && best_of(c.subrange(0, i as int)) == Some(c[b as int]),
            },
        decreases counts.len() - i,
    {
        let ghost pre = c.subrange(0, i as int);
        let ghost cur = c.subrange(0, i + 1);
        assert(cur.drop_last() =~= pre);
        match best {
            None => {
                best = Some(i);
            },
            Some(b) => {
                if counts[i].1 > counts[b].1 {
                    best = Some(i);
                }
            },
        }
        i = i + 1;
    }
    assert(c.subrange(0, i as int) =~= c);
    match best {
        Some(b) => counts[b].0.clone(),
        None => {
            let u = ['U', 'n', 'k', 'n', 'o', 'w', 'n'];
            assert(u@ =~= seq!['U', 'n', 'k', 'n', 'o', 'w', 'n']);
            crate::text::string_from_chars(&u)
        },
    }
}

/// The stop across the street from a route's stop: the first one listed.
pub open spec fn opposite_of(ops: Seq<(String, String, String)>, r: Seq<char>, s: Seq<char>) -> Option<Seq<char>>
    decreases ops.len(),
{
    if ops.len() == 0 {
        None
    } else if ops[0].0@ == r && ops[0].1@ == s {
        Some(ops[0].2@)
    } else {
        opposite_of(ops.drop_first(), r, s)
    }
}

/// The hash-index key of a route and stop.
pub open spec fn pair_key(r: Seq<char>, s: Seq<char>) -> Seq<char> {
    r + seq!['\u{0}'] + s
}

fn pair_key_exec(r: &String, s: &String) -> (k: String)
    ensures
        k@ == pair_key(r@, s@),
{
    let mut v = str_chars(r.as_str());
    v.push('\u{0}');
    let w = str_chars(s.as_str());
    let ghost b0 = v@;
    let mut i: usize = 0;
    while i < w.len()
        invariant
            i <= w@.len(),
            v@ == b0 + w@.subrange(0, i as int),
        decreases w.len() - i,
    {
        v.push(w[i]);
        i = i + 1;
        assert(v@ =~= b0 + w@.subrange(0, i as int));
    }
    assert(w@.subrange(0, w@.len() as int) =~= w@);
    crate::text::string_from_chars(v.as_slice())
}

proof fn lemma_opposite_at(ops: Seq<(String, String, String)>, r: Seq<char>, s: Seq<char>, k: int)
    requires
        0 <= k <= ops.len(),
        forall|j: int| 0 <= j < k ==> !((#[trigger] ops[j]).0@ == r && ops[j].1@ == s),
    ensures
        opposite_of(ops, r, s) == if k < ops.len() && ops[k].0@ == r && ops[k].1@ == s {
            Some(ops[k].2@)
        } else {
            opposite_of(ops.subrange(k, ops.len() as int), r, s)
        },
    decreases k,
{
    if k > 0 {
        let t = ops.drop_first();
        assert forall|j: int| 0 <= j < k - 1 implies !((#[trigger] t[j]).0@ == r && t[j].1@ == s) by {
            assert(t[j] == ops[j + 1]);
        }
        lemma_opposite_at(t, r, s, k - 1);
        if k < ops.len() {
            assert(t[k - 1] == ops[k]);
        }
        assert(t.subrange(k - 1, t.len() as int) =~= ops.subrange(k, ops.len() as int));
    } else {
        assert(ops.subrange(0, ops.len() as int) =~= ops);
        if ops.len() > 0 {
            assert(ops.subrange(0, ops.len() as int)[0] == ops[0]);
        }
    }
}

/// An index of opposite-stop entries: each key points at the first entry
/// with that key.
struct OppositeIndex {
    map: StringHashMap<usize>,
}

impl OppositeIndex {
    spec fn indexes(&self, ops: Seq<(String, String, String)>) -> bool {
        &&& forall|j: int| 0 <= j < ops.len() ==> #[trigger] self.map@.contains_key(pair_key(ops[j].0@, ops[j].1@))
        &&& forall|k: Seq<char>|
            #[trigger] self.map@.contains_key(k) ==> self.map@[k] < ops.len() && pair_key(
                ops[self.map@[k] as int].0@,
                ops[self.map@[k] as int].1@,
            ) == k && forall|j: int| 0 <= j < self.map@[k] ==> pair_key(#[trigger] ops[j].0@, ops[j].1@) != k
    }

    fn new(ops: &Vec<(String, String, String)>) -> (r: OppositeIndex)
        ensures
            r.indexes(ops@),
    {
        let mut map: StringHashMap<usize> = StringHashMap::new();
        let mut i: usize = 0;
        while i < ops.len()
            invariant
                i <= ops@.len(),
                forall|j: int| 0 <= j < i ==> #[trigger] map@.contains_key(pair_key(ops@[j].0@, ops@[j].1@)),
                forall|k: Seq<char>|
                    #[trigger] map@.contains_key(k) ==> map@[k] < i && pair_key(
                        ops@[map@[k] as int].0@,
                        ops@[map@[k] as int].1@,
                    ) == k && forall|j: int| 0 <= j < map@[k] ==> pair_key(#[trigger] ops@[j].0@, ops@[j].1@) != k,
            decreases ops.len() - i,
        {
            let key = pair_key_exec(&ops[i].0, &ops[i].1);
            if !map.contains_key(key.as_str()) {
                proof {
                    assert forall|j: int| 0 <= j < i implies pair_key(#[trigger] ops@[j].0@, ops@[j].1@) != key@ by {
                        assert(map@.contains_key(pair_key(ops@[j].0@, ops@[j].1@)));
                    }
                }
                map.insert(key, i);
            }
            i = i + 1;
        }
        OppositeIndex { map }
    }

    fn get(&self, ops: &Vec<(String, String, String)>, r: &String, s: &String) -> (o: Option<String>)
        requires
            self.indexes(ops@),
        ensures
            match o {
                Some(x) => opposite_of(ops@, r@, s@) == Some(x@),
                None => opposite_of(ops@, r@, s@) is None,
            },
    {
        let key = pair_key_exec(r, s);
        let rc = str_chars(r.as_str());
        let sc = str_chars(s.as_str());
        let mut i: usize = 0;
        match self.map.get(key.as_str()) {
            Some(j) => {
                let j = *j;
                if crate::text::chars_eq(str_chars(ops[j].0.as_str()).as_slice(), rc.as_slice())
                    && crate::text::chars_eq(str_chars(ops[j].1.as_str()).as_slice(), sc.as_slice()) {
                    proof {
                        lemma_opposite_at(ops@, r@, s@, j as int);
                    }
                    return Some(ops[j].2.clone());
                }
            },
            None => {
                proof {
                    assert forall|j: int| 0 <= j < ops@.len() implies !((#[trigger] ops@[j]).0@ == r@ && ops@[j].1@
                        == s@) by {
                        assert(self.map@.contains_key(pair_key(ops@[j].0@, ops@[j].1@)));
                    }
                    lemma_opposite_at(ops@, r@, s@, ops@.len() as int);
                    assert(ops@.subrange(ops@.len() as int, ops@.len() as int).len() == 0);
                }
                return None;
            },
        }
        while i < ops.len()
            invariant
                i <= ops@.len(),
                rc@ == r@,
                sc@ == s@,
                forall|j: int| 0 <= j < i ==> !((#[trigger] ops@[j]).0@ == r@ && ops@[j].1@ == s@),
            decreases ops.len() - i,
        {
            if crate::text::chars_eq(str_chars(ops[i].0.as_str()).as_slice(), rc.as_slice())
                && crate::text::chars_eq(str_chars(ops[i].1.as_str()).as_slice(), sc.as_slice()) {
                proof {
                    lemma_opposite_at(ops@, r@, s@, i as int);
                }
                return Some(ops[i].2.clone());
            }
            i = i + 1;
        }
        proof {
            lemma_opposite_at(ops@, r@, s@, i as int);
            assert(ops@.subrange(i as int, ops@.len() as int).len() == 0);
        }
        None
    }
}

/// A route stop as values: route, stop, sequence, headsign, direction and
/// the stop across the street.
pub type Row = (Seq<char>, Seq<char>, i16, Seq<char>, i16, Option<Seq<char>>);

/// The row of a group.
pub open spec fn row_of(g: Group, ops: Seq<(String, String, String)>) -> Row {
    (g.0, g.1, g.3, headsign_of(g.4), g.2, opposite_of(ops, g.0, g.1))
}

/// The position of the row whose route and stop upper-case to `ur` and `us`,
/// or the number of rows.
pub open spec fn find_upper(d: Seq<Row>, ur: Seq<char>, us: Seq<char>) -> int
    decreases d.len(),
{
    if d.len() == 0 {
        0
    } else if uppercase_of(d[0].0) == ur && uppercase_of(d[0].1) == us {
        0
    } else {
        1 + find_upper(d.drop_first(), ur, us)
    }
}

/// The rows after one more: one row per route and stop (compared upper-cased),
/// keeping the smaller stop sequence and, on a tie, the row seen first.
pub open spec fn dedup_step(d: Seq<Row>, row: Row) -> Seq<Row> {
    let j = find_upper(d, uppercase_of(row.0), uppercase_of(row.1));
    if j < d.len() {
        if row.2 < d[j].2 {
            d.update(j, row)
        } else {
            d
        }
    } else {
        d.push(row)
    }
}

/// The rows with one per route and stop (see `dedup_step`).
pub open spec fn dedup_rows(rows: Seq<Row>) -> Seq<Row>
    decreases rows.len(),
{
    if rows.len() == 0 {
        Seq::empty()
    } else {
        dedup_step(dedup_rows(rows.drop_last()), rows.last())
    }
}

/// The route stops of NJ Transit buses: the groups of the trips' visits, in
/// the order they first appear, each as a row, one row per route and stop.
pub open spec fn njt_route_stops_spec(
    trips: Seq<GtfsTrip>,
    es: Seq<(Seq<char>, Seq<char>)>,
    ops: Seq<(String, String, String)>,
) -> Seq<Row> {
    let gs = group_visits(visits(trips, es));
    dedup_rows(Seq::new(gs.len(), |i: int| row_of(gs[i], ops)))
}

/// The values of a stored NJ Transit route stop.
pub open spec fn njt_row_view(r: RouteStop) -> Row {
    match r.data {
        RouteStopData::NjtBus { headsign, direction, opposite_stop_id } => (
            r.route_id@,
            r.stop_id@,
            r.stop_sequence,
            headsign@,
            direction,
            crate::ids::opt_string_view(opposite_stop_id),
        ),
        _ => (r.route_id@, r.stop_id@, r.stop_sequence, Seq::empty(), 0, None),
    }
}

proof fn lemma_find_upper(d: Seq<Row>, ur: Seq<char>, us: Seq<char>, k: int)
    requires
        0 <= k <= d.len(),
        forall|j: int| 0 <= j < k ==> !(uppercase_of((#[trigger] d[j]).0) == ur && uppercase_of(d[j].1) == us),
        k == d.len() || (uppercase_of(d[k].0) == ur && uppercase_of(d[k].1) == us),
    ensures
        find_upper(d, ur, us) == k,
    decreases k,
{
    if k > 0 {
        let t = d.drop_first();
        assert forall|j: int| 0 <= j < k - 1 implies !(uppercase_of((#[trigger] t[j]).0) == ur
            && uppercase_of(t[j].1) == us) by {
            assert(t[j] == d[j + 1]);
        }
        if k < d.len() {
            assert(t[k - 1] == d[k]);
        }
        lemma_find_upper(t, ur, us, k - 1);
    }
}

/// The rows kept so far, their upper-cased keys, and an index of those keys.
spec fn dedup_ok(out: Seq<RouteStop>, ups: Seq<(String, String)>, index: Map<Seq<char>, usize>) -> bool {
    &&& ups.len() == out.len()
    &&& forall|j: int|
        0 <= j < out.len() ==> (#[trigger] ups[j]).0@ == uppercase_of(out[j].route_id@) && ups[j].1@
            == uppercase_of(out[j].stop_id@)
    &&& forall|j: int| 0 <= j < out.len() ==> #[trigger] index.contains_key(pair_key(ups[j].0@, ups[j].1@))
    &&& forall|k: Seq<char>| #[trigger] index.contains_key(k) ==> index[k] < out.len()
    &&& forall|i: int, j: int|
        0 <= i < j < out.len() ==> !((#[trigger] ups[i]).0@ == (#[trigger] ups[j]).0@ && ups[i].1@
            == ups[j].1@)
}

pub proof fn lemma_find_upper_bound(d: Seq<Row>, ur: Seq<char>, us: Seq<char>)
    ensures
        0 <= find_upper(d, ur, us) <= d.len(),
        forall|i: int|
            0 <= i < find_upper(d, ur, us) ==> !(uppercase_of((#[trigger] d[i]).0) == ur && uppercase_of(
                d[i].1,
            ) == us),
        find_upper(d, ur, us) < d.len() ==> {
            let k = find_upper(d, ur, us);
            uppercase_of(d[k].0) == ur && uppercase_of(d[k].1) == us
        },
    decreases d.len(),
{
    if d.len() > 0 && !(uppercase_of(d[0].0) == ur && uppercase_of(d[0].1) == us) {
        let t = d.drop_first();
        lemma_find_upper_bound(t, ur, us);
        assert forall|i: int| 0 <= i < find_upper(d, ur, us) implies !(uppercase_of((#[trigger] d[i]).0)
            == ur && uppercase_of(d[i].1) == us) by {
            if i > 0 {
                assert(d[i] == t[i - 1]);
            }
        }
        if find_upper(d, ur, us) < d.len() {
            assert(d[find_upper(d, ur, us)] == t[find_upper(t, ur, us)]);
        }
    }
}

/// The position of the kept row whose route and stop upper-case to `ur` and
/// `us` (see `find_upper`).
fn find_upper_pos(
    out: &Vec<RouteStop>,
    ups: &Vec<(String, String)>,
    index: &StringHashMap<usize>,
    ur: &String,
    us: &String,
) -> (pos: usize)
    requires
        dedup_ok(out@, ups@, index@),
    ensures
        pos == find_upper(Seq::new(out@.len(), |q: int| njt_row_view(out@[q])), ur@, us@),
{
    let ghost d = Seq::new(out@.len(), |q: int| njt_row_view(out@[q]));
    assert forall|j: int| 0 <= j < out@.len() implies (#[trigger] d[j]).0 == out@[j].route_id@ && d[j].1
        == out@[j].stop_id@ by {}
    let key = pair_key_exec(ur, us);
    let urc = str_chars(ur.as_str());
    let usc = str_chars(us.as_str());
    match index.get(key.as_str()) {
        Some(j) => {
            let j = *j;
            if crate::text::chars_eq(str_chars(ups[j].0.as_str()).as_slice(), urc.as_slice())
                && crate::text::chars_eq(str_chars(ups[j].1.as_str()).as_slice(), usc.as_slice()) {
                proof {
                    assert forall|m: int| 0 <= m < j implies !(uppercase_of((#[trigger] d[m]).0) == ur@
                        && uppercase_of(d[m].1) == us@) by {
                        assert(ups@[m].0@ == uppercase_of(out@[m].route_id@));
                    }
                    lemma_find_upper(d, ur@, us@, j as int);
                }
                return j;
            }
        },
        None => {
            proof {
                assert forall|m: int| 0 <= m < d.len() implies !(uppercase_of((#[trigger] d[m]).0) == ur@
                    && uppercase_of(d[m].1) == us@) by {
                    if uppercase_of(d[m].0) == ur@ && uppercase_of(d[m].1) == us@ {
                        assert(index@.contains_key(pair_key(ups@[m].0@, ups@[m].1@)));
                    }
                }
                lemma_find_upper(d, ur@, us@, d.len() as int);
            }
            return out.len();
        },
    }
    let mut q: usize = 0;
    while q < ups.len()
        invariant
            q <= ups@.len(),
            dedup_ok(out@, ups@, index@),
            d == Seq::new(out@.len(), |q: int| njt_row_view(out@[q])),
            forall|j: int| 0 <= j < out@.len() ==> (#[trigger] d[j]).0 == out@[j].route_id@ && d[j].1
                == out@[j].stop_id@,
            urc@ == ur@,
            usc@ == us@,
            forall|m: int| 0 <= m < q ==> !(uppercase_of((#[trigger] d[m]).0) == ur@ && uppercase_of(d[m].1) == us@),
        decreases ups.len() - q,
    {
        if crate::text::chars_eq(str_chars(ups[q].0.as_str()).as_slice(), urc.as_slice())
            && crate::text::chars_eq(str_chars(ups[q].1.as_str()).as_slice(), usc.as_slice()) {
            proof {
                lemma_find_upper(d, ur@, us@, q as int);
            }
            return q;
        }
        q = q + 1;
    }
    proof {
        lemma_find_upper(d, ur@, us@, q as int);
    }
    q
}

/// The NJ Transit route stop of a row.
fn njt_route_stop(route_id: String, stop_id: String, seq: i16, headsign: String, direction: i16, opposite: Option<String>) -> (r: RouteStop)
    ensures
        njt_row_view(r) == (route_id@, stop_id@, seq, headsign@, direction, crate::ids::opt_string_view(opposite)),
        r.route_id@ == route_id@,
        r.stop_id@ == stop_id@,
{
    RouteStop {
        route_id,
        stop_id,
        stop_sequence: seq,
        data: RouteStopData::NjtBus { headsign, direction, opposite_stop_id: opposite },
    }
}

/// The stops each NJ Transit bus route serves, from the GTFS trips (see
/// `njt_route_stops_spec`): stops are folded into their canonical stop by
/// `remap`, and `opposites` lists, per route and stop, the stop across the
/// street.
pub fn build_route_stops(
    trips: &Vec<GtfsTrip>,
    remap: &StopRemap,
    opposites: &Vec<(String, String, String)>,
) -> (r: Vec<RouteStop>)
    requires
        total_stop_times(trips@) + 1 < u64::MAX,
    ensures
        Seq::new(r@.len(), |i: int| njt_row_view(r@[i])) == njt_route_stops_spec(
            trips@,
            remap.view_entries(),
            opposites@,
        ),
{
    let accs = group_trips(trips, remap);
    let ghost gs = accs_view(accs@);
    let ghost rows = Seq::new(gs.len(), |i: int| row_of(gs[i], opposites@));
    let oidx = OppositeIndex::new(opposites);
    let mut out: Vec<RouteStop> = Vec::new();
    let mut ups: Vec<(String, String)> = Vec::new();
    let mut index: StringHashMap<usize> = StringHashMap::new();
    let mut i: usize = 0;
    assert(Seq::new(out@.len(), |q: int| njt_row_view(out@[q])) =~= dedup_rows(rows.subrange(0, 0)));
    while i < accs.len()
        invariant
            i <= accs@.len(),
            gs == accs_view(accs@),
            rows == Seq::new(gs.len(), |q: int| row_of(gs[q], opposites@)),
            oidx.indexes(opposites@),
            Seq::new(out@.len(), |q: int| njt_row_view(out@[q])) == dedup_rows(rows.subrange(0, i as int)),
            dedup_ok(out@, ups@, index@),
        decreases accs.len() - i,
    {
        let ghost d0 = Seq::new(out@.len(), |q: int| njt_row_view(out@[q]));
        let ghost pre = rows.subrange(0, i as int);
        let ghost cur = rows.subrange(0, i + 1);
        assert(cur.drop_last() =~= pre);
        let g = &accs[i];
        let headsign = best_headsign(&g.counts);
        let opposite = oidx.get(opposites, &g.route_id, &g.stop_id);
        let row = njt_route_stop(
            g.route_id.clone(),
            g.stop_id.clone(),
            g.min_sequence,
            headsign,
            g.direction,
            opposite,
        );
        assert(njt_row_view(row) == rows[i as int]);
        let ur = to_uppercase(g.route_id.as_str());
        let us = to_uppercase(g.stop_id.as_str());
        let pos = find_upper_pos(&out, &ups, &index, &ur, &us);
        proof {
            lemma_find_upper_bound(d0, ur@, us@);
        }
        let ghost rv = njt_row_view(row);
        if pos < out.len() {
            if row.stop_sequence < out[pos].stop_sequence {
                let ghost o0 = out@;
                out.set(pos, row);
                assert(Seq::new(out@.len(), |q: int| njt_row_view(out@[q])) =~= d0.update(pos as int, rv));
                assert(dedup_ok(out@, ups@, index@)) by {
                    assert forall|j: int| 0 <= j < out@.len() implies (#[trigger] ups@[j]).0@ == uppercase_of(
                        out@[j].route_id@,
                    ) && ups@[j].1@ == uppercase_of(out@[j].stop_id@) by {
                        if j != pos {
                            assert(out@[j] == o0[j]);
                        } else {
                            assert(d0[j].0 == o0[j].route_id@);
                        }
                    }
                }
            }
        } else {
            let ghost o0 = out@;
            let ghost u0 = ups@;
            let key = pair_key_exec(&ur, &us);
            let len = out.len();
            out.push(row);
            ups.push((ur, us));
            index.insert(key, len);
            assert(Seq::new(out@.len(), |q: int| njt_row_view(out@[q])) =~= d0.push(rv));
            assert(dedup_ok(out@, ups@, index@)) by {
                assert forall|j: int| 0 <= j < out@.len() implies (#[trigger] ups@[j]).0@ == uppercase_of(
                    out@[j].route_id@,
                ) && ups@[j].1@ == uppercase_of(out@[j].stop_id@) by {
                    if j < len {
                        assert(out@[j] == o0[j]);
                        assert(ups@[j] == u0[j]);
                    }
                }
                assert forall|j: int| 0 <= j < out@.len() implies #[trigger] index@.contains_key(
                    pair_key(ups@[j].0@, ups@[j].1@),
                ) by {
                    if j < len {
                        assert(ups@[j] == u0[j]);
                    }
                }
                assert forall|a: int, b: int| 0 <= a < b < out@.len() implies !((#[trigger] ups@[a]).0@
                    == (#[trigger] ups@[b]).0@ && ups@[a].1@ == ups@[b].1@) by {
                    assert(ups@[a] == u0[a]);
                    if b < len {
                        assert(ups@[b] == u0[b]);
                    } else {
                        assert(d0[a].0 == o0[a].route_id@);
                        assert(d0[a].1 == o0[a].stop_id@);
                    }
                }
            }
        }
        i = i + 1;
    }
    assert(rows.subrange(0, i as int) =~= rows);
    out
}

/// `acc` with `x` added at the end unless it is there already.
pub open spec fn add_once(acc: Seq<Seq<char>>, x: Seq<char>) -> Seq<Seq<char>> {
    if acc.contains(x) {
        acc
    } else {
        acc.push(x)
    }
}

/// The stops of a route in each direction, in the order first visited.
pub type DirStops = (Seq<char>, Seq<Seq<char>>, Seq<Seq<char>>);

/// The position of a route's entry, or the number of entries.
pub open spec fn find_route(ds: Seq<DirStops>, r: Seq<char>) -> int
    decreases ds.len(),
{
    if ds.len() == 0 {
        0
    } else if ds[0].0 == r {
        0
    } else {
        1 + find_route(ds.drop_first(), r)
    }
}

/// The direction stops after one more visit: stops of direction 0 and of
/// direction 1 are listed once each; other directions list nothing.
pub open spec fn dir_step(ds: Seq<DirStops>, v: Visit) -> Seq<DirStops> {
    let i = find_route(ds, v.0);
    let e = if i < ds.len() {
        ds[i]
    } else {
        (v.0, Seq::empty(), Seq::empty())
    };
    let e2 = if v.2 == 0 {
        (e.0, add_once(e.1, v.1), e.2)
    } else if v.2 == 1 {
        (e.0, e.1, add_once(e.2, v.1))
    } else {
        e
    };
    if i < ds.len() {
        ds.update(i, e2)
    } else {
        ds.push(e2)
    }
}

/// The stops of each route in each direction, over a list of visits.
pub open spec fn dir_stops(vs: Seq<Visit>) -> Seq<DirStops>
    decreases vs.len(),
{
    if vs.len() == 0 {
        Seq::empty()
    } else {
        dir_step(dir_stops(vs.drop_last()), vs.last())
    }
}

pub open spec fn dir_entry_view(e: (String, Vec<String>, Vec<String>)) -> DirStops {
    (e.0@, crate::subway_realtime::strings_view(e.1@), crate::subway_realtime::strings_view(e.2@))
}

pub open spec fn dir_entries_view(v: Seq<(String, Vec<String>, Vec<String>)>) -> Seq<DirStops> {
    Seq::new(v.len(), |i: int| dir_entry_view(v[i]))
}

proof fn lemma_find_route(ds: Seq<DirStops>, r: Seq<char>, k: int)
    requires
        0 <= k <= ds.len(),
        forall|j: int| 0 <= j < k ==> (#[trigger] ds[j]).0 != r,
        k == ds.len() || ds[k].0 == r,
    ensures
        find_route(ds, r) == k,
    decreases k,
{
    if k > 0 {
        let t = ds.drop_first();
        assert forall|j: int| 0 <= j < k - 1 implies (#[trigger] t[j]).0 != r by {
            assert(t[j] == ds[j + 1]);
        }
        if k < ds.len() {
            assert(t[k - 1] == ds[k]);
        }
        lemma_find_route(t, r, k - 1);
    }
}

/// Adds `x` to a list of stops unless it is there already.
fn add_stop_once(v: &mut Vec<String>, x: &String)
    ensures
        crate::subway_realtime::strings_view(final(v)@) == add_once(
            crate::subway_realtime::strings_view(old(v)@),
            x@,
        ),
{
    let ghost sv = crate::subway_realtime::strings_view(v@);
    let xc = str_chars(x.as_str());
    let mut i: usize = 0;
    while i < v.len()
        invariant
            i <= v@.len(),
            sv == crate::subway_realtime::strings_view(v@),
            xc@ == x@,
            forall|j: int| 0 <= j < i ==> (#[trigger] sv[j]) != x@,
        decreases v.len() - i,
    {
        if crate::text::chars_eq(str_chars(v[i].as_str()).as_slice(), xc.as_slice()) {
            assert(sv[i as int] == x@);
            assert(sv.contains(x@));
            return;
        }
        i = i + 1;
    }
    assert(!sv.contains(x@));
    v.push(x.clone());
    assert(crate::subway_realtime::strings_view(v@) =~= sv.push(x@));
}

/// The stops of each route in each direction (see `dir_stops`): the
/// candidates for the stop across the street.
pub fn route_direction_stops(trips: &Vec<GtfsTrip>, remap: &StopRemap) -> (r: Vec<(String, Vec<String>, Vec<String>)>)
    ensures
        dir_entries_view(r@) == dir_stops(visits(trips@, remap.view_entries())),
{
    let ghost es = remap.view_entries();
    let idx = RemapIndex::new(remap);
    let mut out: Vec<(String, Vec<String>, Vec<String>)> = Vec::new();
    let mut index: StringHashMap<usize> = StringHashMap::new();
    let mut i: usize = 0;
    assert(dir_entries_view(out@) =~= dir_stops(visits(trips@.subrange(0, 0), es)));
    while i < trips.len()
        invariant
            i <= trips@.len(),
            es == remap.view_entries(),
            idx.indexes(es),
            dir_entries_view(out@) == dir_stops(visits(trips@.subrange(0, i as int), es)),
            forall|j: int| 0 <= j < out@.len() ==> #[trigger] index@.contains_key(out@[j].0@),
            forall|k: Seq<char>| #[trigger] index@.contains_key(k) ==> index@[k] < out@.len(),
            forall|a: int, b: int| 0 <= a < b < out@.len() ==> (#[trigger] out@[a]).0@ != (#[trigger] out@[b]).0@,
        decreases trips.len() - i,
    {
        let ghost pre = trips@.subrange(0, i as int);
        let ghost nxt = trips@.subrange(0, i + 1);
        assert(nxt.drop_last() =~= pre);
        let t = &trips[i];
        let d: i16 = match t.direction_id {
            Some(x) => x,
            None => 0,
        };
        let mut k: usize = 0;
        while k < t.stop_times.len()
            invariant
                k <= t.stop_times@.len(),
                t == trips@[i as int],
                es == remap.view_entries(),
                idx.indexes(es),
                d == trip_direction(*t),
                dir_entries_view(out@) == dir_stops(visits(pre, es) + trip_visits(*t, es, k as int)),
                forall|j: int| 0 <= j < out@.len() ==> #[trigger] index@.contains_key(out@[j].0@),
                forall|q: Seq<char>| #[trigger] index@.contains_key(q) ==> index@[q] < out@.len(),
                forall|a: int, b: int| 0 <= a < b < out@.len() ==> (#[trigger] out@[a]).0@ != (#[trigger] out@[b]).0@,
            decreases t.stop_times.len() - k,
        {
            let st = &t.stop_times[k];
            let stop = idx.canonical(&st.stop_id, Ghost(es));
            let ghost v = visit_of(*t, es, k as int);
            assert(visits(pre, es) + trip_visits(*t, es, k + 1) =~= (visits(pre, es) + trip_visits(
                *t,
                es,
                k as int,
            )).push(v));
            assert((visits(pre, es) + trip_visits(*t, es, k + 1)).drop_last() =~= visits(pre, es)
                + trip_visits(*t, es, k as int));
            let ghost ds = dir_entries_view(out@);
            let rc = str_chars(t.route_id.as_str());
            let pos: usize = match index.get(t.route_id.as_str()) {
                Some(j) => {
                    let j = *j;
                    if crate::text::chars_eq(str_chars(out[j].0.as_str()).as_slice(), rc.as_slice()) {
                        proof {
                            assert forall|m: int| 0 <= m < j implies (#[trigger] ds[m]).0 != t.route_id@ by {
                                assert(ds[m].0 == out@[m].0@);
                                assert(ds[j as int].0 == out@[j as int].0@);
                            }
                            lemma_find_route(ds, t.route_id@, j as int);
                        }
                        j
                    } else {
                        let mut q: usize = 0;
                        let mut going = true;
                        while q < out.len() && going
                            invariant
                                q <= out@.len(),
                                ds == dir_entries_view(out@),
                                rc@ == t.route_id@,
                                forall|m: int| 0 <= m < q ==> (#[trigger] ds[m]).0 != t.route_id@,
                                !going ==> q < out@.len() && ds[q as int].0 == t.route_id@,
                            decreases out.len() - q, if going { 1int } else { 0int },
                        {
                            if crate::text::chars_eq(str_chars(out[q].0.as_str()).as_slice(), rc.as_slice()) {
                                going = false;
                            } else {
                                q = q + 1;
                            }
                        }
                        proof {
                            lemma_find_route(ds, t.route_id@, q as int);
                        }
                        q
                    }
                },
                None => {
                    proof {
                        assert forall|m: int| 0 <= m < ds.len() implies (#[trigger] ds[m]).0 != t.route_id@ by {
                            assert(ds[m].0 == out@[m].0@);
                            if ds[m].0 == t.route_id@ {
                                assert(index@.contains_key(out@[m].0@));
                            }
                        }
                        lemma_find_route(ds, t.route_id@, ds.len() as int);
                    }
                    out.len()
                },
            };
            let ghost o0 = out@;
            if pos == out.len() {
                let len = out.len();
                out.push((t.route_id.clone(), Vec::new(), Vec::new()));
                index.insert(t.route_id.clone(), len);
                assert(crate::subway_realtime::strings_view(out@[len as int].1@) =~= Seq::<Seq<char>>::empty());
                assert(crate::subway_realtime::strings_view(out@[len as int].2@) =~= Seq::<Seq<char>>::empty());
                proof {
                    assert forall|a: int, b: int| 0 <= a < b < out@.len() implies (#[trigger] out@[a]).0@
                        != (#[trigger] out@[b]).0@ by {
                        if b == len {
                            assert(out@[a] == o0[a]);
                            assert(ds[a].0 == o0[a].0@);
                        } else {
                            assert(out@[a] == o0[a]);
                            assert(out@[b] == o0[b]);
                        }
                    }
                    assert forall|j: int| 0 <= j < out@.len() implies #[trigger] index@.contains_key(out@[j].0@) by {
                        if j < len {
                            assert(out@[j] == o0[j]);
                        }
                    }
                }
            }
            let ghost o1 = out@;
            let mut e = out.remove(pos);
            if d == 0 {
                add_stop_once(&mut e.1, &stop);
            } else if d == 1 {
                add_stop_once(&mut e.2, &stop);
            }
            out.insert(pos, e);
            assert(dir_entries_view(out@) =~= dir_step(ds, v));
            proof {
                assert forall|a: int, b: int| 0 <= a < b < out@.len() implies (#[trigger] out@[a]).0@
                    != (#[trigger] out@[b]).0@ by {
                    assert(out@[a].0 == o1[a].0);
                    assert(out@[b].0 == o1[b].0);
                }
                assert forall|j: int| 0 <= j < out@.len() implies #[trigger] index@.contains_key(out@[j].0@) by {
                    assert(out@[j].0 == o1[j].0);
                }
            }
            k = k + 1;
        }
        assert(visits(nxt, es) == visits(pre, es) + trip_visits(*t, es, t.stop_times@.len() as int));
        i = i + 1;
    }
    assert(trips@.subrange(0, i as int) =~= trips@);
    out
}

} // verus!
