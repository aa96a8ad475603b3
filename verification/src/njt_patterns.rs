//! NJ Transit operating patterns: the pages of the pattern service and what
//! the static cache keeps of each trip's pattern.
use vstd::prelude::*;

use crate::ids::opt_string_view;
use crate::models::Shape;
use crate::subway_realtime::strings_view;
use crate::text::{chars_eq, str_chars};
use crate::trajectory::{sort_strings, sort_texts};

verus! {

/// The pattern of a trip: its route, direction and shape, if one matched.
#[derive(Debug, Clone, PartialEq, Eq)]
pub struct TripPattern {
    pub route_id: String,
    pub direction: i16,
    pub shape_id: Option<String>,
}

/// One published revision of the trip patterns of a feed, with the stop
/// remap of the same import (keys map to values; earlier entries win).
#[derive(Debug, Clone, PartialEq, Eq)]
pub struct TripPatternRevision {
    pub patterns: Vec<(String, TripPattern)>,
    pub stop_remap: Vec<(String, String)>,
}

/// The shapes of the matched patterns and the pattern of every trip.
pub struct PatternDataset {
    pub shapes: Vec<Shape>,
    pub trips: Vec<(String, TripPattern)>,
}

/// The attributes of a pattern feature; `line` and `id` are `f64` bit
/// patterns.
#[derive(Debug, Clone)]
pub struct PatternAttributes {
    pub objectid: u64,
    pub bus_pattern: Option<String>,
    pub route_dir: Option<String>,
    pub line: Option<u64>,
    pub id: Option<u64>,
}

/// The geometry of a pattern feature: paths of `(x, y)` pairs of `f64` bit
/// patterns.
#[derive(Debug, Clone)]
pub struct PatternGeometry {
    pub paths: Vec<Vec<(u64, u64)>>,
}

/// A feature of the pattern service.
#[derive(Debug, Clone)]
pub struct PatternFeature {
    pub attributes: PatternAttributes,
    pub geometry: Option<PatternGeometry>,
}

/// A page of the pattern service; `error` is the service's error text, if
/// it sent one.
pub struct PatternPage {
    pub features: Vec<PatternFeature>,
    pub exceeded_transfer_limit: bool,
    pub error: Option<String>,
}

/// Why a page of the pattern service was refused.
#[derive(Debug, Clone, PartialEq, Eq)]
pub enum PageError {
    /// The service reported an error.
    Service(String),
    /// The service said more pages follow but sent no feature.
    NoProgress,
    /// Object ids did not strictly increase across the features.
    Unordered,
}

/// The object ids of `fs` strictly increase, starting above `prev`.
pub open spec fn ids_increase(prev: Option<u64>, fs: Seq<PatternFeature>) -> bool {
    &&& forall|i: int, j: int|
        0 <= i < j < fs.len() ==> (#[trigger] fs[i]).attributes.objectid < (#[trigger] fs[j]).attributes.objectid
    &&& forall|i: int|
        0 <= i < fs.len() ==> (prev matches Some(p) ==> p < (#[trigger] fs[i]).attributes.objectid)
}

/// The object id of the last feature, if any.
pub open spec fn last_id(all: Seq<PatternFeature>) -> Option<u64> {
    if all.len() == 0 {
        None
    } else {
        Some(all.last().attributes.objectid)
    }
}

/// Appends a page to the features read so far and says whether more pages
/// follow. A page carrying an error, a page that promises more but is empty,
/// and a page whose object ids do not strictly increase (from the last one
/// kept) are refused and leave the features as they were.
pub fn append_page(all: &mut Vec<PatternFeature>, page: PatternPage) -> (r: Result<bool, PageError>)
    ensures
        match r {
            Ok(more) => {
                &&& page.error is None
                &&& !(page.exceeded_transfer_limit && page.features@.len() == 0)
                &&& ids_increase(last_id(old(all)@), page.features@)
                &&& more == page.exceeded_transfer_limit
                &&& final(all)@ == old(all)@ + page.features@
            },
            Err(e) => {
                &&& final(all)@ == old(all)@
                &&& match e {
                    PageError::Service(msg) => page.error == Some(msg),
                    PageError::NoProgress => page.error is None && page.exceeded_transfer_limit
                        && page.features@.len() == 0,
                    PageError::Unordered => page.error is None && !(page.exceeded_transfer_limit
                        && page.features@.len() == 0) && !ids_increase(last_id(old(all)@), page.features@),
                }
            },
        },
{
    let PatternPage { features, exceeded_transfer_limit, error } = page;
    match error {
        Some(msg) => {
            return Err(PageError::Service(msg));
        },
        None => {},
    }
    if exceeded_transfer_limit && features.len() == 0 {
        return Err(PageError::NoProgress);
    }
    let mut previous: Option<u64> = if all.len() == 0 {
        None
    } else {
        Some(all[all.len() - 1].attributes.objectid)
    };
    let ghost start = last_id(all@);
    let mut i: usize = 0;
    while i < features.len()
        invariant
            i <= features@.len(),
            features@ == page.features@,
            page.error is None,
            exceeded_transfer_limit == page.exceeded_transfer_limit,
            !(exceeded_transfer_limit && features@.len() == 0),
            all@ == old(all)@,
            start == last_id(all@),
            ids_increase(start, features@.subrange(0, i as int)),
            i == 0 ==> previous == start,
            i > 0 ==> previous == Some(features@[i - 1].attributes.objectid),
        decreases features.len() - i,
    {
        let id = features[i].attributes.objectid;
        let ok = match previous {
            Some(p) => id > p,
            None => true,
        };
        if !ok {
            proof {
                let fs = features@;
                if ids_increase(start, fs) {
                    if i > 0 {
                        assert(fs[i - 1].attributes.objectid < fs[i as int].attributes.objectid);
                    } else {
                        assert(start matches Some(p) ==> p < fs[0].attributes.objectid);
                    }
                }
            }
            return Err(PageError::Unordered);
        }
        let ghost pre = features@.subrange(0, i as int);
        let ghost cur = features@.subrange(0, i + 1);
        proof {
            assert forall|a: int, b: int| 0 <= a < b < cur.len() implies (#[trigger] cur[a]).attributes.objectid
                < (#[trigger] cur[b]).attributes.objectid by {
                if b < i {
                    assert(cur[a] == pre[a]);
                    assert(cur[b] == pre[b]);
                } else {
                    assert(cur[b] == features@[i as int]);
                    if a < i - 1 {
                        assert(pre[a].attributes.objectid < pre[i - 1].attributes.objectid);
                    }
                }
            }
            assert forall|a: int| 0 <= a < cur.len() implies (start matches Some(p) ==> p < (
            #[trigger] cur[a]).attributes.objectid) by {
                if a < i {
                    assert(cur[a] == pre[a]);
                } else if i > 0 {
                    assert(pre[0].attributes.objectid <= pre[i - 1].attributes.objectid) by {
                        if i - 1 > 0 {
                            assert(pre[0].attributes.objectid < pre[i - 1].attributes.objectid);
                        }
                    }
                }
            }
        }
        previous = Some(id);
        i = i + 1;
    }
    assert(features@.subrange(0, i as int) =~= features@);
    let mut features = features;
    all.append(&mut features);
    Ok(exceeded_transfer_limit)
}

/// Why an operating pattern was not matched to its GTFS trips (before its
/// geometry is looked at).
#[derive(Debug, Clone, Copy, PartialEq, Eq, Structural)]
pub enum PatternRejection {
    /// No feature has the pattern's id.
    Absent,
    /// More than one feature has it.
    Duplicate,
    /// The feature's `ROUTE_DIR` does not end in `O` or `I`.
    UnknownDirection,
    /// A trip of the pattern has no direction or another one.
    DirectionMismatch,
}

/// The direction a `ROUTE_DIR` ends with: outbound `O` is 0, inbound `I` 1.
pub open spec fn route_dir_direction(route_dir: Option<String>) -> Option<i16> {
    match route_dir {
        Some(s) => if s@.len() > 0 && s@.last() == 'O' {
            Some(0)
        } else if s@.len() > 0 && s@.last() == 'I' {
            Some(1)
        } else {
            None
        },
        None => None,
    }
}

/// The direction of an operating pattern whose features (those with its
/// id) and whose GTFS trips' directions are given, or why it is rejected:
/// there must be exactly one feature, its `ROUTE_DIR` must give a direction,
/// and every trip must have that direction.
pub open spec fn pattern_direction_spec(features: Seq<PatternFeature>, trip_directions: Seq<Option<i16>>) -> Result<
    i16,
    PatternRejection,
> {
    if features.len() == 0 {
        Err(PatternRejection::Absent)
    } else if features.len() > 1 {
        Err(PatternRejection::Duplicate)
    } else {
        match route_dir_direction(features[0].attributes.route_dir) {
            None => Err(PatternRejection::UnknownDirection),
            Some(d) => if forall|i: int| 0 <= i < trip_directions.len() ==> #[trigger] trip_directions[i] == Some(d) {
                Ok(d)
            } else {
                Err(PatternRejection::DirectionMismatch)
            },
        }
    }
}

/// The direction of an operating pattern, or why it is rejected (see
/// `pattern_direction_spec`).
pub fn pattern_direction(features: &Vec<PatternFeature>, trip_directions: &Vec<Option<i16>>) -> (r: Result<
    i16,
    PatternRejection,
>)
    ensures
        r == pattern_direction_spec(features@, trip_directions@),
{
    if features.len() == 0 {
        return Err(PatternRejection::Absent);
    }
    if features.len() > 1 {
        return Err(PatternRejection::Duplicate);
    }
    let d: i16 = match &features[0].attributes.route_dir {
        Some(s) => {
            let c = crate::text::str_chars(s.as_str());
            if c.len() > 0 && c[c.len() - 1] == 'O' {
                0
            } else if c.len() > 0 && c[c.len() - 1] == 'I' {
                1
            } else {
                return Err(PatternRejection::UnknownDirection);
            }
        },
        None => return Err(PatternRejection::UnknownDirection),
    };
    let mut i: usize = 0;
    while i < trip_directions.len()
        invariant
            i <= trip_directions@.len(),
            features@.len() == 1,
            route_dir_direction(features@[0].attributes.route_dir) == Some(d),
            forall|j: int| 0 <= j < i ==> #[trigger] trip_directions@[j] == Some(d),
        decreases trip_directions.len() - i,
    {
        let ok = match trip_directions[i] {
            Some(x) => x == d,
            None => false,
        };
        if !ok {
            assert(trip_directions@[i as int] != Some(d));
            return Err(PatternRejection::DirectionMismatch);
        }
        i = i + 1;
    }
    Ok(d)
}

/// A GTFS trip as pattern matching reads it: its id, its route id and shape
/// id as the feed's ids are normalized, and its direction.
pub struct PatternTrip {
    pub id: String,
    pub route_key: String,
    pub direction_id: Option<i16>,
    pub shape_key: Option<String>,
}

/// The distinct shape ids of the trips, in order of first appearance.
pub open spec fn shape_keys(ts: Seq<PatternTrip>) -> Seq<Seq<char>>
    decreases ts.len(),
{
    if ts.len() == 0 {
        Seq::empty()
    } else {
        let p = shape_keys(ts.drop_last());
        match ts.last().shape_key {
            Some(k) => if p.contains(k@) {
                p
            } else {
                p.push(k@)
            },
            None => p,
        }
    }
}

/// The operating patterns the trips follow: their distinct shape ids, in
/// order.
pub open spec fn pattern_ids(ts: Seq<PatternTrip>) -> Seq<Seq<char>> {
    sort_texts(shape_keys(ts))
}

/// The positions of the features whose normalized pattern id is `k`; a
/// feature with no or an empty id matches nothing.
pub open spec fn feature_positions(keys: Seq<Option<Seq<char>>>, k: Seq<char>) -> Seq<usize>
    decreases keys.len(),
{
    if keys.len() == 0 {
        Seq::empty()
    } else {
        let p = feature_positions(keys.drop_last(), k);
        if k.len() > 0 && keys.last() == Some(k) {
            p.push((keys.len() - 1) as usize)
        } else {
            p
        }
    }
}

/// The positions of the trips whose shape id is `k`.
pub open spec fn trip_positions(ts: Seq<PatternTrip>, k: Seq<char>) -> Seq<usize>
    decreases ts.len(),
{
    if ts.len() == 0 {
        Seq::empty()
    } else {
        let p = trip_positions(ts.drop_last(), k);
        if opt_string_view(ts.last().shape_key) == Some(k) {
            p.push((ts.len() - 1) as usize)
        } else {
            p
        }
    }
}

/// The normalized pattern ids of the features, as plain values.
pub open spec fn keys_view(keys: Seq<Option<String>>) -> Seq<Option<Seq<char>>> {
    Seq::new(keys.len(), |i: int| opt_string_view(keys[i]))
}

/// The decision on pattern `k`: the feature it matched and its direction,
/// or why it is rejected (see `pattern_direction_spec`).
pub open spec fn pattern_decision(
    features: Seq<PatternFeature>,
    keys: Seq<Option<Seq<char>>>,
    ts: Seq<PatternTrip>,
    k: Seq<char>,
) -> Result<(usize, i16), PatternRejection> {
    let fp = feature_positions(keys, k);
    let tp = trip_positions(ts, k);
    match pattern_direction_spec(
        Seq::new(fp.len(), |j: int| features[fp[j] as int]),
        Seq::new(tp.len(), |j: int| ts[tp[j] as int].direction_id),
    ) {
        Ok(d) => Ok((fp[0], d)),
        Err(e) => Err(e),
    }
}

/// An operating pattern with its trips and the decision on it.
pub struct PatternCandidate {
    pub id: String,
    pub decision: Result<(usize, i16), PatternRejection>,
    pub trips: Vec<usize>,
}

fn distinct_shape_keys(trips: &Vec<PatternTrip>) -> (r: Vec<String>)
    ensures
        strings_view(r@) == shape_keys(trips@),
{
    let mut out: Vec<String> = Vec::new();
    let mut i: usize = 0;
    while i < trips.len()
        invariant
            i <= trips@.len(),
            strings_view(out@) == shape_keys(trips@.subrange(0, i as int)),
        decreases trips.len() - i,
    {
        let ghost pre = trips@.subrange(0, i as int);
        let ghost cur = trips@.subrange(0, i + 1);
        assert(cur.drop_last() =~= pre);
        assert(cur.last() == trips@[i as int]);
        match &trips[i].shape_key {
            Some(k) => {
                let kc = str_chars(k.as_str());
                let mut j: usize = 0;
                let mut seen = false;
                while j < out.len() && !seen
                    invariant
                        j <= out@.len(),
                        kc@ == k@,
                        forall|x: int| 0 <= x < j ==> (#[trigger] out@[x])@ != k@,
                        seen ==> j < out@.len() && out@[j as int]@ == k@,
                    decreases out.len() - j, if seen { 0int } else { 1int },
                {
                    let oc = str_chars(out[j].as_str());
                    if chars_eq(oc.as_slice(), kc.as_slice()) {
                        seen = true;
                    } else {
                        j = j + 1;
                    }
                }
                proof {
                    let sv = strings_view(out@);
                    if seen {
                        assert(sv[j as int] == k@);
                        assert(sv.contains(k@));
                    } else {
                        if sv.contains(k@) {
                            let x = choose|x: int| 0 <= x < sv.len() && sv[x] == k@;
                            assert(out@[x]@ == k@);
                        }
                    }
                }
                if !seen {
                    let ghost o0 = out@;
                    out.push(k.clone());
                    assert(strings_view(out@) =~= strings_view(o0).push(k@));
                }
            },
            None => {},
        }
        i = i + 1;
    }
    assert(trips@.subrange(0, i as int) =~= trips@);
    out
}

fn positions_of_feature_key(keys: &Vec<Option<String>>, k: &String) -> (r: Vec<usize>)
    ensures
        r@ == feature_positions(keys_view(keys@), k@),
        forall|j: int| 0 <= j < r@.len() ==> (#[trigger] r@[j]) < keys@.len(),
{
    let ghost kv = keys_view(keys@);
    let kc = str_chars(k.as_str());
    let mut out: Vec<usize> = Vec::new();
    let mut i: usize = 0;
    while i < keys.len()
        invariant
            i <= keys@.len(),
            kv == keys_view(keys@),
            kc@ == k@,
            out@ == feature_positions(kv.subrange(0, i as int), k@),
            forall|j: int| 0 <= j < out@.len() ==> (#[trigger] out@[j]) < i,
        decreases keys.len() - i,
    {
        let ghost pre = kv.subrange(0, i as int);
        let ghost cur = kv.subrange(0, i + 1);
        assert(cur.drop_last() =~= pre);
        assert(cur.last() == kv[i as int]);
        let m = match &keys[i] {
            Some(x) => {
                let xc = str_chars(x.as_str());
                kc.len() > 0 && chars_eq(xc.as_slice(), kc.as_slice())
            },
            None => false,
        };
        if m {
            out.push(i);
        }
        i = i + 1;
    }
    assert(kv.subrange(0, i as int) =~= kv);
    out
}

fn positions_of_shape_key(trips: &Vec<PatternTrip>, k: &String) -> (r: Vec<usize>)
    ensures
        r@ == trip_positions(trips@, k@),
        forall|j: int| 0 <= j < r@.len() ==> (#[trigger] r@[j]) < trips@.len(),
{
    let kc = str_chars(k.as_str());
    let mut out: Vec<usize> = Vec::new();
    let mut i: usize = 0;
    while i < trips.len()
        invariant
            i <= trips@.len(),
            kc@ == k@,
            out@ == trip_positions(trips@.subrange(0, i as int), k@),
            forall|j: int| 0 <= j < out@.len() ==> (#[trigger] out@[j]) < i,
        decreases trips.len() - i,
    {
        let ghost pre = trips@.subrange(0, i as int);
        let ghost cur = trips@.subrange(0, i + 1);
        assert(cur.drop_last() =~= pre);
        assert(cur.last() == trips@[i as int]);
        let m = match &trips[i].shape_key {
            Some(x) => {
                let xc = str_chars(x.as_str());
                chars_eq(xc.as_slice(), kc.as_slice())
            },
            None => false,
        };
        if m {
            out.push(i);
        }
        i = i + 1;
    }
    assert(trips@.subrange(0, i as int) =~= trips@);
    out
}

fn decide(
    features: &Vec<PatternFeature>,
    fp: &Vec<usize>,
    trips: &Vec<PatternTrip>,
    tp: &Vec<usize>,
) -> (r: Result<(usize, i16), PatternRejection>)
    requires
        forall|j: int| 0 <= j < fp@.len() ==> (#[trigger] fp@[j]) < features@.len(),
        forall|j: int| 0 <= j < tp@.len() ==> (#[trigger] tp@[j]) < trips@.len(),
    ensures
        r == (match pattern_direction_spec(
            Seq::new(fp@.len(), |j: int| features@[fp@[j] as int]),
            Seq::new(tp@.len(), |j: int| trips@[tp@[j] as int].direction_id),
        ) {
            Ok(d) => Ok((fp@[0], d)),
            Err(e) => Err(e),
        }),
{
    let ghost fs = Seq::new(fp@.len(), |j: int| features@[fp@[j] as int]);
    let ghost ds = Seq::new(tp@.len(), |j: int| trips@[tp@[j] as int].direction_id);
    if fp.len() == 0 {
        return Err(PatternRejection::Absent);
    }
    if fp.len() > 1 {
        return Err(PatternRejection::Duplicate);
    }
    assert(fs[0] == features@[fp@[0] as int]);
    let d: i16 = match &features[fp[0]].attributes.route_dir {
        Some(s) => {
            let c = str_chars(s.as_str());
            if c.len() > 0 && c[c.len() - 1] == 'O' {
                0
            } else if c.len() > 0 && c[c.len() - 1] == 'I' {
                1
            } else {
                assert(route_dir_direction(fs[0].attributes.route_dir) is None);
                return Err(PatternRejection::UnknownDirection);
            }
        },
        None => {
            assert(route_dir_direction(fs[0].attributes.route_dir) is None);
            return Err(PatternRejection::UnknownDirection);
        },
    };
    assert(route_dir_direction(fs[0].attributes.route_dir) == Some(d));
    let mut i: usize = 0;
    while i < tp.len()
        invariant
            i <= tp@.len(),
            forall|j: int| 0 <= j < tp@.len() ==> (#[trigger] tp@[j]) < trips@.len(),
            ds == Seq::new(tp@.len(), |j: int| trips@[tp@[j] as int].direction_id),
            fs == Seq::new(fp@.len(), |j: int| features@[fp@[j] as int]),
            fs.len() == 1,
            route_dir_direction(fs[0].attributes.route_dir) == Some(d),
            forall|j: int| 0 <= j < i ==> #[trigger] ds[j] == Some(d),
        decreases tp.len() - i,
    {
        let ok = match trips[tp[i]].direction_id {
            Some(x) => x == d,
            None => false,
        };
        if !ok {
            assert(ds[i as int] != Some(d));
            return Err(PatternRejection::DirectionMismatch);
        }
        i = i + 1;
    }
    assert(forall|j: int| 0 <= j < ds.len() ==> #[trigger] ds[j] == Some(d));
    assert(fs.len() == 1);
    assert(pattern_direction_spec(fs, ds) == Ok::<i16, PatternRejection>(d));
    Ok((fp[0], d))
}

/// The operating patterns of the trips in order of id, each with the
/// positions of its trips and the decision on it (see `pattern_decision`);
/// `feature_keys` holds each feature's pattern id as normalized. What is
/// left is the geometry of the patterns that are not rejected.
pub fn pattern_candidates(
    features: &Vec<PatternFeature>,
    feature_keys: &Vec<Option<String>>,
    trips: &Vec<PatternTrip>,
) -> (r: Vec<PatternCandidate>)
    requires
        feature_keys@.len() == features@.len(),
    ensures
        r@.len() == pattern_ids(trips@).len(),
        forall|i: int|
            0 <= i < r@.len() ==> {
                &&& (#[trigger] r@[i]).id@ == pattern_ids(trips@)[i]
                &&& r@[i].trips@ == trip_positions(trips@, pattern_ids(trips@)[i])
                &&& r@[i].decision == pattern_decision(
                    features@,
                    keys_view(feature_keys@),
                    trips@,
                    pattern_ids(trips@)[i],
                )
            },
{
    let ids = sort_strings(distinct_shape_keys(trips));
    let ghost pv = pattern_ids(trips@);
    assert(strings_view(ids@) == pv);
    let mut out: Vec<PatternCandidate> = Vec::new();
    let mut i: usize = 0;
    while i < ids.len()
        invariant
            i <= ids@.len(),
            strings_view(ids@) == pv,
            pv == pattern_ids(trips@),
            feature_keys@.len() == features@.len(),
            out@.len() == i,
            forall|x: int|
                0 <= x < i ==> {
                    &&& (#[trigger] out@[x]).id@ == pv[x]
                    &&& out@[x].trips@ == trip_positions(trips@, pv[x])
                    &&& out@[x].decision == pattern_decision(features@, keys_view(feature_keys@), trips@, pv[x])
                },
        decreases ids.len() - i,
    {
        let k = &ids[i];
        assert(k@ == pv[i as int]);
        let fp = positions_of_feature_key(feature_keys, k);
        let tp = positions_of_shape_key(trips, k);
        let decision = decide(features, &fp, trips, &tp);
        out.push(PatternCandidate { id: k.clone(), decision, trips: tp });
        i = i + 1;
    }
    out
}

/// The pattern of a trip once the patterns in `accepted` (those whose
/// geometry was also accepted) are known: its route, its direction (0 when
/// it has none) and its shape when its pattern is accepted.
pub open spec fn trip_pattern_matches(p: TripPattern, t: PatternTrip, accepted: Seq<Seq<char>>) -> bool {
    &&& p.route_id@ == t.route_key@
    &&& p.direction == match t.direction_id {
        Some(d) => d,
        None => 0i16,
    }
    &&& opt_string_view(p.shape_id) == match t.shape_key {
        Some(k) => if accepted.contains(k@) {
            Some(k@)
        } else {
            None
        },
        None => None,
    }
}

/// The pattern of every trip, by trip id, in order (see
/// `trip_pattern_matches`).
pub fn trip_patterns(trips: &Vec<PatternTrip>, accepted: &Vec<String>) -> (r: Vec<(String, TripPattern)>)
    ensures
        r@.len() == trips@.len(),
        forall|i: int|
            0 <= i < r@.len() ==> (#[trigger] r@[i]).0@ == trips@[i].id@ && trip_pattern_matches(
                r@[i].1,
                trips@[i],
                strings_view(accepted@),
            ),
{
    let ghost av = strings_view(accepted@);
    let mut out: Vec<(String, TripPattern)> = Vec::new();
    let mut i: usize = 0;
    while i < trips.len()
        invariant
            i <= trips@.len(),
            av == strings_view(accepted@),
            out@.len() == i,
            forall|x: int|
                0 <= x < i ==> (#[trigger] out@[x]).0@ == trips@[x].id@ && trip_pattern_matches(
                    out@[x].1,
                    trips@[x],
                    av,
                ),
        decreases trips.len() - i,
    {
        let t = &trips[i];
        let shape_id = match &t.shape_key {
            Some(k) => {
                let kc = str_chars(k.as_str());
                let mut j: usize = 0;
                let mut found = false;
                while j < accepted.len() && !found
                    invariant
                        j <= accepted@.len(),
                        av == strings_view(accepted@),
                        kc@ == k@,
                        forall|x: int| 0 <= x < j ==> (#[trigger] av[x]) != k@,
                        found ==> av.contains(k@),
                    decreases accepted.len() - j, if found { 0int } else { 1int },
                {
                    let ac = str_chars(accepted[j].as_str());
                    if chars_eq(ac.as_slice(), kc.as_slice()) {
                        found = true;
                        assert(av[j as int] == k@);
                    } else {
                        j = j + 1;
                    }
                }
                if found {
                    Some(k.clone())
                } else {
                    proof {
                        if av.contains(k@) {
                            let x = choose|x: int| 0 <= x < av.len() && av[x] == k@;
                        }
                    }
                    None
                }
            },
            None => None,
        };
        let direction: i16 = match t.direction_id {
            Some(d) => d,
            None => 0,
        };
        out.push((t.id.clone(), TripPattern { route_id: t.route_key.clone(), direction, shape_id }));
        i = i + 1;
    }
    out
}

} // verus!
