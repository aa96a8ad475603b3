//! Properties that hold across the library's functions.
use vstd::prelude::*;

use crate::mta_bus_static::{
    entry_lt, find_entry, id_le_prefix as shape_le_prefix, le_prefix, lt_prefix, merge_entries, sort_directions_spec,
    sort_entries, sort_shapes_spec, union_into, DirectionView, RouteStopEntry, ShapeView,
};
use crate::njt_patterns::{ids_increase, last_id, PatternFeature};
use crate::njt_static::{lemma_seq_lt_asym, lemma_seq_lt_irrefl, lemma_seq_lt_total, lemma_seq_lt_trans, seq_lt};
use crate::njt_route_stops::{
    dedup_rows, find_group, find_upper, group_visits, lemma_find_group_bound, lemma_find_upper_bound,
    Row, Visit,
};
use crate::njt_static::{dedupe_upper, group_remap, members_of, remap_entries, rep_index, group_coords, GtfsStop, StopSpec};
use crate::source::{bucket_start, Source};
use crate::trajectory::{bumped_version, platform_key_matches, PlatformMatchKey};
use crate::store_rows::{
    first_rows, kept_index, lemma_first_rows_seen, lemma_kept_index, seen_before, trip_key, RowView,
};
use crate::realtime::{StopTime, Trip};
use crate::route_import::{dedup_ids, id_le_prefix, sort_by_id, BusStopRow};
use crate::text::{collapse_ws, is_ws, join_with, trim_end_spec, trim_spec, trim_start_spec, uppercase_of, ws_tokens};
use crate::ids::{eq_ignore_ascii_case_spec, first_sep, is_token_sep, skip_seps, strip_route_prefix_spec, tail_from};
use crate::color::{channel, color_digits, color_spec, hex_val, leading_hashes};
use crate::mta_bus_static::compass_named;
use crate::models::CompassDirection;

verus! {

/// A five-minute bucket is a multiple of 300 seconds, lies within 300
/// seconds of the time it was taken of (on the side of zero), and bucketing
/// it again changes nothing.
pub proof fn law_bucket(unix: int)
    ensures
        bucket_start(unix) % 300 == 0,
        unix >= 0 ==> 0 <= unix - bucket_start(unix) < 300,
        unix < 0 ==> 0 <= bucket_start(unix) - unix < 300,
        bucket_start(bucket_start(unix)) == bucket_start(unix),
{
    let q = if unix >= 0 {
        unix / 300
    } else {
        -((-unix) / 300)
    };
    assert(bucket_start(unix) == q * 300);
    assert((q * 300) % 300 == 0) by (nonlinear_arith);
    if unix >= 0 {
        assert(0 <= unix - (unix / 300) * 300 < 300) by (nonlinear_arith)
            requires
                unix >= 0,
        ;
        assert(q * 300 >= 0) by (nonlinear_arith)
            requires
                q == unix / 300,
                unix >= 0,
        ;
        assert((q * 300) / 300 == q) by (nonlinear_arith);
    } else {
        let m = -unix;
        assert(0 <= m - (m / 300) * 300 < 300) by (nonlinear_arith)
            requires
                m > 0,
        ;
        assert(q * 300 <= 0) by (nonlinear_arith)
            requires
                q == -(m / 300),
                m > 0,
        ;
        if q * 300 < 0 {
            assert((-(q * 300)) / 300 == -q) by (nonlinear_arith);
        } else {
            assert(q * 300 == 0);
        }
    }
}

/// Pages accepted one after another keep the features' object ids strictly
/// increasing: the features read so far stay in strictly increasing order
/// when a page is appended.
pub proof fn law_pages_stay_ordered(all: Seq<PatternFeature>, page: Seq<PatternFeature>)
    requires
        ids_increase(None, all),
        ids_increase(last_id(all), page),
    ensures
        ids_increase(None, all + page),
{
    let r = all + page;
    assert forall|i: int, j: int| 0 <= i < j < r.len() implies (#[trigger] r[i]).attributes.objectid
        < (#[trigger] r[j]).attributes.objectid by {
        if j < all.len() {
            assert(r[i] == all[i] && r[j] == all[j]);
        } else if i >= all.len() {
            assert(r[i] == page[i - all.len()] && r[j] == page[j - all.len()]);
        } else {
            assert(r[i] == all[i] && r[j] == page[j - all.len()]);
            if i < all.len() - 1 {
                assert(all[i].attributes.objectid < all[all.len() - 1].attributes.objectid);
            }
        }
    }
}

/// Directions come out sorted by id.
pub proof fn law_directions_sorted(a: Seq<DirectionView>)
    ensures
        forall|i: int, j: int|
            0 <= i < j < sort_directions_spec(a).len() ==> (#[trigger] sort_directions_spec(a)[i]).0
                <= (#[trigger] sort_directions_spec(a)[j]).0,
        sort_directions_spec(a).len() == a.len(),
    decreases a.len(),
{
    if a.len() > 0 {
        let s = sort_directions_spec(a.drop_last());
        law_directions_sorted(a.drop_last());
        let x = a.last();
        let p = le_prefix(s, x.0);
        lemma_le_prefix_props(s, x.0);
        let r = s.insert(p, x);
        assert(r == sort_directions_spec(a));
        assert forall|i: int, j: int| 0 <= i < j < r.len() implies (#[trigger] r[i]).0 <= (#[trigger] r[j]).0 by {
            if j < p {
                assert(r[i] == s[i] && r[j] == s[j]);
            } else if j == p {
                assert(r[i] == s[i]);
            } else if i < p {
                assert(r[i] == s[i] && r[j] == s[j - 1]);
            } else if i == p {
                assert(r[j] == s[j - 1]);
            } else {
                assert(r[i] == s[i - 1] && r[j] == s[j - 1]);
            }
        }
    }
}

proof fn lemma_le_prefix_props(s: Seq<DirectionView>, d: i16)
    requires
        forall|i: int, j: int| 0 <= i < j < s.len() ==> (#[trigger] s[i]).0 <= (#[trigger] s[j]).0,
    ensures
        0 <= le_prefix(s, d) <= s.len(),
        forall|i: int| 0 <= i < le_prefix(s, d) ==> (#[trigger] s[i]).0 <= d,
        forall|i: int| le_prefix(s, d) <= i < s.len() ==> (#[trigger] s[i]).0 > d,
    decreases s.len(),
{
    if s.len() > 0 {
        let t = s.drop_first();
        assert forall|i: int, j: int| 0 <= i < j < t.len() implies (#[trigger] t[i]).0 <= (#[trigger] t[j]).0 by {
            assert(t[i] == s[i + 1] && t[j] == s[j + 1]);
        }
        lemma_le_prefix_props(t, d);
        if s[0].0 <= d {
            assert forall|i: int| 0 <= i < le_prefix(s, d) implies (#[trigger] s[i]).0 <= d by {
                if i > 0 {
                    assert(s[i] == t[i - 1]);
                }
            }
            assert forall|i: int| le_prefix(s, d) <= i < s.len() implies (#[trigger] s[i]).0 > d by {
                assert(s[i] == t[i - 1]);
            }
        } else {
            assert forall|i: int| 0 <= i < s.len() implies (#[trigger] s[i]).0 > d by {
                if i > 0 {
                    assert(s[0].0 <= s[i].0);
                }
            }
        }
    }
}

/// Shapes in order of id: no shape's id is below an earlier one's.
pub open spec fn shapes_sorted(s: Seq<ShapeView>) -> bool {
    forall|i: int, j: int| 0 <= i < j < s.len() ==> !seq_lt((#[trigger] s[j]).0, (#[trigger] s[i]).0)
}

proof fn lemma_shape_le_prefix_props(s: Seq<ShapeView>, x: Seq<char>)
    requires
        shapes_sorted(s),
    ensures
        0 <= shape_le_prefix(s, x) <= s.len(),
        forall|i: int| 0 <= i < shape_le_prefix(s, x) ==> !seq_lt(x, (#[trigger] s[i]).0),
        forall|i: int| shape_le_prefix(s, x) <= i < s.len() ==> seq_lt(x, (#[trigger] s[i]).0),
    decreases s.len(),
{
    if s.len() > 0 {
        let t = s.drop_first();
        assert(shapes_sorted(t)) by {
            assert forall|i: int, j: int| 0 <= i < j < t.len() implies !seq_lt((#[trigger] t[j]).0, (#[trigger] t[i]).0) by {
                assert(t[i] == s[i + 1] && t[j] == s[j + 1]);
            }
        }
        lemma_shape_le_prefix_props(t, x);
        if !seq_lt(x, s[0].0) {
            assert forall|i: int| 0 <= i < shape_le_prefix(s, x) implies !seq_lt(x, (#[trigger] s[i]).0) by {
                if i > 0 {
                    assert(s[i] == t[i - 1]);
                }
            }
            assert forall|i: int| shape_le_prefix(s, x) <= i < s.len() implies seq_lt(x, (#[trigger] s[i]).0) by {
                assert(s[i] == t[i - 1]);
            }
        } else {
            assert forall|i: int| 0 <= i < s.len() implies seq_lt(x, (#[trigger] s[i]).0) by {
                if i > 0 {
                    assert(!seq_lt(s[i].0, s[0].0));
                    lemma_seq_lt_total(s[0].0, s[i].0);
                    if seq_lt(s[0].0, s[i].0) {
                        lemma_seq_lt_trans(x, s[0].0, s[i].0);
                    }
                }
            }
        }
    }
}

/// Shapes come out sorted by id, and none is lost or added.
pub proof fn law_shapes_sorted(a: Seq<ShapeView>)
    ensures
        shapes_sorted(sort_shapes_spec(a)),
        sort_shapes_spec(a).len() == a.len(),
    decreases a.len(),
{
    if a.len() > 0 {
        let s = sort_shapes_spec(a.drop_last());
        law_shapes_sorted(a.drop_last());
        let x = a.last();
        lemma_shape_le_prefix_props(s, x.0);
        let p = shape_le_prefix(s, x.0);
        let r = s.insert(p, x);
        assert(r == sort_shapes_spec(a));
        assert forall|i: int, j: int| 0 <= i < j < r.len() implies !seq_lt((#[trigger] r[j]).0, (#[trigger] r[i]).0) by {
            if j < p {
                assert(r[i] == s[i] && r[j] == s[j]);
            } else if j == p {
                assert(r[i] == s[i]);
            } else if i < p {
                assert(r[i] == s[i] && r[j] == s[j - 1]);
            } else if i == p {
                assert(r[j] == s[j - 1]);
                lemma_seq_lt_asym(x.0, s[j - 1].0);
            } else {
                assert(r[i] == s[i - 1] && r[j] == s[j - 1]);
            }
        }
    }
}

/// `a` is not after `b` in route-then-stop order.
pub open spec fn entry_le(a: RouteStopEntry, b: RouteStopEntry) -> bool {
    entry_lt(a, b) || (a.0 == b.0 && a.1 == b.1)
}

proof fn lemma_entry_order(a: RouteStopEntry, b: RouteStopEntry, c: RouteStopEntry)
    ensures
        !entry_lt(a, a),
        entry_lt(a, b) ==> !entry_lt(b, a),
        entry_le(a, b) || entry_lt(b, a),
        entry_le(a, b) && entry_le(b, c) ==> entry_le(a, c),
        entry_lt(a, b) && entry_le(b, c) ==> entry_lt(a, c),
{
    lemma_seq_lt_irrefl(a.0);
    lemma_seq_lt_irrefl(a.1);
    lemma_seq_lt_total(a.0, b.0);
    lemma_seq_lt_total(a.1, b.1);
    if seq_lt(a.0, b.0) {
        lemma_seq_lt_asym(a.0, b.0);
    }
    if a.0 == b.0 && seq_lt(a.1, b.1) {
        lemma_seq_lt_asym(a.1, b.1);
    }
    if seq_lt(a.0, b.0) && seq_lt(b.0, c.0) {
        lemma_seq_lt_trans(a.0, b.0, c.0);
    }
    if a.0 == b.0 && b.0 == c.0 && seq_lt(a.1, b.1) && seq_lt(b.1, c.1) {
        lemma_seq_lt_trans(a.1, b.1, c.1);
    }
}

proof fn lemma_lt_prefix_props(s: Seq<RouteStopEntry>, x: RouteStopEntry)
    requires
        forall|i: int, j: int| 0 <= i < j < s.len() ==> entry_le(#[trigger] s[i], #[trigger] s[j]),
    ensures
        0 <= lt_prefix(s, x) <= s.len(),
        forall|i: int| 0 <= i < lt_prefix(s, x) ==> entry_lt(#[trigger] s[i], x),
        forall|i: int| lt_prefix(s, x) <= i < s.len() ==> entry_le(x, #[trigger] s[i]),
    decreases s.len(),
{
    if s.len() > 0 {
        let t = s.drop_first();
        assert forall|i: int, j: int| 0 <= i < j < t.len() implies entry_le(#[trigger] t[i], #[trigger] t[j]) by {
            assert(t[i] == s[i + 1] && t[j] == s[j + 1]);
        }
        lemma_lt_prefix_props(t, x);
        if entry_lt(s[0], x) {
            assert forall|i: int| 0 <= i < lt_prefix(s, x) implies entry_lt(#[trigger] s[i], x) by {
                if i > 0 {
                    assert(s[i] == t[i - 1]);
                }
            }
            assert forall|i: int| lt_prefix(s, x) <= i < s.len() implies entry_le(x, #[trigger] s[i]) by {
                assert(s[i] == t[i - 1]);
            }
        } else {
            lemma_entry_order(x, s[0], s[0]);
            assert forall|i: int| 0 <= i < s.len() implies entry_le(x, #[trigger] s[i]) by {
                if i > 0 {
                    lemma_entry_order(x, s[0], s[i]);
                }
            }
        }
    }
}

/// Route stops come out in route-then-stop order.
pub proof fn law_route_stops_sorted(a: Seq<RouteStopEntry>)
    ensures
        sort_entries(a).len() == a.len(),
        forall|i: int, j: int|
            0 <= i < j < sort_entries(a).len() ==> entry_le(
                #[trigger] sort_entries(a)[i],
                #[trigger] sort_entries(a)[j],
            ),
    decreases a.len(),
{
    if a.len() > 0 {
        let s = sort_entries(a.drop_last());
        law_route_stops_sorted(a.drop_last());
        let x = a.last();
        let p = lt_prefix(s, x);
        lemma_lt_prefix_props(s, x);
        let r = s.insert(p, x);
        assert(r == sort_entries(a));
        assert forall|i: int, j: int| 0 <= i < j < r.len() implies entry_le(#[trigger] r[i], #[trigger] r[j]) by {
            if j < p {
                assert(r[i] == s[i] && r[j] == s[j]);
            } else if j == p {
                assert(r[i] == s[i]);
            } else if i < p {
                assert(r[i] == s[i] && r[j] == s[j - 1]);
                lemma_entry_order(s[i], x, s[j - 1]);
            } else if i == p {
                assert(r[j] == s[j - 1]);
            } else {
                assert(r[i] == s[i - 1] && r[j] == s[j - 1]);
            }
        }
    }
}

proof fn lemma_push_contains(s: Seq<Seq<char>>, x: Seq<char>, y: Seq<char>)
    ensures
        s.push(x).contains(y) <==> (s.contains(y) || x == y),
{
    if s.contains(y) {
        let k = choose|k: int| 0 <= k < s.len() && s[k] == y;
        assert(s.push(x)[k] == y);
    }
    if x == y {
        assert(s.push(x)[s.len() as int] == y);
    }
    if s.push(x).contains(y) {
        let k = choose|k: int| 0 <= k < s.len() + 1 && s.push(x)[k] == y;
        if k < s.len() {
            assert(s[k] == y);
        }
    }
}

proof fn lemma_union_into(acc: Seq<Seq<char>>, xs: Seq<Seq<char>>)
    ensures
        forall|y: Seq<char>| #[trigger] union_into(acc, xs).contains(y) <==> (acc.contains(y) || xs.contains(y)),
    decreases xs.len(),
{
    if xs.len() > 0 {
        let d = xs.drop_last();
        let x = xs.last();
        lemma_union_into(acc, d);
        assert(xs == d.push(x));
        let a = union_into(acc, d);
        assert forall|y: Seq<char>| #[trigger] union_into(acc, xs).contains(y) <==> (acc.contains(y)
            || xs.contains(y)) by {
            lemma_push_contains(d, x, y);
            lemma_push_contains(a, x, y);
            assert(a.contains(y) <==> (acc.contains(y) || d.contains(y)));
        }
    }
}

proof fn lemma_find_entry_bound(acc: Seq<RouteStopEntry>, r: Seq<char>, s: Seq<char>)
    ensures
        0 <= find_entry(acc, r, s) <= acc.len(),
        forall|i: int| 0 <= i < find_entry(acc, r, s) ==> !((#[trigger] acc[i]).0 == r && acc[i].1 == s),
        find_entry(acc, r, s) < acc.len() ==> acc[find_entry(acc, r, s)].0 == r && acc[find_entry(
            acc,
            r,
            s,
        )].1 == s,
    decreases acc.len(),
{
    if acc.len() > 0 && !(acc[0].0 == r && acc[0].1 == s) {
        let t = acc.drop_first();
        lemma_find_entry_bound(t, r, s);
        assert forall|i: int| 0 <= i < find_entry(acc, r, s) implies !((#[trigger] acc[i]).0 == r && acc[i].1
            == s) by {
            if i > 0 {
                assert(acc[i] == t[i - 1]);
            }
        }
        if find_entry(acc, r, s) < acc.len() {
            assert(acc[find_entry(acc, r, s)] == t[find_entry(t, r, s)]);
        }
    }
}

/// The result of one merge step, spelled out.
proof fn lemma_merge_step(es: Seq<RouteStopEntry>)
    requires
        es.len() > 0,
    ensures
        ({
            let acc = merge_entries(es.drop_last());
            let e = es.last();
            let f = find_entry(acc, e.0, e.1);
            &&& 0 <= f <= acc.len()
            &&& forall|i: int| 0 <= i < f ==> !((#[trigger] acc[i]).0 == e.0 && acc[i].1 == e.1)
            &&& f < acc.len() ==> acc[f].0 == e.0 && acc[f].1 == e.1 && merge_entries(es) == acc.update(
                f,
                (acc[f].0, acc[f].1, union_into(acc[f].2, e.2)),
            )
            &&& f == acc.len() ==> merge_entries(es) == acc.push((e.0, e.1, union_into(Seq::empty(), e.2)))
        }),
{
    let acc = merge_entries(es.drop_last());
    let e = es.last();
    lemma_find_entry_bound(acc, e.0, e.1);
}

/// Merging keeps one route stop per route and stop.
pub proof fn law_merged_keys_distinct(es: Seq<RouteStopEntry>)
    ensures
        forall|i: int, j: int|
            0 <= i < j < merge_entries(es).len() ==> !((#[trigger] merge_entries(es)[i]).0 == (
            #[trigger] merge_entries(es)[j]).0 && merge_entries(es)[i].1 == merge_entries(es)[j].1),
    decreases es.len(),
{
    if es.len() > 0 {
        law_merged_keys_distinct(es.drop_last());
        lemma_merge_step(es);
        let acc = merge_entries(es.drop_last());
        let m = merge_entries(es);
        let e = es.last();
        let f = find_entry(acc, e.0, e.1);
        assert forall|i: int, j: int| 0 <= i < j < m.len() implies !((#[trigger] m[i]).0 == (
        #[trigger] m[j]).0 && m[i].1 == m[j].1) by {
            if f < acc.len() {
                assert(m[i].0 == acc[i].0 && m[i].1 == acc[i].1);
                assert(m[j].0 == acc[j].0 && m[j].1 == acc[j].1);
            } else {
                assert(m[i] == acc[i]);
                if j < acc.len() {
                    assert(m[j] == acc[j]);
                }
            }
        }
    }
}

/// Every shape that a mention of a route at a stop lists is kept by the
/// merged route stop.
pub proof fn law_merged_shapes_complete(es: Seq<RouteStopEntry>)
    ensures
        forall|k: int, y: Seq<char>|
            0 <= k < es.len() && #[trigger] es[k].2.contains(y) ==> exists|i: int|
                0 <= i < merge_entries(es).len() && merge_entries(es)[i].0 == es[k].0
                    && merge_entries(es)[i].1 == es[k].1 && #[trigger] merge_entries(es)[i].2.contains(y),
    decreases es.len(),
{
    if es.len() > 0 {
        let p = es.drop_last();
        law_merged_shapes_complete(p);
        lemma_merge_step(es);
        let acc = merge_entries(p);
        let m = merge_entries(es);
        let e = es.last();
        let f = find_entry(acc, e.0, e.1);
        if f < acc.len() {
            lemma_union_into(acc[f].2, e.2);
        } else {
            lemma_union_into(Seq::empty(), e.2);
        }
        assert forall|k: int, y: Seq<char>| 0 <= k < es.len() && #[trigger] es[k].2.contains(y) implies exists|
            i: int,
        | 0 <= i < m.len() && m[i].0 == es[k].0 && m[i].1 == es[k].1 && #[trigger] m[i].2.contains(y) by {
            if k < p.len() {
                assert(p[k] == es[k]);
                let i = choose|i: int|
                    0 <= i < acc.len() && acc[i].0 == p[k].0 && acc[i].1 == p[k].1 && #[trigger] acc[i].2.contains(y);
                if f < acc.len() && i == f {
                    assert(m[i].2 == union_into(acc[f].2, e.2));
                } else {
                    assert(m[i] == acc[i]);
                }
                assert(m[i].2.contains(y));
            } else if f < acc.len() {
                assert(m[f].2.contains(y));
            } else {
                assert(m[acc.len() as int].2 == union_into(Seq::empty(), e.2));
                assert(m[acc.len() as int].2.contains(y));
            }
        }
    }
}

/// A merged route stop keeps no shape that no mention of it lists.
pub proof fn law_merged_shapes_sound(es: Seq<RouteStopEntry>)
    ensures
        forall|i: int, y: Seq<char>|
            0 <= i < merge_entries(es).len() && #[trigger] merge_entries(es)[i].2.contains(y) ==> exists|
                k: int,
            |
                0 <= k < es.len() && es[k].0 == merge_entries(es)[i].0 && es[k].1 == merge_entries(es)[i].1
                    && #[trigger] es[k].2.contains(y),
    decreases es.len(),
{
    if es.len() > 0 {
        let p = es.drop_last();
        law_merged_shapes_sound(p);
        lemma_merge_step(es);
        let acc = merge_entries(p);
        let m = merge_entries(es);
        let e = es.last();
        let f = find_entry(acc, e.0, e.1);
        if f < acc.len() {
            lemma_union_into(acc[f].2, e.2);
        } else {
            lemma_union_into(Seq::empty(), e.2);
        }
        assert(es[es.len() - 1] == e);
        assert forall|i: int, y: Seq<char>| 0 <= i < m.len() && #[trigger] m[i].2.contains(y) implies exists|
            k: int,
        | 0 <= k < es.len() && es[k].0 == m[i].0 && es[k].1 == m[i].1 && #[trigger] es[k].2.contains(y) by {
            if f < acc.len() && i == f {
                if !acc[f].2.contains(y) {
                    assert(e.2.contains(y));
                } else {
                    let k = choose|k: int|
                        0 <= k < p.len() && p[k].0 == acc[i].0 && p[k].1 == acc[i].1 && #[trigger] p[k].2.contains(y);
                    assert(es[k] == p[k]);
                }
            } else if f == acc.len() && i == acc.len() {
                assert(m[i].2 == union_into(Seq::empty(), e.2));
                assert(!Seq::<Seq<char>>::empty().contains(y));
                assert(e.2.contains(y));
            } else {
                assert(m[i] == acc[i]);
                let k = choose|k: int|
                    0 <= k < p.len() && p[k].0 == acc[i].0 && p[k].1 == acc[i].1 && #[trigger] p[k].2.contains(y);
                assert(es[k] == p[k]);
            }
        }
    }
}

/// Two rows name the same route and stop, compared upper-cased.
pub open spec fn same_upper(a: Row, b: Row) -> bool {
    uppercase_of(a.0) == uppercase_of(b.0) && uppercase_of(a.1) == uppercase_of(b.1)
}

proof fn lemma_dedup_step(rows: Seq<Row>)
    requires
        rows.len() > 0,
    ensures
        ({
            let d = dedup_rows(rows.drop_last());
            let r = rows.last();
            let j = find_upper(d, uppercase_of(r.0), uppercase_of(r.1));
            &&& 0 <= j <= d.len()
            &&& forall|i: int| 0 <= i < j ==> !same_upper(#[trigger] d[i], r)
            &&& j < d.len() ==> same_upper(d[j], r) && dedup_rows(rows) == if r.2 < d[j].2 {
                d.update(j, r)
            } else {
                d
            }
            &&& j == d.len() ==> dedup_rows(rows) == d.push(r)
        }),
{
    let d = dedup_rows(rows.drop_last());
    let r = rows.last();
    lemma_find_upper_bound(d, uppercase_of(r.0), uppercase_of(r.1));
}

/// The store takes one row per route and stop: after deduplication no two
/// rows name the same route and stop (compared upper-cased).
pub proof fn law_dedup_distinct(rows: Seq<Row>)
    ensures
        forall|i: int, j: int|
            0 <= i < j < dedup_rows(rows).len() ==> !same_upper(
                #[trigger] dedup_rows(rows)[i],
                #[trigger] dedup_rows(rows)[j],
            ),
    decreases rows.len(),
{
    if rows.len() > 0 {
        let p = rows.drop_last();
        law_dedup_distinct(p);
        lemma_dedup_step(rows);
        let d = dedup_rows(p);
        let r = rows.last();
        let j = find_upper(d, uppercase_of(r.0), uppercase_of(r.1));
        let m = dedup_rows(rows);
        assert forall|a: int, b: int| 0 <= a < b < m.len() implies !same_upper(#[trigger] m[a], #[trigger] m[b]) by {
            if j < d.len() {
                if r.2 < d[j].2 {
                    if a == j {
                        assert(m[b] == d[b]);
                        assert(!same_upper(d[j], d[b]));
                    } else if b == j {
                        assert(m[a] == d[a]);
                        assert(!same_upper(d[a], d[j]));
                    } else {
                        assert(m[a] == d[a] && m[b] == d[b]);
                    }
                }
            } else {
                assert(m[a] == d[a]);
                if b < d.len() {
                    assert(m[b] == d[b]);
                }
            }
        }
    }
}

/// Deduplication keeps, for every row, a row of the same route and stop
/// whose stop sequence is not greater.
pub proof fn law_dedup_keeps_smallest(rows: Seq<Row>)
    ensures
        forall|k: int|
            0 <= k < rows.len() ==> exists|i: int|
                0 <= i < dedup_rows(rows).len() && same_upper(#[trigger] dedup_rows(rows)[i], #[trigger] rows[k])
                    && dedup_rows(rows)[i].2 <= rows[k].2,
    decreases rows.len(),
{
    if rows.len() > 0 {
        let p = rows.drop_last();
        law_dedup_keeps_smallest(p);
        lemma_dedup_step(rows);
        let d = dedup_rows(p);
        let r = rows.last();
        let j = find_upper(d, uppercase_of(r.0), uppercase_of(r.1));
        let m = dedup_rows(rows);
        assert(rows[rows.len() - 1] == r);
        assert forall|k: int| 0 <= k < rows.len() implies exists|i: int|
            0 <= i < m.len() && same_upper(#[trigger] m[i], #[trigger] rows[k]) && m[i].2 <= rows[k].2 by {
            if k < p.len() {
                assert(p[k] == rows[k]);
                let i = choose|i: int| 0 <= i < d.len() && same_upper(#[trigger] d[i], #[trigger] p[k]) && d[i].2 <= p[k].2;
                if j < d.len() && r.2 < d[j].2 && i == j {
                    assert(m[j] == r);
                } else {
                    assert(m[i] == d[i]);
                }
            } else if j < d.len() {
                if r.2 < d[j].2 {
                    assert(m[j] == r);
                } else {
                    assert(m[j] == d[j]);
                }
            } else {
                assert(m[d.len() as int] == r);
            }
        }
    }
}

/// Deduplication keeps only rows it was given.
pub proof fn law_dedup_keeps_given(rows: Seq<Row>)
    ensures
        forall|i: int|
            0 <= i < dedup_rows(rows).len() ==> exists|k: int| 0 <= k < rows.len() && #[trigger] rows[k] == #[trigger] dedup_rows(rows)[i],
    decreases rows.len(),
{
    if rows.len() > 0 {
        let p = rows.drop_last();
        law_dedup_keeps_given(p);
        lemma_dedup_step(rows);
        let d = dedup_rows(p);
        let r = rows.last();
        let j = find_upper(d, uppercase_of(r.0), uppercase_of(r.1));
        let m = dedup_rows(rows);
        assert(rows[rows.len() - 1] == r);
        assert forall|i: int| 0 <= i < m.len() implies exists|k: int| 0 <= k < rows.len() && #[trigger] rows[k] == #[trigger] m[i] by {
            if j < d.len() && r.2 < d[j].2 && i == j {
                assert(m[i] == r);
            } else if j == d.len() && i == d.len() {
                assert(m[i] == r);
            } else {
                assert(m[i] == d[i]);
                let k = choose|k: int| 0 <= k < p.len() && #[trigger] p[k] == d[i];
                assert(rows[k] == p[k]);
            }
        }
    }
}

proof fn lemma_group_step(vs: Seq<Visit>)
    requires
        vs.len() > 0,
    ensures
        ({
            let gs = group_visits(vs.drop_last());
            let v = vs.last();
            let f = find_group(gs, v.0, v.1, v.2);
            &&& 0 <= f <= gs.len()
            &&& forall|i: int| 0 <= i < f ==> !((#[trigger] gs[i]).0 == v.0 && gs[i].1 == v.1 && gs[i].2 == v.2)
            &&& f < gs.len() ==> gs[f].0 == v.0 && gs[f].1 == v.1 && gs[f].2 == v.2
            &&& group_visits(vs) == crate::njt_route_stops::group_step(gs, v)
        }),
{
    let gs = group_visits(vs.drop_last());
    let v = vs.last();
    lemma_find_group_bound(gs, v.0, v.1, v.2);
}

/// Each route, stop and direction has one group, and its stop sequence is
/// the smallest of its visits': no visit of it has a smaller one, and every
/// visit has its group.
pub proof fn law_groups_take_smallest_sequence(vs: Seq<Visit>)
    ensures
        forall|i: int, j: int|
            0 <= i < j < group_visits(vs).len() ==> !(#[trigger] group_visits(vs)[i].0 == #[trigger] group_visits(vs)[j].0
                && group_visits(vs)[i].1 == group_visits(vs)[j].1 && group_visits(vs)[i].2 == group_visits(vs)[j].2),
        forall|k: int|
            0 <= k < vs.len() ==> exists|i: int|
                0 <= i < group_visits(vs).len() && #[trigger] group_visits(vs)[i].0 == #[trigger] vs[k].0
                    && group_visits(vs)[i].1 == vs[k].1 && group_visits(vs)[i].2 == vs[k].2,
        forall|i: int, k: int|
            0 <= i < group_visits(vs).len() && 0 <= k < vs.len() && #[trigger] group_visits(vs)[i].0 == #[trigger] vs[k].0
                && group_visits(vs)[i].1 == vs[k].1 && group_visits(vs)[i].2 == vs[k].2 ==> group_visits(vs)[i].3 <= vs[k].3,
    decreases vs.len(),
{
    if vs.len() > 0 {
        let p = vs.drop_last();
        law_groups_take_smallest_sequence(p);
        lemma_group_step(vs);
        let gs = group_visits(p);
        let v = vs.last();
        let f = find_group(gs, v.0, v.1, v.2);
        let m = group_visits(vs);
        assert(vs[vs.len() - 1] == v);
        assert forall|i: int, j: int| 0 <= i < j < m.len() implies !(#[trigger] m[i].0 == #[trigger] m[j].0
            && m[i].1 == m[j].1 && m[i].2 == m[j].2) by {
            if j >= gs.len() {
                assert(m[i].0 == gs[i].0 && m[i].1 == gs[i].1 && m[i].2 == gs[i].2);
            }
        }
        assert forall|k: int| 0 <= k < vs.len() implies exists|i: int|
            0 <= i < m.len() && #[trigger] m[i].0 == #[trigger] vs[k].0 && m[i].1 == vs[k].1 && m[i].2 == vs[k].2 by {
            if k < p.len() {
                assert(p[k] == vs[k]);
                let i = choose|i: int| 0 <= i < gs.len() && #[trigger] gs[i].0 == #[trigger] p[k].0 && gs[i].1 == p[k].1 && gs[i].2 == p[k].2;
                assert(m[i].0 == gs[i].0 && m[i].1 == gs[i].1 && m[i].2 == gs[i].2);
            } else if f < gs.len() {
                assert(m[f].0 == v.0 && m[f].1 == v.1 && m[f].2 == v.2);
            } else {
                assert(m[gs.len() as int].0 == v.0);
            }
        }
        assert forall|i: int, k: int|
            0 <= i < m.len() && 0 <= k < vs.len() && #[trigger] m[i].0 == #[trigger] vs[k].0 && m[i].1 == vs[k].1
                && m[i].2 == vs[k].2 implies m[i].3 <= vs[k].3 by {
            if i < gs.len() {
                if k < p.len() {
                    assert(p[k] == vs[k]);
                    assert(gs[i].3 <= p[k].3);
                } else {
                    assert(i == f) by {
                        if f < gs.len() && i != f {
                            if i < f {
                            } else {
                                assert(!(gs[f].0 == gs[i].0 && gs[f].1 == gs[i].1 && gs[f].2 == gs[i].2));
                            }
                        }
                    }
                }
            } else {
                if k < p.len() {
                    assert(p[k] == vs[k]);
                    let q = choose|q: int| 0 <= q < gs.len() && #[trigger] gs[q].0 == #[trigger] p[k].0 && gs[q].1 == p[k].1 && gs[q].2 == p[k].2;
                    assert(q < f);
                }
            }
        }
    }
}

/// A word: non-empty, without white space.
pub open spec fn is_word(t: Seq<char>) -> bool {
    t.len() > 0 && forall|i: int| 0 <= i < t.len() ==> !is_ws(#[trigger] t[i])
}

proof fn lemma_tokens_are_words(s: Seq<char>)
    ensures
        forall|i: int| 0 <= i < ws_tokens(s).len() ==> is_word(#[trigger] ws_tokens(s)[i]),
    decreases s.len(),
{
    if s.len() > 0 {
        let t = ws_tokens(s.drop_last());
        lemma_tokens_are_words(s.drop_last());
        let c = s.last();
        let r = ws_tokens(s);
        if is_ws(c) {
            assert(r == t);
        } else if s.len() >= 2 && !is_ws(s[s.len() - 2]) {
            let w = t.last().push(c);
            assert(r == t.update(t.len() - 1, w));
            assert(t.len() > 0) by {
                let sp = s.drop_last();
                assert(sp.last() == s[s.len() - 2]);
                lemma_last_nonws_token(sp);
            }
            assert(is_word(t[t.len() - 1]));
            assert forall|q: int| 0 <= q < w.len() implies !is_ws(#[trigger] w[q]) by {
                if q < w.len() - 1 {
                    assert(w[q] == t.last()[q]);
                }
            }
            assert forall|i: int| 0 <= i < r.len() implies is_word(#[trigger] r[i]) by {
                if i < t.len() - 1 {
                    assert(r[i] == t[i]);
                }
            }
        } else {
            assert(r == t.push(seq![c]));
            assert forall|i: int| 0 <= i < r.len() implies is_word(#[trigger] r[i]) by {
                if i < t.len() {
                    assert(r[i] == t[i]);
                }
            }
        }
    }
}

proof fn lemma_last_nonws_token(s: Seq<char>)
    requires
        s.len() > 0,
        !is_ws(s.last()),
    ensures
        ws_tokens(s).len() > 0,
    decreases s.len(),
{
    let t = ws_tokens(s.drop_last());
    if s.len() >= 2 && !is_ws(s[s.len() - 2]) {
        assert(s.drop_last().last() == s[s.len() - 2]);
        lemma_last_nonws_token(s.drop_last());
    }
}

proof fn lemma_tokens_append_word(a: Seq<char>, x: Seq<char>)
    requires
        a.len() == 0 || is_ws(a.last()),
        is_word(x),
    ensures
        ws_tokens(a + x) == ws_tokens(a).push(x),
    decreases x.len(),
{
    let c = x.last();
    let xp = x.drop_last();
    assert((a + x).drop_last() =~= a + xp);
    assert((a + x).last() == c);
    if xp.len() == 0 {
        assert(a + xp =~= a);
        assert(x =~= seq![c]);
        if a.len() > 0 {
            assert((a + x)[(a + x).len() - 2] == a.last());
        }
    } else {
        assert(is_word(xp)) by {
            assert forall|i: int| 0 <= i < xp.len() implies !is_ws(#[trigger] xp[i]) by {
                assert(xp[i] == x[i]);
            }
        }
        lemma_tokens_append_word(a, xp);
        assert((a + x)[(a + x).len() - 2] == xp.last());
        assert(xp.last() == x[x.len() - 2]);
        let t = ws_tokens(a + xp);
        assert(t == ws_tokens(a).push(xp));
        assert(t.update(t.len() - 1, t.last().push(c)) =~= ws_tokens(a).push(xp.push(c)));
        assert(xp.push(c) =~= x);
    }
}

proof fn lemma_tokens_of_join(t: Seq<Seq<char>>)
    requires
        forall|i: int| 0 <= i < t.len() ==> is_word(#[trigger] t[i]),
    ensures
        ws_tokens(join_with(t, seq![' '])) == t,
    decreases t.len(),
{
    if t.len() == 0 {
        assert(ws_tokens(Seq::<char>::empty()) =~= Seq::<Seq<char>>::empty());
    } else {
        let tp = t.drop_last();
        let x = t.last();
        assert(is_word(t[t.len() - 1]));
        assert forall|i: int| 0 <= i < tp.len() implies is_word(#[trigger] tp[i]) by {
            assert(tp[i] == t[i]);
        }
        lemma_tokens_of_join(tp);
        if tp.len() == 0 {
            assert(join_with(t, seq![' ']) == t[0]);
            lemma_tokens_append_word(Seq::empty(), x);
            assert(Seq::<char>::empty() + x =~= x);
            assert(ws_tokens(Seq::<char>::empty()) =~= Seq::<Seq<char>>::empty());
            assert(Seq::<Seq<char>>::empty().push(x) =~= t);
        } else {
            let a = join_with(tp, seq![' ']) + seq![' '];
            assert(join_with(t, seq![' ']) == a + x);
            assert(a.drop_last() =~= join_with(tp, seq![' ']));
            assert(a.last() == ' ');
            lemma_tokens_append_word(a, x);
            assert(ws_tokens(a) == ws_tokens(join_with(tp, seq![' '])));
            assert(tp.push(x) =~= t);
        }
    }
}

/// Text whose only white space is single spaces between words: every
/// white-space character is a space, it neither starts nor ends with white
/// space, and no two spaces stand side by side.
pub open spec fn well_spaced(r: Seq<char>) -> bool {
    &&& forall|i: int| 0 <= i < r.len() ==> (is_ws(#[trigger] r[i]) ==> r[i] == ' ')
    &&& r.len() > 0 ==> !is_ws(r[0]) && !is_ws(r.last())
    &&& forall|i: int| 0 <= i < r.len() - 1 ==> !(#[trigger] r[i] == ' ' && r[i + 1] == ' ')
}

proof fn lemma_join_well_spaced(t: Seq<Seq<char>>)
    requires
        forall|i: int| 0 <= i < t.len() ==> is_word(#[trigger] t[i]),
    ensures
        well_spaced(join_with(t, seq![' '])),
        t.len() > 0 ==> join_with(t, seq![' ']).len() > 0,
    decreases t.len(),
{
    if t.len() == 1 {
        assert(is_word(t[0]));
    } else if t.len() > 1 {
        let tp = t.drop_last();
        let x = t.last();
        assert(is_word(t[t.len() - 1]));
        assert forall|i: int| 0 <= i < tp.len() implies is_word(#[trigger] tp[i]) by {
            assert(tp[i] == t[i]);
        }
        lemma_join_well_spaced(tp);
        let a = join_with(tp, seq![' ']);
        let r = join_with(t, seq![' ']);
        assert(r == a + seq![' '] + x);
        let n = a.len() as int;
        assert forall|i: int| 0 <= i < r.len() implies (is_ws(#[trigger] r[i]) ==> r[i] == ' ') by {
            if i < n {
                assert(r[i] == a[i]);
            } else if i > n {
                assert(r[i] == x[i - n - 1]);
            }
        }
        assert(r[0] == a[0]);
        assert(r.last() == x.last());
        assert(x.last() == x[x.len() - 1]);
        assert forall|i: int| 0 <= i < r.len() - 1 implies !(#[trigger] r[i] == ' ' && r[i + 1] == ' ') by {
            if i < n - 1 {
                assert(r[i] == a[i] && r[i + 1] == a[i + 1]);
            } else if i == n - 1 {
                assert(r[i] == a.last());
            } else if i == n {
                assert(r[i + 1] == x[0]);
            } else {
                assert(r[i] == x[i - n - 1]);
            }
        }
    }
}

/// Collapsing white space twice is collapsing it once.
pub proof fn law_normalize_whitespace_idempotent(s: Seq<char>)
    ensures
        collapse_ws(collapse_ws(s)) == collapse_ws(s),
{
    lemma_tokens_are_words(s);
    lemma_tokens_of_join(ws_tokens(s));
}

/// Collapsing white space keeps the words of the text, in order, and leaves
/// single spaces between them and no white space at either end.
pub proof fn law_normalize_whitespace_spacing(s: Seq<char>)
    ensures
        ws_tokens(collapse_ws(s)) == ws_tokens(s),
        well_spaced(collapse_ws(s)),
{
    lemma_tokens_are_words(s);
    lemma_tokens_of_join(ws_tokens(s));
    lemma_join_well_spaced(ws_tokens(s));
}

proof fn lemma_group_remap_not_identity(ms: Seq<GtfsStop>, rep: Seq<char>)
    ensures
        forall|i: int| 0 <= i < group_remap(ms, rep).len() ==> (#[trigger] group_remap(ms, rep)[i]).0 != group_remap(ms, rep)[i].1,
    decreases ms.len(),
{
    if ms.len() > 0 {
        lemma_group_remap_not_identity(ms.drop_last(), rep);
        let p = group_remap(ms.drop_last(), rep);
        let r = group_remap(ms, rep);
        assert forall|i: int| 0 <= i < r.len() implies (#[trigger] r[i]).0 != r[i].1 by {
            if i < p.len() {
                assert(r[i] == p[i]);
            }
        }
    }
}

/// The stop remap folds stops into other stops: no entry maps a stop to
/// itself (a group's representative is left out).
pub proof fn law_remap_not_identity(ss: Seq<GtfsStop>, codes: Seq<Seq<char>>)
    ensures
        forall|i: int|
            0 <= i < remap_entries(ss, codes).len() ==> (#[trigger] remap_entries(ss, codes)[i]).0 != remap_entries(
                ss,
                codes,
            )[i].1,
    decreases codes.len(),
{
    if codes.len() > 0 {
        law_remap_not_identity(ss, codes.drop_last());
        let p = remap_entries(ss, codes.drop_last());
        let ms = members_of(ss, codes.last());
        let r = remap_entries(ss, codes);
        if group_coords(ms) is Some {
            let g = group_remap(ms, ms[rep_index(ms)].id@);
            lemma_group_remap_not_identity(ms, ms[rep_index(ms)].id@);
            assert(r == p + g);
            assert forall|i: int| 0 <= i < r.len() implies (#[trigger] r[i]).0 != r[i].1 by {
                if i < p.len() {
                    assert(r[i] == p[i]);
                } else {
                    assert(r[i] == g[i - p.len()]);
                }
            }
        }
    }
}

/// The collapsed stops have distinct ids, even compared upper-cased, and
/// each is one of the stops given.
pub proof fn law_collapsed_ids_distinct(s: Seq<StopSpec>)
    ensures
        forall|i: int, j: int|
            0 <= i < j < dedupe_upper(s).len() ==> uppercase_of((#[trigger] dedupe_upper(s)[i]).id)
                != uppercase_of((#[trigger] dedupe_upper(s)[j]).id),
        forall|i: int| 0 <= i < dedupe_upper(s).len() ==> exists|k: int| 0 <= k < s.len() && #[trigger] s[k] == #[trigger] dedupe_upper(s)[i],
    decreases s.len(),
{
    if s.len() > 0 {
        let p = s.drop_last();
        law_collapsed_ids_distinct(p);
        let d = dedupe_upper(p);
        let r = dedupe_upper(s);
        let dup = exists|j: int| 0 <= j < s.len() - 1 && uppercase_of(#[trigger] s[j].id) == uppercase_of(s.last().id);
        if dup {
            assert(r == d);
            assert forall|i: int| 0 <= i < r.len() implies exists|k: int| 0 <= k < s.len() && #[trigger] s[k] == #[trigger] r[i] by {
                let k = choose|k: int| 0 <= k < p.len() && #[trigger] p[k] == d[i];
                assert(s[k] == p[k]);
            }
        } else {
            assert(r == d.push(s.last()));
            assert forall|i: int, j: int| 0 <= i < j < r.len() implies uppercase_of((#[trigger] r[i]).id)
                != uppercase_of((#[trigger] r[j]).id) by {
                assert(r[i] == d[i]);
                if j < d.len() {
                    assert(r[j] == d[j]);
                } else {
                    let k = choose|k: int| 0 <= k < p.len() && #[trigger] p[k] == d[i];
                    assert(s[k] == p[k]);
                    if uppercase_of(r[i].id) == uppercase_of(r[j].id) {
                        assert(uppercase_of(s[k].id) == uppercase_of(s.last().id));
                    }
                }
            }
            assert forall|i: int| 0 <= i < r.len() implies exists|k: int| 0 <= k < s.len() && #[trigger] s[k] == #[trigger] r[i] by {
                if i < d.len() {
                    assert(r[i] == d[i]);
                    let k = choose|k: int| 0 <= k < p.len() && #[trigger] p[k] == d[i];
                    assert(s[k] == p[k]);
                } else {
                    assert(s[s.len() - 1] == r[i]);
                }
            }
        }
    }
}

/// Of the entries of one trip identity, the one kept was updated last: no
/// entry with its key has a later update, and every earlier entry with its
/// key has an older one.
pub proof fn law_kept_trip_is_latest(
    d: Seq<(Trip, Vec<StopTime>)>,
    k: (Seq<char>, Seq<char>, i64, Option<i16>),
    m: int,
)
    requires
        0 <= m < d.len(),
        trip_key(d[m].0) == k,
    ensures
        0 <= kept_index(d, k) < d.len(),
        d[m].0.updated_at <= d[kept_index(d, k)].0.updated_at,
        m < kept_index(d, k) ==> d[m].0.updated_at < d[kept_index(d, k)].0.updated_at,
    decreases d.len(),
{
    lemma_kept_index(d, k);
    let p = d.drop_last();
    if m < d.len() - 1 {
        assert(p[m] == d[m]);
        law_kept_trip_is_latest(p, k, m);
        let w = kept_index(p, k);
        assert(d[w] == p[w]);
    }
}

/// No two stop-time rows are for the same stop of the same stored trip.
pub proof fn law_stop_time_rows_distinct(c: Seq<RowView>)
    ensures
        forall|i: int, j: int|
            0 <= i < j < first_rows(c).len() ==> !((#[trigger] first_rows(c)[i]).2 == (#[trigger] first_rows(
                c,
            )[j]).2 && first_rows(c)[i].3 == first_rows(c)[j].3),
    decreases c.len(),
{
    if c.len() > 0 {
        let p = c.drop_last();
        law_stop_time_rows_distinct(p);
        let fp = first_rows(p);
        if !seen_before(p, c.last().2, c.last().3) {
            lemma_first_rows_seen(p, c.last().2, c.last().3);
            let f = first_rows(c);
            assert(f == fp.push(c.last()));
            assert forall|i: int, j: int| 0 <= i < j < f.len() implies !((#[trigger] f[i]).2 == (#[trigger] f[j]).2
                && f[i].3 == f[j].3) by {
                if j == fp.len() {
                    assert(f[i] == fp[i]);
                    if f[i].2 == f[j].2 && f[i].3 == f[j].3 {
                        assert(seen_before(fp, c.last().2, c.last().3));
                    }
                } else {
                    assert(f[i] == fp[i] && f[j] == fp[j]);
                }
            }
        }
    }
}

/// The stops are in order of id.
pub open spec fn ids_sorted(s: Seq<BusStopRow>) -> bool {
    forall|i: int, j: int| 0 <= i < j < s.len() ==> (#[trigger] s[i]).id <= (#[trigger] s[j]).id
}

proof fn lemma_id_le_prefix_sorted(s: Seq<BusStopRow>, x: i32)
    requires
        ids_sorted(s),
    ensures
        0 <= id_le_prefix(s, x) <= s.len(),
        forall|j: int| 0 <= j < id_le_prefix(s, x) ==> (#[trigger] s[j]).id <= x,
        forall|j: int| id_le_prefix(s, x) <= j < s.len() ==> (#[trigger] s[j]).id > x,
    decreases s.len(),
{
    if s.len() > 0 {
        let t = s.drop_first();
        assert(ids_sorted(t)) by {
            assert forall|i: int, j: int| 0 <= i < j < t.len() implies (#[trigger] t[i]).id <= (#[trigger] t[j]).id by {
                assert(t[i] == s[i + 1] && t[j] == s[j + 1]);
            }
        }
        lemma_id_le_prefix_sorted(t, x);
        if s[0].id <= x {
            assert forall|j: int| 0 <= j < id_le_prefix(s, x) implies (#[trigger] s[j]).id <= x by {
                if j > 0 {
                    assert(s[j] == t[j - 1]);
                }
            }
            assert forall|j: int| id_le_prefix(s, x) <= j < s.len() implies (#[trigger] s[j]).id > x by {
                assert(s[j] == t[j - 1]);
            }
        } else {
            assert forall|j: int| 0 <= j < s.len() implies (#[trigger] s[j]).id > x by {
                if j > 0 {
                    assert(s[0].id <= s[j].id);
                }
            }
        }
    }
}

proof fn lemma_sort_by_id_sorted(a: Seq<BusStopRow>)
    ensures
        ids_sorted(sort_by_id(a)),
        sort_by_id(a).len() == a.len(),
    decreases a.len(),
{
    if a.len() > 0 {
        let s = sort_by_id(a.drop_last());
        lemma_sort_by_id_sorted(a.drop_last());
        let x = a.last();
        lemma_id_le_prefix_sorted(s, x.id);
        let k = id_le_prefix(s, x.id);
        let r = s.insert(k, x);
        assert forall|i: int, j: int| 0 <= i < j < r.len() implies (#[trigger] r[i]).id <= (#[trigger] r[j]).id by {
            if j < k {
                assert(r[i] == s[i] && r[j] == s[j]);
            } else if j == k {
                assert(r[i] == s[i]);
            } else if i == k {
                assert(r[j] == s[j - 1]);
            } else if i < k {
                assert(r[i] == s[i] && r[j] == s[j - 1]);
            } else {
                assert(r[i] == s[i - 1] && r[j] == s[j - 1]);
            }
        }
    }
}

proof fn lemma_dedup_ids_bound(s: Seq<BusStopRow>, b: i32)
    requires
        forall|j: int| 0 <= j < s.len() ==> (#[trigger] s[j]).id <= b,
    ensures
        forall|i: int| 0 <= i < dedup_ids(s).len() ==> (#[trigger] dedup_ids(s)[i]).id <= b,
    decreases s.len(),
{
    if s.len() > 0 {
        let p = s.drop_last();
        assert forall|j: int| 0 <= j < p.len() implies (#[trigger] p[j]).id <= b by {
            assert(p[j] == s[j]);
        }
        lemma_dedup_ids_bound(p, b);
        let d = dedup_ids(s);
        let dp = dedup_ids(p);
        if !(dp.len() > 0 && dp.last().id == s.last().id) {
            assert forall|i: int| 0 <= i < d.len() implies (#[trigger] d[i]).id <= b by {
                if i < dp.len() {
                    assert(d[i] == dp[i]);
                }
            }
        }
    }
}

proof fn lemma_dedup_ids_strict(s: Seq<BusStopRow>)
    requires
        ids_sorted(s),
    ensures
        forall|i: int, j: int| 0 <= i < j < dedup_ids(s).len() ==> (#[trigger] dedup_ids(s)[i]).id < (#[trigger] dedup_ids(s)[j]).id,
    decreases s.len(),
{
    if s.len() > 0 {
        let p = s.drop_last();
        assert(ids_sorted(p)) by {
            assert forall|i: int, j: int| 0 <= i < j < p.len() implies (#[trigger] p[i]).id <= (#[trigger] p[j]).id by {
                assert(p[i] == s[i] && p[j] == s[j]);
            }
        }
        lemma_dedup_ids_strict(p);
        assert forall|j: int| 0 <= j < p.len() implies (#[trigger] p[j]).id <= s.last().id by {
            assert(p[j] == s[j]);
            assert(s[j].id <= s[s.len() - 1].id);
        }
        lemma_dedup_ids_bound(p, s.last().id);
        let d = dedup_ids(s);
        let dp = dedup_ids(p);
        if !(dp.len() > 0 && dp.last().id == s.last().id) {
            assert forall|i: int, j: int| 0 <= i < j < d.len() implies (#[trigger] d[i]).id < (#[trigger] d[j]).id by {
                if j < dp.len() {
                    assert(d[i] == dp[i] && d[j] == dp[j]);
                } else {
                    assert(d[i] == dp[i]);
                    assert(d[j] == s.last());
                    if i < dp.len() - 1 {
                        assert(dp[i].id < dp[dp.len() - 1].id);
                    }
                }
            }
        }
    }
}

/// After removing repeats, every bus stop id occurs once, in increasing
/// order.
pub proof fn law_bus_stop_ids_distinct(v: Seq<BusStopRow>)
    ensures
        forall|i: int, j: int|
            0 <= i < j < dedup_ids(sort_by_id(v)).len() ==> (#[trigger] dedup_ids(sort_by_id(v))[i]).id
                < (#[trigger] dedup_ids(sort_by_id(v))[j]).id,
{
    lemma_sort_by_id_sorted(v);
    lemma_dedup_ids_strict(sort_by_id(v));
}

/// After the platform data version is bumped, the key of any platform-edge
/// match carries the new version, which differs from the old one (also when
/// the counter wraps around), so no match cached under an old key is found
/// again.
pub proof fn law_bumped_version_changes_keys(
    before: PlatformMatchKey,
    after: PlatformMatchKey,
    source: Source,
    stop_id: Seq<char>,
    trip_direction: i16,
    consist_length_ft: i32,
    edge_ids: Seq<Seq<char>>,
    version: u64,
)
    requires
        platform_key_matches(before, source, stop_id, trip_direction, consist_length_ft, edge_ids, version),
        platform_key_matches(
            after,
            source,
            stop_id,
            trip_direction,
            consist_length_ft,
            edge_ids,
            bumped_version(version),
        ),
    ensures
        after.static_version == bumped_version(before.static_version),
        after != before,
{
}

proof fn lemma_first_sep_after_token(token: Seq<char>, tail: Seq<char>)
    requires
        forall|i: int| 0 <= i < token.len() ==> !is_token_sep(#[trigger] token[i]),
        tail.len() > 0,
        is_token_sep(tail[0]),
    ensures
        first_sep(token + tail) == token.len(),
    decreases token.len(),
{
    let h = token + tail;
    if token.len() == 0 {
        assert(h =~= tail);
    } else {
        assert(h[0] == token[0]);
        assert(h.drop_first() =~= token.drop_first() + tail);
        assert forall|i: int| 0 <= i < token.drop_first().len() implies !is_token_sep(
            #[trigger] token.drop_first()[i],
        ) by {
            assert(token.drop_first()[i] == token[i + 1]);
        }
        lemma_first_sep_after_token(token.drop_first(), tail);
    }
}

/// A character that can stand inside a route-id token: neither white space
/// nor one of `- : / .`.
pub open spec fn plain_char(c: char) -> bool {
    !is_ws(c) && c != '-' && c != ':' && c != '/' && c != '.'
}

proof fn lemma_skip_all_seps(seps: Seq<char>, rest: Seq<char>)
    requires
        forall|i: int| 0 <= i < seps.len() ==> !plain_char(#[trigger] seps[i]),
        rest.len() > 0,
        plain_char(rest[0]),
    ensures
        skip_seps(seps + rest) == rest,
    decreases seps.len(),
{
    let h = seps + rest;
    if seps.len() == 0 {
        assert(h =~= rest);
    } else {
        assert(h[0] == seps[0]);
        assert(h.drop_first() =~= seps.drop_first() + rest);
        assert forall|i: int| 0 <= i < seps.drop_first().len() implies !plain_char(
            #[trigger] seps.drop_first()[i],
        ) by {
            assert(seps.drop_first()[i] == seps[i + 1]);
        }
        lemma_skip_all_seps(seps.drop_first(), rest);
    }
}

proof fn lemma_trim_start_pad(lead: Seq<char>, x: Seq<char>)
    requires
        forall|i: int| 0 <= i < lead.len() ==> is_ws(#[trigger] lead[i]),
        x.len() > 0,
        !is_ws(x[0]),
    ensures
        trim_start_spec(lead + x) == x,
    decreases lead.len(),
{
    let h = lead + x;
    if lead.len() == 0 {
        assert(h =~= x);
    } else {
        assert(h[0] == lead[0]);
        assert(h.drop_first() =~= lead.drop_first() + x);
        assert forall|i: int| 0 <= i < lead.drop_first().len() implies is_ws(
            #[trigger] lead.drop_first()[i],
        ) by {
            assert(lead.drop_first()[i] == lead[i + 1]);
        }
        lemma_trim_start_pad(lead.drop_first(), x);
    }
}

proof fn lemma_trim_end_pad(x: Seq<char>, trail: Seq<char>)
    requires
        forall|i: int| 0 <= i < trail.len() ==> is_ws(#[trigger] trail[i]),
        x.len() > 0,
        !is_ws(x.last()),
    ensures
        trim_end_spec(x + trail) == x,
    decreases trail.len(),
{
    let h = x + trail;
    if trail.len() == 0 {
        assert(h =~= x);
    } else {
        let shorter = trail.drop_last();
        assert(h.last() == trail.last());
        assert(is_ws(trail[trail.len() - 1]));
        assert(h.drop_last() =~= x + shorter);
        assert forall|i: int| 0 <= i < shorter.len() implies is_ws(#[trigger] shorter[i]) by {
            assert(shorter[i] == trail[i]);
        }
        lemma_trim_end_pad(x, shorter);
    }
}

/// A headsign written as a token, then one or more separators (white space
/// or `- : / .`, in any mix, such as `" - "`), then the destination, with any
/// white space around it: when the token is the route id (exactly, or up to
/// ASCII case) what is left is the destination alone, whichever separators
/// stood between; any other token leaves the trimmed headsign as it is.
/// `"509-ATLANTIC CITY"`, `"509 ATLANTIC CITY"` and `" 509 - ATLANTIC CITY"`
/// with route `509` all give `"ATLANTIC CITY"`.
pub proof fn law_strip_route_prefix_separated(
    route_id: Seq<char>,
    lead: Seq<char>,
    token: Seq<char>,
    seps: Seq<char>,
    rest: Seq<char>,
    trail: Seq<char>,
)
    requires
        forall|i: int| 0 <= i < lead.len() ==> is_ws(#[trigger] lead[i]),
        token.len() > 0,
        forall|i: int| 0 <= i < token.len() ==> plain_char(#[trigger] token[i]),
        seps.len() > 0,
        forall|i: int| 0 <= i < seps.len() ==> !plain_char(#[trigger] seps[i]),
        rest.len() > 0,
        plain_char(rest[0]),
        !is_ws(rest.last()),
        forall|i: int| 0 <= i < trail.len() ==> is_ws(#[trigger] trail[i]),
    ensures
        token == route_id ==> strip_route_prefix_spec(route_id, lead + token + seps + rest + trail)
            == rest,
        eq_ignore_ascii_case_spec(token, route_id) ==> strip_route_prefix_spec(
            route_id,
            lead + token + seps + rest + trail,
        ) == rest,
        !eq_ignore_ascii_case_spec(token, route_id) ==> strip_route_prefix_spec(
            route_id,
            lead + token + seps + rest + trail,
        ) == token + seps + rest,
{
    let t = token + seps + rest;
    let h = lead + token + seps + rest + trail;
    assert(h =~= lead + (t + trail));
    assert((t + trail)[0] == token[0]);
    assert(plain_char(token[0]));
    lemma_trim_start_pad(lead, t + trail);
    assert(t.last() == rest.last());
    lemma_trim_end_pad(t, trail);
    assert(trim_spec(h) == t);
    let tail = seps + rest;
    assert(t =~= token + tail);
    assert(tail[0] == seps[0]);
    assert(!plain_char(seps[0]));
    assert forall|i: int| 0 <= i < token.len() implies !is_token_sep(#[trigger] token[i]) by {
        assert(plain_char(token[i]));
    }
    lemma_first_sep_after_token(token, tail);
    let k = token.len() as int;
    assert(t.subrange(0, k) =~= token);
    assert(tail_from(t, k) =~= tail);
    lemma_skip_all_seps(seps, rest);
    assert(trim_start_spec(rest) == rest);
    assert(trim_end_spec(rest) == rest);
    if token == route_id {
        assert(eq_ignore_ascii_case_spec(token, route_id));
    }
    if eq_ignore_ascii_case_spec(token, route_id) {
        assert(crate::text::ascii_lower_seq(token).len() == token.len());
        assert(route_id.len() == token.len());
    }
}

/// The hexadecimal digits in lower case, `0` to `f`.
pub open spec fn lower_hex_digits() -> Seq<u8> {
    seq![0x30u8, 0x31, 0x32, 0x33, 0x34, 0x35, 0x36, 0x37, 0x38, 0x39, 0x61, 0x62, 0x63, 0x64, 0x65, 0x66]
}

/// The hexadecimal digits in upper case, `0` to `F`.
pub open spec fn upper_hex_digits() -> Seq<u8> {
    seq![0x30u8, 0x31, 0x32, 0x33, 0x34, 0x35, 0x36, 0x37, 0x38, 0x39, 0x41, 0x42, 0x43, 0x44, 0x45, 0x46]
}

/// The two digits of a byte value, as `{:02x}` (with `lower_hex_digits`) or
/// `{:02X}` (with `upper_hex_digits`) writes them.
pub open spec fn hex_pair(digits: Seq<u8>, v: u8) -> Seq<u8> {
    seq![digits[v as int / 16], digits[v as int % 16]]
}

proof fn lemma_hex_digits(d: int)
    requires
        0 <= d < 16,
    ensures
        hex_val(lower_hex_digits()[d]) == Some(d),
        hex_val(upper_hex_digits()[d]) == Some(d),
        lower_hex_digits()[d] != 0x2b && lower_hex_digits()[d] != 0x23,
        upper_hex_digits()[d] != 0x2b && upper_hex_digits()[d] != 0x23,
{
    let lo = lower_hex_digits();
    let up = upper_hex_digits();
    if d < 10 {
        assert(lo[d] == 0x30 + d && up[d] == 0x30 + d) by {
            if d == 0 {} else if d == 1 {} else if d == 2 {} else if d == 3 {} else if d == 4 {}
            else if d == 5 {} else if d == 6 {} else if d == 7 {} else if d == 8 {} else {}
        }
    } else {
        assert(lo[d] == 0x61 + d - 10 && up[d] == 0x41 + d - 10) by {
            if d == 10 {} else if d == 11 {} else if d == 12 {} else if d == 13 {} else if d == 14 {} else {}
        }
    }
}

/// A color channel reads back every byte value from the two hexadecimal
/// digits that write it, in lower or upper case: `"ff"` and `"FF"` are 255,
/// `"00"` is 0, `"80"` is 128.
pub proof fn law_channel_reads_hex(v: u8)
    ensures
        channel(hex_pair(lower_hex_digits(), v)[0], hex_pair(lower_hex_digits(), v)[1]) == v,
        channel(hex_pair(upper_hex_digits(), v)[0], hex_pair(upper_hex_digits(), v)[1]) == v,
{
    lemma_hex_digits(v as int / 16);
    lemma_hex_digits(v as int % 16);
    assert(v as int == (v as int / 16) * 16 + v as int % 16);
}

/// A table of sixteen digits, each read as its own index.
pub open spec fn reads_as_digits(d: Seq<u8>) -> bool {
    &&& d.len() == 16
    &&& forall|i: int| 0 <= i < 16 ==> hex_val(#[trigger] d[i]) == Some(i) && d[i] != 0x2b && d[i] != 0x23
}

proof fn lemma_digit_tables()
    ensures
        reads_as_digits(lower_hex_digits()),
        reads_as_digits(upper_hex_digits()),
{
    assert forall|i: int| 0 <= i < 16 implies hex_val(#[trigger] lower_hex_digits()[i]) == Some(i)
        && lower_hex_digits()[i] != 0x2b && lower_hex_digits()[i] != 0x23 by {
        lemma_hex_digits(i);
    }
    assert forall|i: int| 0 <= i < 16 implies hex_val(#[trigger] upper_hex_digits()[i]) == Some(i)
        && upper_hex_digits()[i] != 0x2b && upper_hex_digits()[i] != 0x23 by {
        lemma_hex_digits(i);
    }
}

proof fn lemma_pair_reads(d: Seq<u8>, v: u8)
    requires
        reads_as_digits(d),
    ensures
        channel(hex_pair(d, v)[0], hex_pair(d, v)[1]) == v,
        hex_pair(d, v)[0] != 0x23,
{
    let hi = v as int / 16;
    let lo = v as int % 16;
    assert(0 <= hi < 16 && 0 <= lo < 16);
    assert(hex_val(d[hi]) == Some(hi) && d[hi] != 0x2b && d[hi] != 0x23);
    assert(hex_val(d[lo]) == Some(lo));
    assert(v as int == hi * 16 + lo);
}

proof fn lemma_color_round_trip(d: Seq<u8>, r: u8, g: u8, b: u8)
    requires
        reads_as_digits(d),
    ensures
        color_spec(seq![0x23u8] + hex_pair(d, r) + hex_pair(d, g) + hex_pair(d, b)) == [r, g, b],
{
    let body = hex_pair(d, r) + hex_pair(d, g) + hex_pair(d, b);
    let bs = seq![0x23u8] + hex_pair(d, r) + hex_pair(d, g) + hex_pair(d, b);
    lemma_pair_reads(d, r);
    lemma_pair_reads(d, g);
    lemma_pair_reads(d, b);
    assert(body.len() == 6);
    assert(body[0] == hex_pair(d, r)[0] && body[1] == hex_pair(d, r)[1]);
    assert(body[2] == hex_pair(d, g)[0] && body[3] == hex_pair(d, g)[1]);
    assert(body[4] == hex_pair(d, b)[0] && body[5] == hex_pair(d, b)[1]);
    assert(leading_hashes(body) == 0);
    assert(bs.drop_first() =~= body);
    assert(bs[0] == 0x23u8);
    assert(leading_hashes(bs) == 1);
    assert(color_digits(bs) =~= body);
}

/// A `#rrggbb` color written with two lower-case hexadecimal digits per
/// channel is read back as the three channel values: `"#00ff00"` is
/// `[0, 255, 0]`.
pub proof fn law_parse_color_lower_round_trip(r: u8, g: u8, b: u8)
    ensures
        color_spec(
            seq![0x23u8] + hex_pair(lower_hex_digits(), r) + hex_pair(lower_hex_digits(), g) + hex_pair(
                lower_hex_digits(),
                b,
            ),
        ) == [r, g, b],
{
    lemma_digit_tables();
    lemma_color_round_trip(lower_hex_digits(), r, g, b);
}

/// A `#RRGGBB` color written with two upper-case hexadecimal digits per
/// channel is read back as the three channel values: `"#00FF00"` is
/// `[0, 255, 0]`, as `"#00ff00"` is.
pub proof fn law_parse_color_upper_round_trip(r: u8, g: u8, b: u8)
    ensures
        color_spec(
            seq![0x23u8] + hex_pair(upper_hex_digits(), r) + hex_pair(upper_hex_digits(), g) + hex_pair(
                upper_hex_digits(),
                b,
            ),
        ) == [r, g, b],
{
    lemma_digit_tables();
    lemma_color_round_trip(upper_hex_digits(), r, g, b);
}

/// The name of a compass direction, as the bus tracker writes it.
pub open spec fn compass_name(d: CompassDirection) -> Seq<char> {
    match d {
        CompassDirection::N => seq!['N'],
        CompassDirection::NE => seq!['N', 'E'],
        CompassDirection::E => seq!['E'],
        CompassDirection::SE => seq!['S', 'E'],
        CompassDirection::S => seq!['S'],
        CompassDirection::SW => seq!['S', 'W'],
        CompassDirection::W => seq!['W'],
        CompassDirection::NW => seq!['N', 'W'],
        CompassDirection::Unknown => seq!['U', 'n', 'k', 'n', 'o', 'w', 'n'],
    }
}

/// Every compass direction is read back from its own name, so the eight
/// names give eight different directions (`"NW"` is north-west, never
/// north-east).
pub proof fn law_compass_names_round_trip(d: CompassDirection)
    ensures
        compass_named(compass_name(d)) == d,
{
    lemma_compass_name_read(d);
}

proof fn lemma_compass_literals()
    ensures
        seq!['N'].len() == 1 && seq!['N'][0] == 'N',
        seq!['S'].len() == 1 && seq!['S'][0] == 'S',
        seq!['E'].len() == 1 && seq!['E'][0] == 'E',
        seq!['W'].len() == 1 && seq!['W'][0] == 'W',
        seq!['N', 'E'].len() == 2 && seq!['N', 'E'][0] == 'N' && seq!['N', 'E'][1] == 'E',
        seq!['N', 'W'].len() == 2 && seq!['N', 'W'][0] == 'N' && seq!['N', 'W'][1] == 'W',
        seq!['S', 'E'].len() == 2 && seq!['S', 'E'][0] == 'S' && seq!['S', 'E'][1] == 'E',
        seq!['S', 'W'].len() == 2 && seq!['S', 'W'][0] == 'S' && seq!['S', 'W'][1] == 'W',
{
}

proof fn lemma_compass_name_read(d: CompassDirection)
    ensures
        compass_named(compass_name(d)) == d,
{
    lemma_compass_literals();
    let n = compass_name(d);
    if d == CompassDirection::Unknown {
        assert(n.len() == 7);
    }
}

/// A text that names none of the eight compass directions names no
/// direction.
pub proof fn law_compass_other_names_unknown(s: Seq<char>)
    requires
        forall|d: CompassDirection| d != CompassDirection::Unknown ==> s != #[trigger] compass_name(d),
    ensures
        compass_named(s) == CompassDirection::Unknown,
{
    assert(compass_name(CompassDirection::N) == seq!['N']);
    assert(compass_name(CompassDirection::NE) == seq!['N', 'E']);
    assert(compass_name(CompassDirection::E) == seq!['E']);
    assert(compass_name(CompassDirection::SE) == seq!['S', 'E']);
    assert(compass_name(CompassDirection::S) == seq!['S']);
    assert(compass_name(CompassDirection::SW) == seq!['S', 'W']);
    assert(compass_name(CompassDirection::W) == seq!['W']);
    assert(compass_name(CompassDirection::NW) == seq!['N', 'W']);
}

} // verus!
