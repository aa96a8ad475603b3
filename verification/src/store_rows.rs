//! The rows that the realtime stores write: one trip per identity, stop
//! times under the ids the trips were stored with, and the parts of alerts
//! under the ids the alerts were stored with.
use vstd::prelude::*;

use crate::realtime::{StopTime, Trip};
use crate::subway_realtime::{find_id, id_lookup};
use crate::text::{chars_eq, str_chars, to_uppercase, uppercase_of};

verus! {

/// What identifies a stored trip: its feed id, vehicle, start and direction.
pub open spec fn trip_key(t: Trip) -> (Seq<char>, Seq<char>, i64, Option<i16>) {
    (t.original_id@, t.vehicle_id@, t.created_at, t.direction)
}

/// The index of the entry kept for key `k`: the first of the entries with
/// that key that was updated last; -1 when no entry has it.
pub open spec fn kept_index(d: Seq<(Trip, Vec<StopTime>)>, k: (Seq<char>, Seq<char>, i64, Option<i16>)) -> int
    decreases d.len(),
{
    if d.len() == 0 {
        -1
    } else {
        let w = kept_index(d.drop_last(), k);
        if trip_key(d.last().0) == k && (w < 0 || d.last().0.updated_at > d[w].0.updated_at) {
            d.len() - 1
        } else {
            w
        }
    }
}

/// The kept index lies in the list, at an entry with the key.
pub proof fn lemma_kept_index(d: Seq<(Trip, Vec<StopTime>)>, k: (Seq<char>, Seq<char>, i64, Option<i16>))
    ensures
        -1 <= kept_index(d, k) < d.len(),
        kept_index(d, k) >= 0 ==> trip_key(d[kept_index(d, k)].0) == k,
        (exists|m: int| 0 <= m < d.len() && trip_key((#[trigger] d[m]).0) == k) ==> kept_index(d, k) >= 0,
    decreases d.len(),
{
    if d.len() > 0 {
        let p = d.drop_last();
        lemma_kept_index(p, k);
        if kept_index(d, k) == kept_index(p, k) && kept_index(p, k) >= 0 {
            assert(d[kept_index(p, k)] == p[kept_index(p, k)]);
        }
        if exists|m: int| 0 <= m < d.len() && trip_key((#[trigger] d[m]).0) == k {
            let m = choose|m: int| 0 <= m < d.len() && trip_key((#[trigger] d[m]).0) == k;
            if m < d.len() - 1 {
                assert(p[m] == d[m]);
            }
        }
    }
}

/// The keys of the trips of a list of entries.
pub open spec fn entry_keys(r: Seq<(Trip, Vec<StopTime>)>) -> Seq<(Seq<char>, Seq<char>, i64, Option<i16>)> {
    Seq::new(r.len(), |i: int| trip_key(r[i].0))
}

/// `r` holds one entry per key of `d`: the one `kept_index` picks.
pub open spec fn deduped_from(r: Seq<(Trip, Vec<StopTime>)>, d: Seq<(Trip, Vec<StopTime>)>) -> bool {
    &&& forall|i: int, j: int|
        0 <= i < j < r.len() ==> trip_key((#[trigger] r[i]).0) != trip_key((#[trigger] r[j]).0)
    &&& forall|i: int|
        0 <= i < r.len() ==> 0 <= kept_index(d, trip_key((#[trigger] r[i]).0)) && r[i] == d[kept_index(
            d,
            trip_key(r[i].0),
        )]
    &&& forall|m: int| 0 <= m < d.len() ==> entry_keys(r).contains(trip_key((#[trigger] d[m]).0))
}

fn same_key(a: &Trip, b: &Trip) -> (r: bool)
    ensures
        r == (trip_key(*a) == trip_key(*b)),
{
    let ao = str_chars(a.original_id.as_str());
    let bo = str_chars(b.original_id.as_str());
    let av = str_chars(a.vehicle_id.as_str());
    let bv = str_chars(b.vehicle_id.as_str());
    let dir = match (a.direction, b.direction) {
        (Some(x), Some(y)) => x == y,
        (None, None) => true,
        _ => false,
    };
    chars_eq(ao.as_slice(), bo.as_slice()) && chars_eq(av.as_slice(), bv.as_slice()) && a.created_at
        == b.created_at && dir
}

/// One entry per trip identity (`trip_key`): of the entries of a trip, the
/// first of those updated last, with its stop times. Entries come in the
/// order in which their trips first appear.
pub fn dedup_trips(data: Vec<(Trip, Vec<StopTime>)>) -> (r: Vec<(Trip, Vec<StopTime>)>)
    ensures
        deduped_from(r@, data@),
{
    let ghost all = data@;
    let n = data.len();
    let mut rest = data;
    let mut out: Vec<(Trip, Vec<StopTime>)> = Vec::new();
    let mut k: usize = 0;
    while rest.len() > 0
        invariant
            k + rest@.len() == all.len(),
            all.len() == n,
            rest@ == all.subrange(k as int, all.len() as int),
            deduped_from(out@, all.subrange(0, k as int)),
        decreases rest.len(),
    {
        let x = rest.remove(0);
        let ghost pre = all.subrange(0, k as int);
        let ghost cur = all.subrange(0, k + 1);
        assert(x == all[k as int]);
        assert(cur.drop_last() =~= pre);
        assert(cur.last() == x);
        let ghost kx = trip_key(x.0);
        let mut j: usize = 0;
        let mut found = false;
        while j < out.len() && !found
            invariant
                j <= out@.len(),
                forall|m: int| 0 <= m < j ==> trip_key((#[trigger] out@[m]).0) != kx,
                found ==> j < out@.len() && trip_key(out@[j as int].0) == kx,
                kx == trip_key(x.0),
            decreases out.len() - j, if found { 0int } else { 1int },
        {
            if same_key(&out[j].0, &x.0) {
                found = true;
            } else {
                j = j + 1;
            }
        }
        let ghost o0 = out@;
        proof {
            lemma_kept_index(pre, kx);
            lemma_kept_index(cur, kx);
            // keys other than x's keep their kept index
            assert forall|key: (Seq<char>, Seq<char>, i64, Option<i16>)| key != kx implies kept_index(cur, key)
                == kept_index(pre, key) by {}
        }
        if found {
            let w = Ghost(kept_index(pre, kx));
            proof {
                assert(0 <= w@ && o0[j as int] == pre[w@]);
                assert(cur[w@] == pre[w@]);
            }
            if x.0.updated_at > out[j].0.updated_at {
                out.set(j, x);
                proof {
                    assert(kept_index(cur, kx) == k);
                }
            } else {
                proof {
                    assert(kept_index(cur, kx) == w@);
                }
            }
            proof {
                let o1 = out@;
                assert forall|a: int, b: int| 0 <= a < b < o1.len() implies trip_key((#[trigger] o1[a]).0)
                    != trip_key((#[trigger] o1[b]).0) by {
                    assert(trip_key(o1[a].0) == trip_key(o0[a].0));
                    assert(trip_key(o1[b].0) == trip_key(o0[b].0));
                }
                assert forall|i: int| 0 <= i < o1.len() implies 0 <= kept_index(
                    cur,
                    trip_key((#[trigger] o1[i]).0),
                ) && o1[i] == cur[kept_index(cur, trip_key(o1[i].0))] by {
                    if i != j {
                        assert(o1[i] == o0[i]);
                        assert(trip_key(o0[i].0) != kx);
                        let ki = kept_index(pre, trip_key(o0[i].0));
                        lemma_kept_index(pre, trip_key(o0[i].0));
                        assert(cur[ki] == pre[ki]);
                    }
                }
                assert forall|m: int| 0 <= m < cur.len() implies entry_keys(o1).contains(
                    trip_key((#[trigger] cur[m]).0),
                ) by {
                    if m < k {
                        assert(cur[m] == pre[m]);
                        assert(entry_keys(o0).contains(trip_key(pre[m].0)));
                        let i = choose|i: int| 0 <= i < o0.len() && entry_keys(o0)[i] == trip_key(pre[m].0);
                        assert(entry_keys(o1)[i] == entry_keys(o0)[i]);
                    } else {
                        assert(entry_keys(o1)[j as int] == kx);
                    }
                }
            }
        } else {
            proof {
                if kept_index(pre, kx) >= 0 {
                    let w = kept_index(pre, kx);
                    assert(entry_keys(o0).contains(trip_key(pre[w].0)));
                    let i = choose|i: int| 0 <= i < o0.len() && entry_keys(o0)[i] == trip_key(pre[w].0);
                    assert(trip_key(o0[i].0) == kx);
                }
                assert(kept_index(cur, kx) == k);
            }
            out.push(x);
            proof {
                let o1 = out@;
                assert forall|a: int, b: int| 0 <= a < b < o1.len() implies trip_key((#[trigger] o1[a]).0)
                    != trip_key((#[trigger] o1[b]).0) by {
                    if b < o0.len() {
                        assert(o1[a] == o0[a] && o1[b] == o0[b]);
                    } else {
                        assert(o1[a] == o0[a]);
                    }
                }
                assert forall|i: int| 0 <= i < o1.len() implies 0 <= kept_index(
                    cur,
                    trip_key((#[trigger] o1[i]).0),
                ) && o1[i] == cur[kept_index(cur, trip_key(o1[i].0))] by {
                    if i < o0.len() {
                        assert(o1[i] == o0[i]);
                        assert(trip_key(o0[i].0) != kx);
                        let ki = kept_index(pre, trip_key(o0[i].0));
                        lemma_kept_index(pre, trip_key(o0[i].0));
                        assert(cur[ki] == pre[ki]);
                    }
                }
                assert forall|m: int| 0 <= m < cur.len() implies entry_keys(o1).contains(
                    trip_key((#[trigger] cur[m]).0),
                ) by {
                    if m < k {
                        assert(cur[m] == pre[m]);
                        assert(entry_keys(o0).contains(trip_key(pre[m].0)));
                        let i = choose|i: int| 0 <= i < o0.len() && entry_keys(o0)[i] == trip_key(pre[m].0);
                        assert(entry_keys(o1)[i] == entry_keys(o0)[i]);
                    } else {
                        assert(entry_keys(o1)[o0.len() as int] == kx);
                    }
                }
            }
        }
        k = k + 1;
        assert(rest@ =~= all.subrange(k as int, all.len() as int));
    }
    assert(all.subrange(0, k as int) =~= all);
    out
}

/// The trips to write: one entry per trip identity (see `dedup_trips`), and
/// beside each the route id it is stored under, upper-cased. Nothing is
/// written for no entries.
pub fn trips_to_store(data: Vec<(Trip, Vec<StopTime>)>) -> (r: (Vec<(Trip, Vec<StopTime>)>, Vec<String>))
    ensures
        deduped_from(r.0@, data@),
        data@.len() == 0 ==> r.0@.len() == 0,
        r.1@.len() == r.0@.len(),
        forall|i: int| 0 <= i < r.1@.len() ==> (#[trigger] r.1@[i])@ == uppercase_of(r.0@[i].0.route_id@),
{
    let ghost d = data@;
    let kept = dedup_trips(data);
    proof {
        if d.len() == 0 && kept@.len() > 0 {
            assert(0 <= kept_index(d, trip_key(kept@[0].0)));
        }
    }
    let mut route_ids: Vec<String> = Vec::new();
    let mut i: usize = 0;
    while i < kept.len()
        invariant
            i <= kept@.len(),
            route_ids@.len() == i,
            forall|j: int| 0 <= j < i ==> (#[trigger] route_ids@[j])@ == uppercase_of(kept@[j].0.route_id@),
        decreases kept.len() - i,
    {
        route_ids.push(to_uppercase(kept[i].0.route_id.as_str()));
        i = i + 1;
    }
    (kept, route_ids)
}

/// A stop-time row to write: the entry and stop time it comes from, the id
/// its trip was stored with and its upper-cased stop id.
#[derive(Debug, Clone)]
pub struct StopTimeRow {
    pub entry: usize,
    pub stop: usize,
    pub trip_id: u128,
    pub stop_id: String,
}

/// A row as `(entry, stop time, stored trip id, stop id)`.
pub type RowView = (int, int, u128, Seq<char>);

/// The rows of entry `i`, when its trip was stored: one per stop time.
pub open spec fn trip_candidates(e: (Trip, Vec<StopTime>), i: int, m: Seq<(u128, u128)>) -> Seq<RowView> {
    match id_lookup(m, e.0.id) {
        None => Seq::empty(),
        Some(a) => Seq::new(e.1@.len(), |j: int| (i, j, a, uppercase_of(e.1@[j].stop_id@))),
    }
}

/// The rows of all entries, in order.
pub open spec fn candidates(d: Seq<(Trip, Vec<StopTime>)>, m: Seq<(u128, u128)>) -> Seq<RowView>
    decreases d.len(),
{
    if d.len() == 0 {
        Seq::empty()
    } else {
        candidates(d.drop_last(), m) + trip_candidates(d.last(), d.len() - 1, m)
    }
}

/// Some row of `c` is for stop `s` of stored trip `a`.
pub open spec fn seen_before(c: Seq<RowView>, a: u128, s: Seq<char>) -> bool {
    exists|x: int| 0 <= x < c.len() && (#[trigger] c[x]).2 == a && c[x].3 == s
}

/// The rows of `c` without repeats: the first row for each stored trip and
/// stop.
pub open spec fn first_rows(c: Seq<RowView>) -> Seq<RowView>
    decreases c.len(),
{
    if c.len() == 0 {
        Seq::empty()
    } else {
        let p = first_rows(c.drop_last());
        if seen_before(c.drop_last(), c.last().2, c.last().3) {
            p
        } else {
            p.push(c.last())
        }
    }
}

/// A stop is seen among the rows exactly when it is among the rows kept.
pub proof fn lemma_first_rows_seen(c: Seq<RowView>, a: u128, s: Seq<char>)
    ensures
        seen_before(c, a, s) == seen_before(first_rows(c), a, s),
    decreases c.len(),
{
    if c.len() > 0 {
        let p = c.drop_last();
        lemma_first_rows_seen(p, a, s);
        let fp = first_rows(p);
        if seen_before(c, a, s) {
            let x = choose|x: int| 0 <= x < c.len() && (#[trigger] c[x]).2 == a && c[x].3 == s;
            if x < c.len() - 1 {
                assert(p[x] == c[x]);
                assert(seen_before(p, a, s));
                let y = choose|y: int| 0 <= y < fp.len() && (#[trigger] fp[y]).2 == a && fp[y].3 == s;
                if !seen_before(p, c.last().2, c.last().3) {
                    assert(first_rows(c)[y] == fp[y]);
                }
            } else {
                if seen_before(p, c.last().2, c.last().3) {
                    lemma_first_rows_seen(p, c.last().2, c.last().3);
                } else {
                    assert(first_rows(c)[fp.len() as int] == c.last());
                }
            }
        } else {
            if seen_before(first_rows(c), a, s) {
                let y = choose|y: int|
                    0 <= y < first_rows(c).len() && (#[trigger] first_rows(c)[y]).2 == a && first_rows(c)[y].3 == s;
                if y < fp.len() {
                    assert(first_rows(c)[y] == fp[y]);
                    let x = choose|x: int| 0 <= x < p.len() && (#[trigger] p[x]).2 == a && p[x].3 == s;
                    assert(c[x] == p[x]);
                } else {
                    assert(c[c.len() - 1] == c.last());
                }
            }
        }
    }
}

/// The view of a list of rows.
pub open spec fn rows_view(r: Seq<StopTimeRow>) -> Seq<RowView> {
    Seq::new(r.len(), |i: int| (r[i].entry as int, r[i].stop as int, r[i].trip_id, r[i].stop_id@))
}

/// The stop-time rows to write for the entries, given the ids their trips
/// were stored with (`id_map`): for each entry whose trip was stored, each
/// stop time under the stored id with its stop id upper-cased, in order; a
/// second row for the same stored trip and stop is dropped.
pub fn stop_time_rows(d: &Vec<(Trip, Vec<StopTime>)>, id_map: &Vec<(u128, u128)>) -> (r: Vec<StopTimeRow>)
    ensures
        rows_view(r@) == first_rows(candidates(d@, id_map@)),
{
    let mut out: Vec<StopTimeRow> = Vec::new();
    let mut i: usize = 0;
    while i < d.len()
        invariant
            i <= d@.len(),
            rows_view(out@) == first_rows(candidates(d@.subrange(0, i as int), id_map@)),
        decreases d.len() - i,
    {
        let ghost pre = d@.subrange(0, i as int);
        let ghost cur = d@.subrange(0, i + 1);
        assert(cur.drop_last() =~= pre);
        assert(cur.last() == d@[i as int]);
        let ghost base = candidates(pre, id_map@);
        let ghost tc = trip_candidates(d@[i as int], i as int, id_map@);
        assert(candidates(cur, id_map@) == base + tc);
        match find_id(id_map, d[i].0.id) {
            None => {
                assert(tc =~= Seq::<RowView>::empty());
                assert(base + tc =~= base);
            },
            Some(a) => {
                let sts = &d[i].1;
                let mut j: usize = 0;
                assert(base + tc.subrange(0, 0) =~= base);
                while j < sts.len()
                    invariant
                        j <= sts@.len(),
                        sts@ == d@[i as int].1@,
                        i < d@.len(),
                        id_lookup(id_map@, d@[i as int].0.id) == Some(a),
                        tc == trip_candidates(d@[i as int], i as int, id_map@),
                        tc.len() == sts@.len(),
                        rows_view(out@) == first_rows(base + tc.subrange(0, j as int)),
                    decreases sts.len() - j,
                {
                    let ghost c0 = base + tc.subrange(0, j as int);
                    let ghost c1 = base + tc.subrange(0, j + 1);
                    assert(c1.drop_last() =~= c0);
                    assert(c1.last() == tc[j as int]);
                    let up = to_uppercase(sts[j].stop_id.as_str());
                    let upc = str_chars(up.as_str());
                    assert(tc[j as int] == (i as int, j as int, a, up@));
                    let mut k: usize = 0;
                    let mut seen = false;
                    while k < out.len() && !seen
                        invariant
                            k <= out@.len(),
                            upc@ == up@,
                            forall|x: int|
                                0 <= x < k ==> !((#[trigger] rows_view(out@)[x]).2 == a && rows_view(out@)[x].3 == up@),
                            seen ==> k < out@.len() && rows_view(out@)[k as int].2 == a && rows_view(out@)[k as int].3 == up@,
                        decreases out.len() - k, if seen { 0int } else { 1int },
                    {
                        let oc = str_chars(out[k].stop_id.as_str());
                        if out[k].trip_id == a && chars_eq(oc.as_slice(), upc.as_slice()) {
                            seen = true;
                        } else {
                            k = k + 1;
                        }
                    }
                    proof {
                        lemma_first_rows_seen(c0, a, up@);
                        if !seen {
                            assert(!seen_before(rows_view(out@), a, up@));
                        }
                    }
                    if !seen {
                        let ghost o0 = out@;
                        out.push(StopTimeRow { entry: i, stop: j, trip_id: a, stop_id: up });
                        assert(rows_view(out@) =~= rows_view(o0).push((i as int, j as int, a, up@)));
                    }
                    j = j + 1;
                }
                assert(tc.subrange(0, j as int) =~= tc);
            },
        }
        i = i + 1;
    }
    assert(d@.subrange(0, i as int) =~= d@);
    out
}

/// The stored id of generated id `k`, pairing `ids` with `stored` in order
/// (as far as both go); the last pair for `k` counts.
pub open spec fn paired_id(ids: Seq<u128>, stored: Seq<u128>, k: u128) -> Option<u128>
    decreases ids.len(),
{
    if ids.len() == 0 {
        None
    } else if ids.len() <= stored.len() && ids.last() == k {
        Some(stored[ids.len() - 1])
    } else {
        paired_id(ids.drop_last(), stored, k)
    }
}

fn find_paired(ids: &Vec<u128>, stored: &Vec<u128>, k: u128) -> (r: Option<u128>)
    ensures
        r == paired_id(ids@, stored@, k),
{
    let mut i: usize = ids.len();
    assert(ids@.subrange(0, i as int) =~= ids@);
    while i > 0
        invariant
            i <= ids@.len(),
            paired_id(ids@, stored@, k) == paired_id(ids@.subrange(0, i as int), stored@, k),
        decreases i,
    {
        let ghost pre = ids@.subrange(0, i as int);
        assert(pre.drop_last() =~= ids@.subrange(0, i - 1));
        i = i - 1;
        if i < stored.len() && ids[i] == k {
            return Some(stored[i]);
        }
    }
    None
}

/// The parts of alerts to write, given the alert id of each part: the index
/// of each part whose alert was stored, in order, with the stored alert id
/// (`ids[i]` was stored as `stored[i]`).
pub open spec fn kept_parts(parts: Seq<u128>, ids: Seq<u128>, stored: Seq<u128>) -> Seq<(int, u128)>
    decreases parts.len(),
{
    if parts.len() == 0 {
        Seq::empty()
    } else {
        let p = kept_parts(parts.drop_last(), ids, stored);
        match paired_id(ids, stored, parts.last()) {
            Some(a) => p.push((parts.len() - 1, a)),
            None => p,
        }
    }
}

/// The parts of alerts to write, under the ids their alerts were stored
/// with (see `kept_parts`).
pub fn remap_alert_parts(parts: &Vec<u128>, ids: &Vec<u128>, stored: &Vec<u128>) -> (r: Vec<(usize, u128)>)
    ensures
        r@.len() == kept_parts(parts@, ids@, stored@).len(),
        forall|i: int|
            0 <= i < r@.len() ==> (#[trigger] r@[i]).0 as int == kept_parts(parts@, ids@, stored@)[i].0 && r@[i].1
                == kept_parts(parts@, ids@, stored@)[i].1,
{
    let mut out: Vec<(usize, u128)> = Vec::new();
    let mut i: usize = 0;
    while i < parts.len()
        invariant
            i <= parts@.len(),
            out@.len() == kept_parts(parts@.subrange(0, i as int), ids@, stored@).len(),
            forall|j: int|
                0 <= j < out@.len() ==> (#[trigger] out@[j]).0 as int == kept_parts(
                    parts@.subrange(0, i as int),
                    ids@,
                    stored@,
                )[j].0 && out@[j].1 == kept_parts(parts@.subrange(0, i as int), ids@, stored@)[j].1,
        decreases parts.len() - i,
    {
        let ghost pre = parts@.subrange(0, i as int);
        let ghost cur = parts@.subrange(0, i + 1);
        assert(cur.drop_last() =~= pre);
        assert(cur.last() == parts@[i as int]);
        let ghost o0 = out@;
        match find_paired(ids, stored, parts[i]) {
            Some(a) => {
                out.push((i, a));
                assert forall|j: int| 0 <= j < out@.len() implies (#[trigger] out@[j]).0 as int == kept_parts(
                    cur,
                    ids@,
                    stored@,
                )[j].0 && out@[j].1 == kept_parts(cur, ids@, stored@)[j].1 by {
                    if j < o0.len() {
                        assert(out@[j] == o0[j]);
                    }
                }
            },
            None => {},
        }
        i = i + 1;
    }
    assert(parts@.subrange(0, i as int) =~= parts@);
    out
}

} // verus!
