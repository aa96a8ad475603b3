//! Static data of NJ Transit buses: stop families and route identifiers.
use vstd::prelude::*;

use crate::models::{NjtBusStopData, Route, RouteData, StaticDataset, Stop, StopData};
use crate::source::Source;
use crate::num::{parse_int_spec, parse_u64};
use crate::text::{
    chars_eq, collapse_ws, normalize_title, str_chars, string_from_chars, titlecase_of,
    to_uppercase, uppercase_of,
};

verus! {

/// Sort key value of an id that is not a `u64`: after every numeric id.
pub open spec fn id_num(id: Seq<char>) -> int {
    match parse_int_spec(id, false, 0, u64::MAX as int) {
        Some(v) => v,
        None => u64::MAX as int,
    }
}

/// Lexicographic order of character sequences. For strings this is the
/// order of `str`, since UTF-8 keeps the order of code points.
pub open spec fn seq_lt(a: Seq<char>, b: Seq<char>) -> bool
    decreases a.len(),
{
    if a.len() == 0 {
        b.len() > 0
    } else if b.len() == 0 {
        false
    } else if a[0] != b[0] {
        a[0] < b[0]
    } else {
        seq_lt(a.drop_first(), b.drop_first())
    }
}

/// The text order is irreflexive.
pub proof fn lemma_seq_lt_irrefl(a: Seq<char>)
    ensures
        !seq_lt(a, a),
    decreases a.len(),
{
    if a.len() > 0 {
        lemma_seq_lt_irrefl(a.drop_first());
    }
}

/// The text order is transitive.
pub proof fn lemma_seq_lt_trans(a: Seq<char>, b: Seq<char>, c: Seq<char>)
    requires
        seq_lt(a, b),
        seq_lt(b, c),
    ensures
        seq_lt(a, c),
    decreases a.len(),
{
    if a.len() > 0 && b.len() > 0 && c.len() > 0 && a[0] == b[0] && b[0] == c[0] {
        lemma_seq_lt_trans(a.drop_first(), b.drop_first(), c.drop_first());
    }
}

/// Any two different texts are ordered one way or the other.
pub proof fn lemma_seq_lt_total(a: Seq<char>, b: Seq<char>)
    ensures
        a == b || seq_lt(a, b) || seq_lt(b, a),
    decreases a.len(),
{
    if a.len() > 0 && b.len() > 0 && a[0] == b[0] {
        lemma_seq_lt_total(a.drop_first(), b.drop_first());
        if a.drop_first() == b.drop_first() {
            assert(a =~= seq![a[0]] + a.drop_first());
            assert(b =~= seq![b[0]] + b.drop_first());
        }
    } else if a.len() == 0 && b.len() == 0 {
        assert(a =~= b);
    }
}

/// Only one of two texts can be below the other.
pub proof fn lemma_seq_lt_asym(a: Seq<char>, b: Seq<char>)
    requires
        seq_lt(a, b),
    ensures
        !seq_lt(b, a),
{
    if seq_lt(b, a) {
        lemma_seq_lt_trans(a, b, a);
        lemma_seq_lt_irrefl(a);
    }
}

/// The order of `stop_id_sort_key`: numeric ids by value, then by text.
pub open spec fn key_lt(a: Seq<char>, b: Seq<char>) -> bool {
    id_num(a) < id_num(b) || (id_num(a) == id_num(b) && seq_lt(a, b))
}

/// Deterministic, numeric-aware ordering for stop ids (NJT ids are usually
/// numeric; non-numeric ids sort last, tie-broken lexicographically).
pub fn stop_id_sort_key(id: &str) -> (r: (u64, &str))
    ensures
        r.0 as int == id_num(id@),
        r.1 == id,
{
    let chars = str_chars(id);
    let n = match parse_u64(&chars) {
        Some(v) => v,
        None => u64::MAX,
    };
    (n, id)
}

/// Whether `a` comes before `b` in code point order.
pub fn chars_lt(a: &Vec<char>, b: &Vec<char>) -> (r: bool)
    ensures
        r == seq_lt(a@, b@),
{
    let mut i: usize = 0;
    assert(a@.subrange(0, a@.len() as int) =~= a@);
    assert(b@.subrange(0, b@.len() as int) =~= b@);
    while i < a.len() && i < b.len() && a[i] == b[i]
        invariant
            i <= a@.len(),
            i <= b@.len(),
            seq_lt(a@, b@) == seq_lt(
                a@.subrange(i as int, a@.len() as int),
                b@.subrange(i as int, b@.len() as int),
            ),
        decreases a.len() - i,
    {
        let ghost sa = a@.subrange(i as int, a@.len() as int);
        let ghost sb = b@.subrange(i as int, b@.len() as int);
        assert(sa.drop_first() =~= a@.subrange(i + 1, a@.len() as int));
        assert(sb.drop_first() =~= b@.subrange(i + 1, b@.len() as int));
        i = i + 1;
    }
    proof {
        let sa = a@.subrange(i as int, a@.len() as int);
        let sb = b@.subrange(i as int, b@.len() as int);
        if i < a.len() {
            assert(sa[0] == a@[i as int]);
        }
        if i < b.len() {
            assert(sb[0] == b@[i as int]);
        }
    }
    if i == a.len() {
        i < b.len()
    } else if i == b.len() {
        false
    } else {
        a[i] < b[i]
    }
}

/// The GTFS `location_type` of a stop.
#[derive(Clone, Copy, Debug, PartialEq, Eq, Structural)]
pub enum LocationType {
    StopPoint,
    StopArea,
    StationEntrance,
    GenericNode,
    BoardingArea,
    Unknown,
}

/// A stop of NJ Transit's GTFS feed. Coordinates are carried as the bit
/// patterns of their `f64` values and never computed on.
pub struct GtfsStop {
    pub id: String,
    pub code: Option<String>,
    pub name: Option<String>,
    pub location_type: LocationType,
    pub parent_station: Option<String>,
    pub longitude: Option<u64>,
    pub latitude: Option<u64>,
}

/// The public stop code of a stop, or its id when it has none.
pub open spec fn code_of(s: GtfsStop) -> Seq<char> {
    match s.code {
        Some(c) => c@,
        None => s.id@,
    }
}

/// The distinct stop codes, in order of first appearance.
pub open spec fn codes_in_order(ss: Seq<GtfsStop>) -> Seq<Seq<char>>
    decreases ss.len(),
{
    if ss.len() == 0 {
        Seq::empty()
    } else {
        let c = codes_in_order(ss.drop_last());
        let x = code_of(ss.last());
        if c.contains(x) {
            c
        } else {
            c.push(x)
        }
    }
}

/// The stops that share the stop code `code`, in order.
pub open spec fn members_of(ss: Seq<GtfsStop>, code: Seq<char>) -> Seq<GtfsStop>
    decreases ss.len(),
{
    if ss.len() == 0 {
        Seq::empty()
    } else {
        let m = members_of(ss.drop_last(), code);
        if code_of(ss.last()) == code {
            m.push(ss.last())
        } else {
            m
        }
    }
}

/// The index of the first parent station (`location_type` 1), or the length.
pub open spec fn first_area(ms: Seq<GtfsStop>) -> int
    decreases ms.len(),
{
    if ms.len() == 0 {
        0
    } else if ms[0].location_type == LocationType::StopArea {
        0
    } else {
        1 + first_area(ms.drop_first())
    }
}

/// Whether some member has no parent station.
pub open spec fn has_parentless(ms: Seq<GtfsStop>) -> bool {
    exists|i: int| 0 <= i < ms.len() && (#[trigger] ms[i]).parent_station is None
}

/// Whether member `i` is a candidate representative when no parent station
/// exists: a member without parent station, or any member if there is none.
pub open spec fn in_pool(ms: Seq<GtfsStop>, i: int) -> bool {
    !has_parentless(ms) || ms[i].parent_station is None
}

/// The first member among the first `n` whose id is smallest by `key_lt`
/// within the pool; -1 when the pool has none of them.
pub open spec fn min_index(ms: Seq<GtfsStop>, n: int) -> int
    decreases n,
{
    if n <= 0 {
        -1
    } else {
        let m = min_index(ms, n - 1);
        if in_pool(ms, n - 1) && (m < 0 || key_lt(ms[n - 1].id@, ms[m].id@)) {
            n - 1
        } else {
            m
        }
    }
}

/// The canonical member of a stop-code group: the parent station if there is
/// one, else the smallest id among members without parent station, else the
/// smallest id overall.
pub open spec fn rep_index(ms: Seq<GtfsStop>) -> int {
    if first_area(ms) < ms.len() {
        first_area(ms)
    } else {
        min_index(ms, ms.len() as int)
    }
}

/// The coordinates of a stop when it has both.
pub open spec fn coords_of(s: GtfsStop) -> Option<(u64, u64)> {
    match (s.longitude, s.latitude) {
        (Some(lon), Some(lat)) => Some((lon, lat)),
        _ => None,
    }
}

/// The coordinates of the first member that has both.
pub open spec fn any_coords(ms: Seq<GtfsStop>) -> Option<(u64, u64)>
    decreases ms.len(),
{
    if ms.len() == 0 {
        None
    } else {
        match coords_of(ms[0]) {
            Some(c) => Some(c),
            None => any_coords(ms.drop_first()),
        }
    }
}

/// The coordinates of a group: the representative's, else any member's.
pub open spec fn group_coords(ms: Seq<GtfsStop>) -> Option<(u64, u64)> {
    match coords_of(ms[rep_index(ms)]) {
        Some(c) => Some(c),
        None => any_coords(ms),
    }
}

/// What a collapsed stop holds, as plain values.
pub struct StopSpec {
    pub id: Seq<char>,
    pub name: Seq<char>,
    pub longitude: u64,
    pub latitude: u64,
    pub stop_code: Seq<char>,
}

/// The stored stop of a group with coordinates.
pub open spec fn group_stop(ms: Seq<GtfsStop>, code: Seq<char>) -> StopSpec {
    let r = ms[rep_index(ms)];
    let c = group_coords(ms).unwrap();
    StopSpec {
        id: r.id@,
        name: titlecase_of(
            collapse_ws(
                match r.name {
                    Some(n) => n@,
                    None => r.id@,
                },
            ),
        ),
        longitude: c.0,
        latitude: c.1,
        stop_code: code,
    }
}

/// One stop per stop-code group that has coordinates, groups in order of
/// first appearance.
pub open spec fn group_stops(ss: Seq<GtfsStop>, codes: Seq<Seq<char>>) -> Seq<StopSpec>
    decreases codes.len(),
{
    if codes.len() == 0 {
        Seq::empty()
    } else {
        let prev = group_stops(ss, codes.drop_last());
        let ms = members_of(ss, codes.last());
        if group_coords(ms) is Some {
            prev.push(group_stop(ms, codes.last()))
        } else {
            prev
        }
    }
}

/// The stops with the first of any ids equal up to Unicode case kept.
pub open spec fn dedupe_upper(s: Seq<StopSpec>) -> Seq<StopSpec>
    decreases s.len(),
{
    if s.len() == 0 {
        Seq::empty()
    } else {
        let d = dedupe_upper(s.drop_last());
        if exists|j: int|
            0 <= j < s.len() - 1 && uppercase_of(#[trigger] s[j].id) == uppercase_of(s.last().id) {
            d
        } else {
            d.push(s.last())
        }
    }
}

/// The remap entries of one group: every other member's id to the
/// representative's, in member order.
pub open spec fn group_remap(ms: Seq<GtfsStop>, rep_id: Seq<char>) -> Seq<(Seq<char>, Seq<char>)>
    decreases ms.len(),
{
    if ms.len() == 0 {
        Seq::empty()
    } else {
        let prev = group_remap(ms.drop_last(), rep_id);
        if ms.last().id@ != rep_id {
            prev.push((ms.last().id@, rep_id))
        } else {
            prev
        }
    }
}

/// The remap entries of all groups with coordinates, in group order.
pub open spec fn remap_entries(ss: Seq<GtfsStop>, codes: Seq<Seq<char>>) -> Seq<(Seq<char>, Seq<char>)>
    decreases codes.len(),
{
    if codes.len() == 0 {
        Seq::empty()
    } else {
        let prev = remap_entries(ss, codes.drop_last());
        let ms = members_of(ss, codes.last());
        if group_coords(ms) is Some {
            prev + group_remap(ms, ms[rep_index(ms)].id@)
        } else {
            prev
        }
    }
}

/// The view of a stored stop.
pub open spec fn stop_view(s: Stop) -> StopSpec {
    StopSpec {
        id: s.id@,
        name: s.name@,
        longitude: s.longitude,
        latitude: s.latitude,
        stop_code: match s.data {
            StopData::NjtBus(d) => d.stop_code@,
            _ => Seq::empty(),
        },
    }
}

/// The map from a collapsed stop id to the id of the stop it was folded into.
pub struct StopRemap {
    pub entries: Vec<(String, String)>,
}

/// The value of the first entry with key `k`.
pub open spec fn lookup(es: Seq<(Seq<char>, Seq<char>)>, k: Seq<char>) -> Option<Seq<char>>
    decreases es.len(),
{
    if es.len() == 0 {
        None
    } else if es[0].0 == k {
        Some(es[0].1)
    } else {
        lookup(es.drop_first(), k)
    }
}

impl StopRemap {
    /// The entries as plain values.
    pub open spec fn view_entries(&self) -> Seq<(Seq<char>, Seq<char>)> {
        Seq::new(self.entries@.len(), |i: int| (self.entries@[i].0@, self.entries@[i].1@))
    }

    /// The canonical id that `id` was folded into, if any.
    pub fn get(&self, id: &str) -> (r: Option<&String>)
        ensures
            match r {
                Some(v) => lookup(self.view_entries(), id@) == Some(v@),
                None => lookup(self.view_entries(), id@) is None,
            },
    {
        let key = str_chars(id);
        let mut i: usize = 0;
        let ghost es = self.view_entries();
        assert(es.subrange(0, es.len() as int) =~= es);
        while i < self.entries.len()
            invariant
                i <= es.len(),
                es == self.view_entries(),
                es.len() == self.entries@.len(),
                key@ == id@,
                lookup(es, id@) == lookup(es.subrange(i as int, es.len() as int), id@),
            decreases self.entries.len() - i,
        {
            let ghost rest = es.subrange(i as int, es.len() as int);
            assert(rest[0] == es[i as int]);
            assert(es[i as int] == (self.entries@[i as int].0@, self.entries@[i as int].1@));
            let k = str_chars(self.entries[i].0.as_str());
            assert(k@ == es[i as int].0);
            assert(rest.len() > 0);
            assert(lookup(rest, id@) == if rest[0].0 == id@ {
                Some(rest[0].1)
            } else {
                lookup(rest.drop_first(), id@)
            });
            if chars_eq(k.as_slice(), key.as_slice()) {
                assert(key@ == id@);
                assert(rest[0].0 == id@);
                assert(lookup(rest, id@) === Some(rest[0].1));
                let v = &self.entries[i].1;
                assert(v@ == es[i as int].1);
                return Some(v);
            }
            assert(rest[0].0 != id@);
            assert(lookup(rest, id@) === lookup(rest.drop_first(), id@));
            assert(rest.drop_first() =~= es.subrange(i + 1, es.len() as int));
            i = i + 1;
        }
        None
    }

    /// The id under which a stop is known: the canonical id it was folded
    /// into, or the id itself when the remap does not know it.
    pub fn resolve_stop_id(&self, id: &str) -> (r: String)
        ensures
            r@ == match lookup(self.view_entries(), id@) {
                Some(c) => c,
                None => id@,
            },
    {
        match self.get(id) {
            Some(c) => c.clone(),
            None => id.to_string(),
        }
    }

    /// Whether the remap has no entry.
    pub fn is_empty(&self) -> (b: bool)
        ensures
            b == (self.entries@.len() == 0),
    {
        self.entries.len() == 0
    }
}

/// The members at the given positions.
pub open spec fn pick(stops: Seq<GtfsStop>, idx: Seq<usize>) -> Seq<GtfsStop> {
    Seq::new(idx.len(), |j: int| stops[idx[j] as int])
}

/// Whether every position is within `n`.
pub open spec fn idx_in_bounds(idx: Seq<usize>, n: int) -> bool {
    forall|j: int| 0 <= j < idx.len() ==> (#[trigger] idx[j]) < n
}

/// The stop code of a stop.
fn code_chars(s: &GtfsStop) -> (v: Vec<char>)
    ensures
        v@ == code_of(*s),
{
    match &s.code {
        Some(c) => str_chars(c.as_str()),
        None => str_chars(s.id.as_str()),
    }
}

/// Whether `x` is one of `vs`.
fn contains_chars(vs: &Vec<Vec<char>>, x: &Vec<char>) -> (b: bool)
    ensures
        b == exists|j: int| 0 <= j < vs@.len() && (#[trigger] vs@[j])@ == x@,
{
    let mut i: usize = 0;
    while i < vs.len()
        invariant
            i <= vs@.len(),
            forall|j: int| 0 <= j < i ==> (#[trigger] vs@[j])@ != x@,
        decreases vs.len() - i,
    {
        if chars_eq(vs[i].as_slice(), x.as_slice()) {
            return true;
        }
        i = i + 1;
    }
    false
}

/// The distinct stop codes of `stops`, in order of first appearance.
fn codes_exec(stops: &Vec<GtfsStop>) -> (codes: Vec<Vec<char>>)
    ensures
        codes@.len() == codes_in_order(stops@).len(),
        forall|j: int| 0 <= j < codes@.len() ==> (#[trigger] codes@[j])@ == codes_in_order(stops@)[j],
{
    let mut codes: Vec<Vec<char>> = Vec::new();
    let mut i: usize = 0;
    while i < stops.len()
        invariant
            i <= stops@.len(),
            codes@.len() == codes_in_order(stops@.subrange(0, i as int)).len(),
            forall|j: int|
                0 <= j < codes@.len() ==> (#[trigger] codes@[j])@ == codes_in_order(
                    stops@.subrange(0, i as int),
                )[j],
        decreases stops.len() - i,
    {
        let ghost pre = stops@.subrange(0, i as int);
        let ghost cur = stops@.subrange(0, i + 1);
        assert(cur.drop_last() =~= pre);
        let x = code_chars(&stops[i]);
        let found = contains_chars(&codes, &x);
        proof {
            let c = codes_in_order(pre);
            if found {
                let j = choose|j: int| 0 <= j < codes@.len() && (#[trigger] codes@[j])@ == x@;
                assert(c[j] == x@);
                assert(c.contains(x@));
            } else {
                if c.contains(x@) {
                    let j = choose|j: int| 0 <= j < c.len() && c[j] == x@;
                    assert(codes@[j]@ == x@);
                }
            }
        }
        if !found {
            codes.push(x);
        }
        i = i + 1;
    }
    assert(stops@.subrange(0, i as int) =~= stops@);
    codes
}

/// The positions of the stops with stop code `code`.
fn member_indices(stops: &Vec<GtfsStop>, code: &Vec<char>) -> (idx: Vec<usize>)
    ensures
        idx_in_bounds(idx@, stops@.len() as int),
        pick(stops@, idx@) == members_of(stops@, code@),
{
    let mut idx: Vec<usize> = Vec::new();
    let mut i: usize = 0;
    while i < stops.len()
        invariant
            i <= stops@.len(),
            idx_in_bounds(idx@, i as int),
            pick(stops@, idx@) == members_of(stops@.subrange(0, i as int), code@),
        decreases stops.len() - i,
    {
        let ghost pre = stops@.subrange(0, i as int);
        let ghost cur = stops@.subrange(0, i + 1);
        assert(cur.drop_last() =~= pre);
        let c = code_chars(&stops[i]);
        if chars_eq(c.as_slice(), code.as_slice()) {
            idx.push(i);
            assert(pick(stops@, idx@) =~= members_of(cur, code@));
        } else {
            assert(pick(stops@, idx@) =~= members_of(cur, code@));
        }
        i = i + 1;
    }
    assert(stops@.subrange(0, i as int) =~= stops@);
    idx
}

/// The position in `ms` of its first parent station (or its length).
fn first_area_exec(stops: &Vec<GtfsStop>, idx: &Vec<usize>) -> (k: usize)
    requires
        idx_in_bounds(idx@, stops@.len() as int),
    ensures
        k as int == first_area(pick(stops@, idx@)),
{
    let ghost ms = pick(stops@, idx@);
    let mut k: usize = 0;
    assert(ms.subrange(0, ms.len() as int) =~= ms);
    while k < idx.len()
        invariant
            ms == pick(stops@, idx@),
            idx_in_bounds(idx@, stops@.len() as int),
            k <= ms.len(),
            first_area(ms) == k + first_area(ms.subrange(k as int, ms.len() as int)),
        decreases idx.len() - k,
    {
        let ghost rest = ms.subrange(k as int, ms.len() as int);
        assert(rest[0] == ms[k as int]);
        if stops[idx[k]].location_type == LocationType::StopArea {
            return k;
        }
        assert(rest.drop_first() =~= ms.subrange(k + 1, ms.len() as int));
        k = k + 1;
    }
    k
}

/// Whether some member has no parent station.
fn has_parentless_exec(stops: &Vec<GtfsStop>, idx: &Vec<usize>) -> (b: bool)
    requires
        idx_in_bounds(idx@, stops@.len() as int),
    ensures
        b == has_parentless(pick(stops@, idx@)),
{
    let ghost ms = pick(stops@, idx@);
    let mut k: usize = 0;
    while k < idx.len()
        invariant
            ms == pick(stops@, idx@),
            idx_in_bounds(idx@, stops@.len() as int),
            k <= ms.len(),
            forall|j: int| 0 <= j < k ==> (#[trigger] ms[j]).parent_station is Some,
        decreases idx.len() - k,
    {
        if stops[idx[k]].parent_station.is_none() {
            assert(ms[k as int].parent_station is None);
            return true;
        }
        k = k + 1;
    }
    false
}

/// Whether stop id `a` sorts before stop id `b`.
fn key_less(a: &str, b: &str) -> (r: bool)
    ensures
        r == key_lt(a@, b@),
{
    let (na, _) = stop_id_sort_key(a);
    let (nb, _) = stop_id_sort_key(b);
    if na != nb {
        na < nb
    } else {
        let ca = str_chars(a);
        let cb = str_chars(b);
        chars_lt(&ca, &cb)
    }
}

proof fn lemma_min_index_found(ms: Seq<GtfsStop>, n: int, j: int)
    requires
        0 <= j < n <= ms.len(),
        in_pool(ms, j),
    ensures
        0 <= min_index(ms, n) < n,
    decreases n,
{
    if j < n - 1 {
        lemma_min_index_found(ms, n - 1, j);
    } else {
        if min_index(ms, n - 1) >= 0 {
            lemma_min_index_bounds(ms, n - 1);
        }
    }
}

proof fn lemma_min_index_bounds(ms: Seq<GtfsStop>, n: int)
    requires
        0 <= n <= ms.len(),
    ensures
        -1 <= min_index(ms, n) < n,
        min_index(ms, n) >= 0 ==> in_pool(ms, min_index(ms, n)),
    decreases n,
{
    if n > 0 {
        lemma_min_index_bounds(ms, n - 1);
    }
}

/// The position of the smallest id in the pool of candidate members.
fn min_index_exec(stops: &Vec<GtfsStop>, idx: &Vec<usize>) -> (m: usize)
    requires
        idx_in_bounds(idx@, stops@.len() as int),
        idx@.len() > 0,
    ensures
        m as int == min_index(pick(stops@, idx@), idx@.len() as int),
{
    let ghost ms = pick(stops@, idx@);
    let parentless = has_parentless_exec(stops, idx);
    let mut best: Option<usize> = None;
    let mut k: usize = 0;
    while k < idx.len()
        invariant
            ms == pick(stops@, idx@),
            idx_in_bounds(idx@, stops@.len() as int),
            k <= ms.len(),
            parentless == has_parentless(ms),
            match best {
                Some(b) => b as int == min_index(ms, k as int) && b < k,
                None => min_index(ms, k as int) == -1,
            },
        decreases idx.len() - k,
    {
        let s = &stops[idx[k]];
        assert(ms[k as int] == stops@[idx@[k as int] as int]);
        let pool = !parentless || s.parent_station.is_none();
        assert(pool == in_pool(ms, k as int));
        if pool {
            match best {
                Some(b) => {
                    assert(ms[b as int] == stops@[idx@[b as int] as int]);
                    if key_less(s.id.as_str(), stops[idx[b]].id.as_str()) {
                        best = Some(k);
                    }
                },
                None => {
                    best = Some(k);
                },
            }
        }
        k = k + 1;
    }
    proof {
        if !has_parentless(ms) {
            lemma_min_index_found(ms, ms.len() as int, 0);
        } else {
            let j = choose|j: int| 0 <= j < ms.len() && (#[trigger] ms[j]).parent_station is None;
            lemma_min_index_found(ms, ms.len() as int, j);
        }
    }
    match best {
        Some(b) => b,
        None => 0,
    }
}

proof fn lemma_first_area_bound(ms: Seq<GtfsStop>)
    ensures
        0 <= first_area(ms) <= ms.len(),
    decreases ms.len(),
{
    if ms.len() > 0 && ms[0].location_type != LocationType::StopArea {
        lemma_first_area_bound(ms.drop_first());
    }
}

/// Pick the canonical member of a `stop_code` group:
/// 1. the `location_type=1` parent station, if present;
/// 2. otherwise, among plain stops with no `parent_station`, the smallest id;
/// 3. otherwise the smallest id overall.
fn choose_representative(stops: &Vec<GtfsStop>, idx: &Vec<usize>) -> (k: usize)
    requires
        idx_in_bounds(idx@, stops@.len() as int),
        idx@.len() > 0,
    ensures
        k as int == rep_index(pick(stops@, idx@)),
        k < idx@.len(),
{
    proof {
        lemma_first_area_bound(pick(stops@, idx@));
        lemma_min_index_bounds(pick(stops@, idx@), idx@.len() as int);
    }
    let a = first_area_exec(stops, idx);
    if a < idx.len() {
        a
    } else {
        min_index_exec(stops, idx)
    }
}

/// The coordinates of a stop when it has both.
fn coords_exec(s: &GtfsStop) -> (c: Option<(u64, u64)>)
    ensures
        c == coords_of(*s),
{
    match (s.longitude, s.latitude) {
        (Some(lon), Some(lat)) => Some((lon, lat)),
        _ => None,
    }
}

/// The coordinates of the first member that has both.
fn any_coords_exec(stops: &Vec<GtfsStop>, idx: &Vec<usize>) -> (c: Option<(u64, u64)>)
    requires
        idx_in_bounds(idx@, stops@.len() as int),
    ensures
        c == any_coords(pick(stops@, idx@)),
{
    let ghost ms = pick(stops@, idx@);
    let mut k: usize = 0;
    assert(ms.subrange(0, ms.len() as int) =~= ms);
    while k < idx.len()
        invariant
            ms == pick(stops@, idx@),
            idx_in_bounds(idx@, stops@.len() as int),
            k <= ms.len(),
            any_coords(ms) == any_coords(ms.subrange(k as int, ms.len() as int)),
        decreases idx.len() - k,
    {
        let ghost rest = ms.subrange(k as int, ms.len() as int);
        assert(rest[0] == ms[k as int]);
        let c = coords_exec(&stops[idx[k]]);
        if c.is_some() {
            return c;
        }
        assert(rest.drop_first() =~= ms.subrange(k + 1, ms.len() as int));
        k = k + 1;
    }
    None
}

/// A copy of a stored stop.
fn clone_stop(s: &Stop) -> (r: Stop)
    ensures
        stop_view(r) == stop_view(*s),
{
    let data = match &s.data {
        StopData::NjtBus(d) => StopData::NjtBus(NjtBusStopData { stop_code: d.stop_code.clone() }),
        StopData::MtaSubway(d) => StopData::MtaSubway(d.clone()),
        StopData::MtaBus(d) => StopData::MtaBus(d.clone()),
    };
    Stop {
        id: s.id.clone(),
        name: s.name.clone(),
        longitude: s.longitude,
        latitude: s.latitude,
        data,
    }
}

/// The views of stored stops.
pub open spec fn stops_view(v: Seq<Stop>) -> Seq<StopSpec> {
    Seq::new(v.len(), |i: int| stop_view(v[i]))
}

/// The views of remap entries.
pub open spec fn entries_view(v: Seq<(String, String)>) -> Seq<(Seq<char>, Seq<char>)> {
    Seq::new(v.len(), |i: int| (v[i].0@, v[i].1@))
}

/// Appends the remap entries of one group.
fn push_group_remap(
    out: &mut Vec<(String, String)>,
    stops: &Vec<GtfsStop>,
    idx: &Vec<usize>,
    rep_id: &String,
)
    requires
        idx_in_bounds(idx@, stops@.len() as int),
    ensures
        entries_view(final(out)@) == entries_view(old(out)@) + group_remap(
            pick(stops@, idx@),
            rep_id@,
        ),
{
    let ghost ms = pick(stops@, idx@);
    let ghost base = entries_view(out@);
    let rep = str_chars(rep_id.as_str());
    let mut k: usize = 0;
    assert(group_remap(ms.subrange(0, 0), rep_id@) =~= Seq::<(Seq<char>, Seq<char>)>::empty());
    assert(entries_view(out@) =~= base + group_remap(ms.subrange(0, 0), rep_id@));
    while k < idx.len()
        invariant
            ms == pick(stops@, idx@),
            idx_in_bounds(idx@, stops@.len() as int),
            k <= ms.len(),
            rep@ == rep_id@,
            base == entries_view(old(out)@),
            entries_view(out@) == base + group_remap(ms.subrange(0, k as int), rep_id@),
        decreases idx.len() - k,
    {
        let ghost cur = ms.subrange(0, k + 1);
        assert(cur.drop_last() =~= ms.subrange(0, k as int));
        assert(cur.last() == ms[k as int]);
        let m = &stops[idx[k]];
        assert(ms[k as int] == stops@[idx@[k as int] as int]);
        let mid = str_chars(m.id.as_str());
        if !chars_eq(mid.as_slice(), rep.as_slice()) {
            let ghost before = out@;
            let pair = (m.id.clone(), rep_id.clone());
            assert(pair.0@ == ms[k as int].id@);
            assert(pair.1@ == rep_id@);
            out.push(pair);
            assert(entries_view(out@) =~= entries_view(before).push((ms[k as int].id@, rep_id@)));
            assert(group_remap(cur, rep_id@) == group_remap(ms.subrange(0, k as int), rep_id@).push(
                (ms[k as int].id@, rep_id@),
            ));
            assert(entries_view(out@) =~= base + group_remap(cur, rep_id@));
        } else {
            assert(entries_view(out@) =~= base + group_remap(cur, rep_id@));
        }
        k = k + 1;
    }
    assert(ms.subrange(0, ms.len() as int) =~= ms);
}

/// Collapse the NJT parent/child stop family (a parent station of
/// `location_type=1`, its gate children of `location_type=0`, and a "no-gate"
/// child) into a single canonical stop per public `stop_code`.
///
/// `stop_times.txt` (and the realtime feed) only ever reference the
/// `location_type=0` children, never the parent station, so we pick a
/// representative id per group and remap every other member to it. Returns the
/// canonical stops plus a `child_stop_id -> representative_id` remap (identity
/// members are omitted). Groups come in the order in which their stop codes
/// first appear; a group with no coordinates anywhere is skipped; of stops
/// whose ids differ only in case, the first is kept.
pub fn collapse_stops(stops: &Vec<GtfsStop>) -> (r: (Vec<Stop>, StopRemap))
    ensures
        stops_view(r.0@) == dedupe_upper(group_stops(stops@, codes_in_order(stops@))),
        r.1.view_entries() == remap_entries(stops@, codes_in_order(stops@)),
{
    let codes = codes_exec(stops);
    let ghost cs = codes_in_order(stops@);
    let mut cands: Vec<Stop> = Vec::new();
    let mut remap: Vec<(String, String)> = Vec::new();
    let mut g: usize = 0;
    while g < codes.len()
        invariant
            g <= codes@.len(),
            cs == codes_in_order(stops@),
            codes@.len() == cs.len(),
            forall|j: int| 0 <= j < codes@.len() ==> (#[trigger] codes@[j])@ == cs[j],
            stops_view(cands@) == group_stops(stops@, cs.subrange(0, g as int)),
            entries_view(remap@) == remap_entries(stops@, cs.subrange(0, g as int)),
        decreases codes.len() - g,
    {
        let ghost sub = cs.subrange(0, g + 1);
        assert(sub.drop_last() =~= cs.subrange(0, g as int));
        assert(sub.last() == codes@[g as int]@);
        let code = &codes[g];
        let idx = member_indices(stops, code);
        let ghost ms = pick(stops@, idx@);
        proof {
            // Every listed code has at least one member.
            lemma_code_has_member(stops@, codes@[g as int]@);
        }
        let rep_k = choose_representative(stops, &idx);
        let rep = &stops[idx[rep_k]];
        assert(*rep == ms[rep_index(ms)]);
        let coords = match coords_exec(rep) {
            Some(c) => Some(c),
            None => any_coords_exec(stops, &idx),
        };
        match coords {
            Some((lon, lat)) => {
                let raw_name: &str = match &rep.name {
                    Some(n) => n.as_str(),
                    None => rep.id.as_str(),
                };
                let name = normalize_title(raw_name);
                push_group_remap(&mut remap, stops, &idx, &rep.id);
                let stop_code = string_from_chars(code.as_slice());
                cands.push(
                    Stop {
                        id: rep.id.clone(),
                        name,
                        longitude: lon,
                        latitude: lat,
                        data: StopData::NjtBus(NjtBusStopData { stop_code }),
                    },
                );
                assert(stops_view(cands@) =~= group_stops(stops@, sub));
            },
            None => {
                assert(stops_view(cands@) =~= group_stops(stops@, sub));
            },
        }
        g = g + 1;
    }
    assert(cs.subrange(0, cs.len() as int) =~= cs);
    let ghost all = stops_view(cands@);
    let mut out: Vec<Stop> = Vec::new();
    let mut uppers: Vec<String> = Vec::new();
    let mut i: usize = 0;
    while i < cands.len()
        invariant
            i <= cands@.len(),
            all == stops_view(cands@),
            uppers@.len() == i,
            forall|j: int| 0 <= j < i ==> (#[trigger] uppers@[j])@ == uppercase_of(all[j].id),
            stops_view(out@) == dedupe_upper(all.subrange(0, i as int)),
        decreases cands.len() - i,
    {
        let ghost cur = all.subrange(0, i + 1);
        assert(cur.drop_last() =~= all.subrange(0, i as int));
        let up = to_uppercase(cands[i].id.as_str());
        let mut seen = false;
        let mut j: usize = 0;
        while j < uppers.len()
            invariant
                j <= uppers@.len(),
                uppers@.len() == i,
                !seen ==> forall|q: int| 0 <= q < j ==> (#[trigger] uppers@[q])@ != up@,
                seen ==> exists|q: int| 0 <= q < i && (#[trigger] uppers@[q])@ == up@,
            decreases uppers.len() - j,
        {
            if uppers[j] == up {
                seen = true;
            }
            j = j + 1;
        }
        proof {
            assert(up@ == uppercase_of(cur.last().id));
            if seen {
                let q = choose|q: int| 0 <= q < i && (#[trigger] uppers@[q])@ == up@;
                assert(uppercase_of(cur[q].id) == uppercase_of(cur.last().id));
            } else {
                assert forall|q: int| 0 <= q < cur.len() - 1 implies uppercase_of(
                    #[trigger] cur[q].id,
                ) != uppercase_of(cur.last().id) by {
                    assert(uppers@[q]@ == uppercase_of(all[q].id));
                }
            }
        }
        if !seen {
            out.push(clone_stop(&cands[i]));
        }
        assert(stops_view(out@) =~= dedupe_upper(cur));
        uppers.push(up);
        i = i + 1;
    }
    assert(all.subrange(0, all.len() as int) =~= all);
    (out, StopRemap { entries: remap })
}

proof fn lemma_code_has_member(ss: Seq<GtfsStop>, code: Seq<char>)
    requires
        codes_in_order(ss).contains(code),
    ensures
        members_of(ss, code).len() > 0,
    decreases ss.len(),
{
    if ss.len() > 0 {
        let c = codes_in_order(ss.drop_last());
        if code_of(ss.last()) != code {
            if !c.contains(code_of(ss.last())) {
                let j = choose|j: int| 0 <= j < codes_in_order(ss).len() && codes_in_order(ss)[j] == code;
                assert(j < c.len());
                assert(c[j] == code);
            }
            lemma_code_has_member(ss.drop_last(), code);
        }
    }
}

/// The first value stored under `k`.
pub open spec fn lookup_list(es: Seq<(String, Vec<String>)>, k: Seq<char>) -> Option<Seq<String>>
    decreases es.len(),
{
    if es.len() == 0 {
        None
    } else if es[0].0@ == k {
        Some(es[0].1@)
    } else {
        lookup_list(es.drop_first(), k)
    }
}

/// The first value stored under `k`.
pub open spec fn lookup_str(es: Seq<(String, String)>, k: Seq<char>) -> Option<Seq<char>>
    decreases es.len(),
{
    if es.len() == 0 {
        None
    } else if es[0].0@ == k {
        Some(es[0].1@)
    } else {
        lookup_str(es.drop_first(), k)
    }
}

/// The index of the first candidate equal to `id` up to ASCII case, or the
/// number of candidates.
pub open spec fn first_case_match(cands: Seq<String>, id: Seq<char>) -> int
    decreases cands.len(),
{
    if cands.len() == 0 {
        0
    } else if crate::ids::eq_ignore_ascii_case_spec(cands[0]@, id) {
        0
    } else {
        1 + first_case_match(cands.drop_first(), id)
    }
}

/// The GTFS route id for an ArcGIS line id: the id itself when GTFS knows
/// it; otherwise the GTFS route whose long name matches the line's BUSDV2
/// description (compared by `route_name_key`), preferring, among several, the
/// one equal to the line id up to ASCII case, else the first.
pub open spec fn arcgis_route_spec(
    line_string_id: Seq<char>,
    bus_route_by_id: Seq<(String, String)>,
    by_long_name: Seq<(String, Vec<String>)>,
    gtfs_route_ids: Seq<String>,
) -> Option<Seq<char>> {
    if exists|i: int| 0 <= i < gtfs_route_ids.len() && (#[trigger] gtfs_route_ids[i])@ == line_string_id {
        Some(line_string_id)
    } else {
        match lookup_str(bus_route_by_id, line_string_id) {
            None => None,
            Some(desc) => match lookup_list(by_long_name, crate::ids::route_name_key_spec(desc)) {
                None => None,
                Some(cands) => if cands.len() == 0 {
                    None
                } else if cands.len() == 1 {
                    Some(cands[0]@)
                } else {
                    let k = first_case_match(cands, line_string_id);
                    if k < cands.len() {
                        Some(cands[k]@)
                    } else {
                        Some(cands[0]@)
                    }
                },
            },
        }
    }
}

/// The first value stored under `k`.
fn lookup_str_exec<'a>(es: &'a [(String, String)], k: &Vec<char>) -> (r: Option<&'a String>)
    ensures
        match r {
            Some(v) => lookup_str(es@, k@) == Some(v@),
            None => lookup_str(es@, k@) is None,
        },
{
    let mut i: usize = 0;
    assert(es@.subrange(0, es@.len() as int) =~= es@);
    while i < es.len()
        invariant
            i <= es@.len(),
            lookup_str(es@, k@) == lookup_str(es@.subrange(i as int, es@.len() as int), k@),
        decreases es.len() - i,
    {
        let ghost rest = es@.subrange(i as int, es@.len() as int);
        assert(rest[0] == es@[i as int]);
        let key = str_chars(es[i].0.as_str());
        if chars_eq(key.as_slice(), k.as_slice()) {
            return Some(&es[i].1);
        }
        assert(rest.drop_first() =~= es@.subrange(i + 1, es@.len() as int));
        i = i + 1;
    }
    None
}

/// The first value stored under `k`.
fn lookup_list_exec<'a>(es: &'a [(String, Vec<String>)], k: &Vec<char>) -> (r: Option<&'a Vec<String>>)
    ensures
        match r {
            Some(v) => lookup_list(es@, k@) == Some(v@),
            None => lookup_list(es@, k@) is None,
        },
{
    let mut i: usize = 0;
    assert(es@.subrange(0, es@.len() as int) =~= es@);
    while i < es.len()
        invariant
            i <= es@.len(),
            lookup_list(es@, k@) == lookup_list(es@.subrange(i as int, es@.len() as int), k@),
        decreases es.len() - i,
    {
        let ghost rest = es@.subrange(i as int, es@.len() as int);
        assert(rest[0] == es@[i as int]);
        let key = str_chars(es[i].0.as_str());
        if chars_eq(key.as_slice(), k.as_slice()) {
            return Some(&es[i].1);
        }
        assert(rest.drop_first() =~= es@.subrange(i + 1, es@.len() as int));
        i = i + 1;
    }
    None
}

/// Resolve an ArcGIS `LINE` id to a GTFS route id (see `arcgis_route_spec`).
pub fn map_arcgis_route_id_to_gtfs_route_id(
    line_string_id: &str,
    bus_route_by_id: &[(String, String)],
    gtfs_route_ids_by_long_name: &[(String, Vec<String>)],
    gtfs_route_ids: &[String],
) -> (r: Option<String>)
    ensures
        match r {
            Some(v) => arcgis_route_spec(
                line_string_id@,
                bus_route_by_id@,
                gtfs_route_ids_by_long_name@,
                gtfs_route_ids@,
            ) == Some(v@),
            None => arcgis_route_spec(
                line_string_id@,
                bus_route_by_id@,
                gtfs_route_ids_by_long_name@,
                gtfs_route_ids@,
            ) is None,
        },
{
    let id = str_chars(line_string_id);
    let mut i: usize = 0;
    while i < gtfs_route_ids.len()
        invariant
            i <= gtfs_route_ids@.len(),
            id@ == line_string_id@,
            forall|j: int| 0 <= j < i ==> (#[trigger] gtfs_route_ids@[j])@ != line_string_id@,
        decreases gtfs_route_ids.len() - i,
    {
        let g = str_chars(gtfs_route_ids[i].as_str());
        if chars_eq(g.as_slice(), id.as_slice()) {
            return Some(string_from_chars(id.as_slice()));
        }
        i = i + 1;
    }
    let description = match lookup_str_exec(bus_route_by_id, &id) {
        Some(d) => d,
        None => return None,
    };
    let key = crate::ids::route_name_key(description.as_str());
    let key_chars = str_chars(key.as_str());
    let candidates = match lookup_list_exec(gtfs_route_ids_by_long_name, &key_chars) {
        Some(c) => c,
        None => return None,
    };
    if candidates.len() == 0 {
        return None;
    }
    if candidates.len() == 1 {
        return Some(candidates[0].clone());
    }
    let ghost cs = candidates@;
    let mut k: usize = 0;
    assert(cs.subrange(0, cs.len() as int) =~= cs);
    #[verifier::loop_isolation(false)]
    while k < candidates.len()
        invariant
            k <= cs.len(),
            cs == candidates@,
            id@ == line_string_id@,
            first_case_match(cs, id@) == k + first_case_match(cs.subrange(k as int, cs.len() as int), id@),
        decreases candidates.len() - k,
    {
        let ghost rest = cs.subrange(k as int, cs.len() as int);
        assert(rest[0] == cs[k as int]);
        let c = str_chars(candidates[k].as_str());
        if crate::ids::chars_eq_ignore_ascii_case(&c, &id) {
            return Some(candidates[k].clone());
        }
        assert(rest.drop_first() =~= cs.subrange(k + 1, cs.len() as int));
        k = k + 1;
    }
    Some(candidates[0].clone())
}

/// The default NJ Transit route color.
pub open spec fn njt_default_color() -> Seq<char> {
    seq!['1', 'A', '2', 'B', '5', '7']
}

/// An upper-case hexadecimal digit.
pub open spec fn hex_upper(d: int) -> char {
    if d < 10 {
        ((d + '0' as int) as u32) as char
    } else {
        ((d - 10 + 'A' as int) as u32) as char
    }
}

/// A byte as two upper-case hexadecimal digits.
pub open spec fn hex2(b: u8) -> Seq<char> {
    seq![hex_upper(b as int / 16), hex_upper(b as int % 16)]
}

/// The route color that is stored for a GTFS route color: its upper-case
/// hexadecimal form, unless absent or black, when the NJ Transit default is
/// used.
pub open spec fn njt_color_spec(c: Option<(u8, u8, u8)>) -> Seq<char> {
    match c {
        Some((r, g, b)) => if r == 0 && g == 0 && b == 0 {
            njt_default_color()
        } else {
            hex2(r) + hex2(g) + hex2(b)
        },
        None => njt_default_color(),
    }
}

fn hex_digit(d: u8) -> (c: char)
    requires
        d < 16,
    ensures
        c == hex_upper(d as int),
{
    if d < 10 {
        (d + 48) as char
    } else {
        (d - 10 + 65) as char
    }
}

/// The stored color of an NJ Transit route (`RRGGBB`).
pub fn njt_route_color(color: Option<(u8, u8, u8)>) -> (r: String)
    ensures
        r@ == njt_color_spec(color),
{
    match color {
        Some((r, g, b)) => {
            if r == 0 && g == 0 && b == 0 {
                string_from_chars(&['1', 'A', '2', 'B', '5', '7'])
            } else {
                let v = vec![
                    hex_digit(r / 16),
                    hex_digit(r % 16),
                    hex_digit(g / 16),
                    hex_digit(g % 16),
                    hex_digit(b / 16),
                    hex_digit(b % 16),
                ];
                assert(v@ =~= hex2(r) + hex2(g) + hex2(b));
                string_from_chars(v.as_slice())
            }
        },
        None => string_from_chars(&['1', 'A', '2', 'B', '5', '7']),
    }
}

/// A route of NJ Transit's GTFS feed; the color is its `(r, g, b)`.
pub struct GtfsRoute {
    pub id: String,
    pub long_name: Option<String>,
    pub short_name: Option<String>,
    pub color: Option<(u8, u8, u8)>,
}

/// A name with white space collapsed, or nothing when there is none.
pub open spec fn route_name_text(n: Option<String>) -> Seq<char> {
    match n {
        Some(x) => crate::text::collapse_ws(x@),
        None => Seq::empty(),
    }
}

/// A stored NJ Transit route is the feed's: names with white space collapsed,
/// its color (or NJ Transit blue) and white text.
pub open spec fn njt_route_matches(r: Route, g: GtfsRoute) -> bool {
    &&& r.id@ == g.id@
    &&& r.long_name@ == route_name_text(g.long_name)
    &&& r.short_name@ == route_name_text(g.short_name)
    &&& r.color@ == njt_color_spec(g.color)
    &&& r.text_color@ == crate::models::default_text_color()
    &&& r.data is NjtBus
}

fn route_name_exec(n: &Option<String>) -> (r: String)
    ensures
        r@ == route_name_text(*n),
{
    match n {
        Some(x) => crate::text::normalize_whitespace(x.as_str()),
        None => String::new(),
    }
}

/// The stored routes of the feed's routes, in order.
pub fn build_routes(routes: &Vec<GtfsRoute>) -> (r: Vec<Route>)
    ensures
        r@.len() == routes@.len(),
        forall|i: int| 0 <= i < r@.len() ==> njt_route_matches(#[trigger] r@[i], routes@[i]),
{
    let mut out: Vec<Route> = Vec::new();
    let mut i: usize = 0;
    while i < routes.len()
        invariant
            i <= routes@.len(),
            out@.len() == i,
            forall|j: int| 0 <= j < i ==> njt_route_matches(#[trigger] out@[j], routes@[j]),
        decreases routes.len() - i,
    {
        let g = &routes[i];
        let white = crate::models::text_color_or_default(&None);
        out.push(
            Route {
                id: g.id.clone(),
                long_name: route_name_exec(&g.long_name),
                short_name: route_name_exec(&g.short_name),
                color: njt_route_color(g.color),
                text_color: white,
                data: RouteData::NjtBus,
            },
        );
        i = i + 1;
    }
    out
}

/// The static importer of NJ Transit buses.
pub struct NjtBusStatic;

impl NjtBusStatic {
    /// The source this importer feeds.
    pub fn source(&self) -> (s: Source)
        ensures
            s == Source::NjtBus,
    {
        Source::NjtBus
    }

    /// How often the static data is refreshed, in seconds: daily.
    pub fn refresh_interval_secs(&self) -> (secs: u64)
        ensures
            secs == 60 * 60 * 24,
    {
        60 * 60 * 24
    }

    /// The routes, collapsed stops and route stops of the GTFS feed; the stop
    /// remap is the one `collapse_stops` gave for the same feed, and
    /// `opposites` lists the stop across the street of each route's stops.
    pub fn build_static_dataset(
        &self,
        routes: &Vec<GtfsRoute>,
        trips: &Vec<crate::njt_route_stops::GtfsTrip>,
        stops: Vec<Stop>,
        remap: &StopRemap,
        opposites: &Vec<(String, String, String)>,
    ) -> (d: StaticDataset)
        requires
            crate::njt_route_stops::total_stop_times(trips@) + 1 < u64::MAX,
        ensures
            d.source == Source::NjtBus,
            d.routes@.len() == routes@.len(),
            forall|i: int| 0 <= i < d.routes@.len() ==> njt_route_matches(#[trigger] d.routes@[i], routes@[i]),
            d.stops@ == stops@,
            Seq::new(d.route_stops@.len(), |i: int| crate::njt_route_stops::njt_row_view(d.route_stops@[i]))
                == crate::njt_route_stops::njt_route_stops_spec(trips@, remap.view_entries(), opposites@),
            d.shapes@.len() == 0,
    {
        StaticDataset {
            source: Source::NjtBus,
            routes: build_routes(routes),
            stops,
            route_stops: crate::njt_route_stops::build_route_stops(trips, remap, opposites),
            shapes: Vec::new(),
        }
    }
}

} // verus!
