//! The route import: subway routes from the static GTFS feed with their
//! shapes, and bus routes with their stops from the bus tracker.
use vstd::prelude::*;

use crate::ids::{find_char, first_index, slice_chars, tail_from};
use crate::text::{chars_eq, str_chars, string_from_chars};

verus! {

/// The kind of a route.
#[derive(Debug, Clone, Copy, PartialEq, Eq, Structural)]
pub enum RouteType {
    Train,
    Bus,
}

/// The name of a route kind in cache keys (`stops_Train`, `routes_Bus`).
pub open spec fn route_type_text(t: RouteType) -> Seq<char> {
    match t {
        RouteType::Train => seq!['T', 'r', 'a', 'i', 'n'],
        RouteType::Bus => seq!['B', 'u', 's'],
    }
}

/// The name of a route kind (see `route_type_text`).
pub fn route_type_name(t: RouteType) -> (r: String)
    ensures
        r@ == route_type_text(t),
{
    match t {
        RouteType::Train => {
            let v = ['T', 'r', 'a', 'i', 'n'];
            assert(v@ =~= seq!['T', 'r', 'a', 'i', 'n']);
            string_from_chars(&v)
        },
        RouteType::Bus => {
            let v = ['B', 'u', 's'];
            assert(v@ =~= seq!['B', 'u', 's']);
            string_from_chars(&v)
        },
    }
}

/// A route as the route import stores it (its geometry is kept beside it).
#[derive(Debug, Clone)]
pub struct StoredRoute {
    pub id: String,
    pub long_name: String,
    pub short_name: String,
    pub color: String,
    pub shuttle: bool,
    pub route_type: RouteType,
}

/// A route of the static subway feed.
#[derive(Debug, Clone)]
pub struct GtfsRoute {
    pub route_id: String,
    pub route_short_name: String,
    pub route_long_name: String,
    pub route_color: String,
}

/// The color of a subway route: the feed lacks those of the Staten Island
/// Railway (`0F61A9`, from the MTA's site) and of the Franklin and Rockaway
/// shuttles (`6D6E71`, the 42 St shuttle's).
pub open spec fn train_route_color(route_id: Seq<char>, color: Seq<char>) -> Seq<char> {
    if route_id == seq!['S', 'I'] {
        seq!['0', 'F', '6', '1', 'A', '9']
    } else if route_id == seq!['F', 'S'] || route_id == seq!['H'] {
        seq!['6', 'D', '6', 'E', '7', '1']
    } else {
        color
    }
}

/// The stored route of a subway route of the static feed; express variants
/// (ids ending in `X`) are left out.
pub fn train_route(r: &GtfsRoute) -> (out: Option<StoredRoute>)
    ensures
        out is None <==> (r.route_id@.len() > 0 && r.route_id@.last() == 'X'),
        out matches Some(x) ==> {
            &&& x.id@ == r.route_id@
            &&& x.long_name@ == r.route_long_name@
            &&& x.short_name@ == r.route_short_name@
            &&& x.color@ == train_route_color(r.route_id@, r.route_color@)
            &&& !x.shuttle
            &&& x.route_type == RouteType::Train
        },
{
    let id = str_chars(r.route_id.as_str());
    if id.len() > 0 && id[id.len() - 1] == 'X' {
        return None;
    }
    let si = ['S', 'I'];
    let fs = ['F', 'S'];
    let h = ['H'];
    let si_color = ['0', 'F', '6', '1', 'A', '9'];
    let shuttle_color = ['6', 'D', '6', 'E', '7', '1'];
    assert(si@ =~= seq!['S', 'I']);
    assert(fs@ =~= seq!['F', 'S']);
    assert(h@ =~= seq!['H']);
    assert(si_color@ =~= seq!['0', 'F', '6', '1', 'A', '9']);
    assert(shuttle_color@ =~= seq!['6', 'D', '6', 'E', '7', '1']);
    let color = if chars_eq(id.as_slice(), &si) {
        string_from_chars(&si_color)
    } else if chars_eq(id.as_slice(), &fs) || chars_eq(id.as_slice(), &h) {
        string_from_chars(&shuttle_color)
    } else {
        r.route_color.clone()
    };
    Some(
        StoredRoute {
            id: r.route_id.clone(),
            long_name: r.route_long_name.clone(),
            short_name: r.route_short_name.clone(),
            color,
            shuttle: false,
            route_type: RouteType::Train,
        },
    )
}

/// The route a shape id belongs to: the text before its first `.`
/// (`A..N43R` belongs to `A`).
pub open spec fn shape_route(id: Seq<char>) -> Seq<char> {
    id.subrange(0, first_index(id, '.'))
}

/// Where the run of points of route `k` that starts at `a` ends.
pub open spec fn run_end(ids: Seq<Seq<char>>, a: int, k: Seq<char>) -> int
    decreases ids.len() - a,
{
    if a < 0 || a >= ids.len() || shape_route(ids[a]) != k {
        a
    } else {
        run_end(ids, a + 1, k)
    }
}

proof fn lemma_run_end(ids: Seq<Seq<char>>, a: int, b: int, k: Seq<char>)
    requires
        0 <= a <= b <= ids.len(),
        forall|j: int| a <= j < b ==> shape_route(#[trigger] ids[j]) == k,
        b == ids.len() || shape_route(ids[b]) != k,
    ensures
        run_end(ids, a, k) == b,
    decreases b - a,
{
    if a < b {
        lemma_run_end(ids, a + 1, b, k);
    }
}

/// The last position in `[a, j)` whose shape id is `t`.
pub open spec fn last_point(ids: Seq<Seq<char>>, t: Seq<char>, a: int, j: int) -> Option<int>
    decreases j - a,
{
    if j <= a {
        None
    } else if ids[j - 1] == t {
        Some(j - 1)
    } else {
        last_point(ids, t, a, j - 1)
    }
}

/// The segments of a run `[a, j)`: each pair of neighbouring points of the
/// run's first shape (points of other shapes in between are passed over).
pub open spec fn run_segments(ids: Seq<Seq<char>>, t: Seq<char>, a: int, j: int) -> Seq<(int, int)>
    decreases j - a,
{
    if j <= a {
        Seq::empty()
    } else {
        let p = run_segments(ids, t, a, j - 1);
        if ids[j - 1] == t {
            match last_point(ids, t, a, j - 1) {
                Some(q) => p.push((q, j - 1)),
                None => p,
            }
        } else {
            p
        }
    }
}

/// The runs of points with the same route from `a` on, with their segments.
pub open spec fn runs_from(ids: Seq<Seq<char>>, a: int) -> Seq<(Seq<char>, Seq<(int, int)>)>
    decreases ids.len() - a,
{
    if a < 0 || a >= ids.len() {
        Seq::empty()
    } else {
        let k = shape_route(ids[a]);
        let b = run_end(ids, a + 1, k);
        if b <= a || b > ids.len() {
            Seq::empty()
        } else {
            seq![(k, run_segments(ids, ids[a], a, b))] + runs_from(ids, b)
        }
    }
}

proof fn lemma_run_end_bounds(ids: Seq<Seq<char>>, a: int, k: Seq<char>)
    requires
        0 <= a <= ids.len(),
    ensures
        a <= run_end(ids, a, k) <= ids.len(),
    decreases ids.len() - a,
{
    if a < ids.len() && shape_route(ids[a]) == k {
        lemma_run_end_bounds(ids, a + 1, k);
    }
}

/// The geometry kept per route: a later run of a route replaces an earlier
/// one; routes come in the order of their first run.
pub open spec fn keep_last_run(runs: Seq<(Seq<char>, Seq<(int, int)>)>) -> Seq<(Seq<char>, Seq<(int, int)>)>
    decreases runs.len(),
{
    if runs.len() == 0 {
        Seq::empty()
    } else {
        let m = keep_last_run(runs.drop_last());
        let r = runs.last();
        match route_index(m, r.0) {
            Some(i) => m.update(i, r),
            None => m.push(r),
        }
    }
}

/// The position of route `k` among kept geometries.
pub open spec fn route_index(m: Seq<(Seq<char>, Seq<(int, int)>)>, k: Seq<char>) -> Option<int>
    decreases m.len(),
{
    if m.len() == 0 {
        None
    } else if m.last().0 == k {
        Some(m.len() - 1)
    } else {
        route_index(m.drop_last(), k)
    }
}

proof fn lemma_route_index(m: Seq<(Seq<char>, Seq<(int, int)>)>, k: Seq<char>)
    ensures
        route_index(m, k) matches Some(i) ==> 0 <= i < m.len() && m[i].0 == k,
        route_index(m, k) is None ==> forall|i: int| 0 <= i < m.len() ==> (#[trigger] m[i]).0 != k,
    decreases m.len(),
{
    if m.len() > 0 {
        lemma_route_index(m.drop_last(), k);
        if route_index(m, k) is None {
            assert forall|i: int| 0 <= i < m.len() implies (#[trigger] m[i]).0 != k by {
                if i < m.len() - 1 {
                    assert(m[i] == m.drop_last()[i]);
                }
            }
        }
    }
}

/// The route of the J train, whose geometry the Z train shares.
pub open spec fn j_route() -> Seq<char> {
    seq!['J']
}

/// The Z train's route id.
pub open spec fn z_route() -> Seq<char> {
    seq!['Z']
}

/// The subway geometry of the static feed's shape points (given by their
/// shape ids, in file order): per route, the segments of the first shape of
/// its last run of points (see `runs_from` and `keep_last_run`), then the Z
/// train's set to the J train's.
pub open spec fn route_shapes(ids: Seq<Seq<char>>) -> Seq<(Seq<char>, Seq<(int, int)>)> {
    let m = keep_last_run(runs_from(ids, 0));
    let j = m[route_index(m, j_route()).unwrap()].1;
    match route_index(m, z_route()) {
        Some(i) => m.update(i, (z_route(), j)),
        None => m.push((z_route(), j)),
    }
}

/// The inputs on which building the geometry does not stop the program:
/// every shape id has a `.`, and the J train has geometry.
pub open spec fn route_shapes_defined(ids: Seq<Seq<char>>) -> bool {
    &&& forall|i: int| 0 <= i < ids.len() ==> first_index(#[trigger] ids[i], '.') < ids[i].len()
    &&& route_index(keep_last_run(runs_from(ids, 0)), j_route()) is Some
}

/// The view of route geometries.
pub open spec fn shapes_view(v: Seq<(String, Vec<(usize, usize)>)>) -> Seq<(Seq<char>, Seq<(int, int)>)> {
    Seq::new(v.len(), |i: int| (v[i].0@, Seq::new(v[i].1@.len(), |j: int| (v[i].1@[j].0 as int, v[i].1@[j].1 as int))))
}

fn find_route(m: &Vec<(String, Vec<(usize, usize)>)>, k: &Vec<char>) -> (r: Option<usize>)
    ensures
        match r {
            Some(i) => route_index(shapes_view(m@), k@) == Some(i as int),
            None => route_index(shapes_view(m@), k@) is None,
        },
{
    let ghost mv = shapes_view(m@);
    let mut i: usize = m.len();
    assert(mv.subrange(0, i as int) =~= mv);
    while i > 0
        invariant
            i <= m@.len(),
            mv == shapes_view(m@),
            route_index(mv, k@) == route_index(mv.subrange(0, i as int), k@),
        decreases i,
    {
        let ghost pre = mv.subrange(0, i as int);
        assert(pre.drop_last() =~= mv.subrange(0, i - 1));
        assert(pre.last() == mv[i - 1]);
        i = i - 1;
        let c = str_chars(m[i].0.as_str());
        if chars_eq(c.as_slice(), k.as_slice()) {
            return Some(i);
        }
    }
    None
}

fn segments_of(ids: &Vec<Vec<char>>, a: usize, b: usize) -> (r: Vec<(usize, usize)>)
    requires
        a < b <= ids@.len(),
    ensures
        Seq::new(r@.len(), |j: int| (r@[j].0 as int, r@[j].1 as int)) == run_segments(
            Seq::new(ids@.len(), |i: int| ids@[i]@),
            ids@[a as int]@,
            a as int,
            b as int,
        ),
{
    let ghost iv = Seq::new(ids@.len(), |i: int| ids@[i]@);
    let ghost t = ids@[a as int]@;
    let mut out: Vec<(usize, usize)> = Vec::new();
    let mut prev: Option<usize> = None;
    let mut j: usize = a;
    while j < b
        invariant
            a <= j <= b <= ids@.len(),
            iv == Seq::new(ids@.len(), |i: int| ids@[i]@),
            t == ids@[a as int]@,
            Seq::new(out@.len(), |x: int| (out@[x].0 as int, out@[x].1 as int)) == run_segments(iv, t, a as int, j as int),
            match prev {
                Some(p) => last_point(iv, t, a as int, j as int) == Some(p as int),
                None => last_point(iv, t, a as int, j as int) is None,
            },
        decreases b - j,
    {
        let ghost o0 = Seq::new(out@.len(), |x: int| (out@[x].0 as int, out@[x].1 as int));
        if chars_eq(ids[j].as_slice(), ids[a].as_slice()) {
            assert(iv[j as int] == t);
            match prev {
                Some(p) => {
                    out.push((p, j));
                    assert(Seq::new(out@.len(), |x: int| (out@[x].0 as int, out@[x].1 as int)) =~= o0.push(
                        (p as int, j as int),
                    ));
                },
                None => {},
            }
            prev = Some(j);
        } else {
            assert(iv[j as int] != t);
        }
        j = j + 1;
    }
    out
}

fn copy_pairs(v: &Vec<(usize, usize)>) -> (r: Vec<(usize, usize)>)
    ensures
        r@ == v@,
{
    let mut out: Vec<(usize, usize)> = Vec::new();
    let mut i: usize = 0;
    while i < v.len()
        invariant
            i <= v@.len(),
            out@ == v@.subrange(0, i as int),
        decreases v.len() - i,
    {
        out.push(v[i]);
        i = i + 1;
        assert(out@ =~= v@.subrange(0, i as int));
    }
    assert(v@.subrange(0, i as int) =~= v@);
    out
}

fn runs_by_route(shape_ids: &Vec<String>) -> (r: Vec<(String, Vec<(usize, usize)>)>)
    requires
        forall|i: int| 0 <= i < shape_ids@.len() ==> first_index(#[trigger] shape_ids@[i]@, '.') < shape_ids@[i]@.len(),
    ensures
        shapes_view(r@) == keep_last_run(runs_from(Seq::new(shape_ids@.len(), |i: int| shape_ids@[i]@), 0)),
{
    let ghost iv = Seq::new(shape_ids@.len(), |i: int| shape_ids@[i]@);
    let mut ids: Vec<Vec<char>> = Vec::new();
    let mut keys: Vec<Vec<char>> = Vec::new();
    let mut i: usize = 0;
    while i < shape_ids.len()
        invariant
            i <= shape_ids@.len(),
            iv == Seq::new(shape_ids@.len(), |x: int| shape_ids@[x]@),
            forall|x: int| 0 <= x < iv.len() ==> first_index(#[trigger] iv[x], '.') < iv[x].len(),
            ids@.len() == i,
            keys@.len() == i,
            forall|x: int| 0 <= x < i ==> (#[trigger] ids@[x])@ == iv[x],
            forall|x: int| 0 <= x < i ==> (#[trigger] keys@[x])@ == shape_route(iv[x]),
        decreases shape_ids.len() - i,
    {
        let c = str_chars(shape_ids[i].as_str());
        let k = find_char(&c, '.');
        keys.push(slice_chars(&c, 0, k));
        ids.push(c);
        i = i + 1;
    }
    assert(Seq::new(ids@.len(), |x: int| ids@[x]@) =~= iv);
    let n = ids.len();
    let mut m: Vec<(String, Vec<(usize, usize)>)> = Vec::new();
    let ghost mut done: Seq<(Seq<char>, Seq<(int, int)>)> = Seq::empty();
    let mut a: usize = 0;
    while a < n
        invariant
            a <= n == ids@.len() == keys@.len() == iv.len(),
            iv == Seq::new(ids@.len(), |x: int| ids@[x]@),
            forall|x: int| 0 <= x < n ==> (#[trigger] keys@[x])@ == shape_route(iv[x]),
            runs_from(iv, 0) == done + runs_from(iv, a as int),
            shapes_view(m@) == keep_last_run(done),
        decreases n - a,
    {
        let mut b: usize = a + 1;
        while b < n && chars_eq(keys[b].as_slice(), keys[a].as_slice())
            invariant
                a < b <= n == keys@.len() == iv.len(),
                forall|x: int| 0 <= x < n ==> (#[trigger] keys@[x])@ == shape_route(iv[x]),
                forall|x: int| a + 1 <= x < b ==> shape_route(#[trigger] iv[x]) == shape_route(iv[a as int]),
            decreases n - b,
        {
            b = b + 1;
        }
        proof {
            lemma_run_end(iv, a + 1, b as int, shape_route(iv[a as int]));
            lemma_run_end_bounds(iv, a + 1, shape_route(iv[a as int]));
            assert(runs_from(iv, a as int) == seq![(shape_route(iv[a as int]), run_segments(iv, iv[a as int], a as int, b as int))] + runs_from(iv, b as int));
        }
        let segs = segments_of(&ids, a, b);
        let ghost run = (shape_route(iv[a as int]), run_segments(iv, iv[a as int], a as int, b as int));
        let ghost m0 = shapes_view(m@);
        proof {
            assert(done.push(run) + runs_from(iv, b as int) =~= done + (seq![run] + runs_from(iv, b as int)));
            assert(done.push(run).drop_last() =~= done);
            lemma_route_index(m0, run.0);
        }
        match find_route(&m, &keys[a]) {
            Some(x) => {
                m.set(x, (string_from_chars(keys[a].as_slice()), segs));
                assert(shapes_view(m@) =~= m0.update(x as int, run));
            },
            None => {
                m.push((string_from_chars(keys[a].as_slice()), segs));
                assert(shapes_view(m@) =~= m0.push(run));
            },
        }
        proof {
            done = done.push(run);
        }
        a = b;
    }
    proof {
        assert(runs_from(iv, n as int) =~= Seq::<(Seq<char>, Seq<(int, int)>)>::empty());
        assert(done + Seq::<(Seq<char>, Seq<(int, int)>)>::empty() =~= done);
    }
    m
}

fn with_z_from_j(m: Vec<(String, Vec<(usize, usize)>)>) -> (r: Vec<(String, Vec<(usize, usize)>)>)
    requires
        route_index(shapes_view(m@), j_route()) is Some,
    ensures
        shapes_view(r@) == ({
            let mv = shapes_view(m@);
            let j = mv[route_index(mv, j_route()).unwrap()].1;
            match route_index(mv, z_route()) {
                Some(i) => mv.update(i, (z_route(), j)),
                None => mv.push((z_route(), j)),
            }
        }),
{
    let mut m = m;
    let jk = vec!['J'];
    let zk = vec!['Z'];
    assert(jk@ =~= j_route());
    assert(zk@ =~= z_route());
    let ghost mv = shapes_view(m@);
    proof {
        lemma_route_index(mv, j_route());
    }
    let jx = find_route(&m, &jk).unwrap();
    let jsegs = copy_pairs(&m[jx].1);
    proof {
        lemma_route_index(mv, z_route());
    }
    match find_route(&m, &zk) {
        Some(x) => {
            m.set(x, (string_from_chars(zk.as_slice()), jsegs));
            assert(shapes_view(m@) =~= mv.update(x as int, (z_route(), mv[jx as int].1)));
        },
        None => {
            m.push((string_from_chars(zk.as_slice()), jsegs));
            assert(shapes_view(m@) =~= mv.push((z_route(), mv[jx as int].1)));
        },
    }
    m
}

/// The subway geometry of the static feed's shape points (see
/// `route_shapes`), as index pairs into the points.
pub fn shape_segments(shape_ids: &Vec<String>) -> (r: Vec<(String, Vec<(usize, usize)>)>)
    requires
        route_shapes_defined(Seq::new(shape_ids@.len(), |i: int| shape_ids@[i]@)),
    ensures
        shapes_view(r@) == route_shapes(Seq::new(shape_ids@.len(), |i: int| shape_ids@[i]@)),
{
    proof {
        let iv = Seq::new(shape_ids@.len(), |i: int| shape_ids@[i]@);
        assert forall|x: int| 0 <= x < shape_ids@.len() implies first_index(#[trigger] shape_ids@[x]@, '.')
            < shape_ids@[x]@.len() by {
            assert(iv[x] == shape_ids@[x]@);
        }
    }
    let m = runs_by_route(shape_ids);
    with_z_from_j(m)
}

/// The subway geometry of the static feed's shape points (see
/// `shape_segments`), or `None` when building it would stop the program (a
/// shape id without `.`, or no J train geometry).
pub fn try_shape_segments(shape_ids: &Vec<String>) -> (r: Option<Vec<(String, Vec<(usize, usize)>)>>)
    ensures
        r is Some <==> route_shapes_defined(Seq::new(shape_ids@.len(), |i: int| shape_ids@[i]@)),
        r matches Some(v) ==> shapes_view(v@) == route_shapes(Seq::new(shape_ids@.len(), |i: int| shape_ids@[i]@)),
{
    let ghost iv = Seq::new(shape_ids@.len(), |i: int| shape_ids@[i]@);
    let mut i: usize = 0;
    while i < shape_ids.len()
        invariant
            i <= shape_ids@.len(),
            iv == Seq::new(shape_ids@.len(), |x: int| shape_ids@[x]@),
            forall|x: int| 0 <= x < i ==> first_index(#[trigger] iv[x], '.') < iv[x].len(),
        decreases shape_ids.len() - i,
    {
        let c = str_chars(shape_ids[i].as_str());
        if find_char(&c, '.') >= c.len() {
            assert(iv[i as int] == c@);
            return None;
        }
        i = i + 1;
    }
    proof {
        let iv = Seq::new(shape_ids@.len(), |i: int| shape_ids@[i]@);
        assert forall|x: int| 0 <= x < shape_ids@.len() implies first_index(#[trigger] shape_ids@[x]@, '.')
            < shape_ids@[x]@.len() by {
            assert(iv[x] == shape_ids@[x]@);
        }
    }
    let m = runs_by_route(shape_ids);
    let jk = vec!['J'];
    assert(jk@ =~= j_route());
    if find_route(&m, &jk).is_none() {
        return None;
    }
    Some(with_z_from_j(m))
}

/// A bus route as the bus tracker lists it (`route_type` 3 is a bus, 711 a
/// shuttle).
#[derive(Debug, Clone)]
pub struct AgencyBusRoute {
    pub color: String,
    pub id: String,
    pub long_name: String,
    pub short_name: String,
    pub route_type: i32,
}

/// The white a bus route without a color is drawn in.
pub open spec fn white() -> Seq<char> {
    seq!['F', 'F', 'F', 'F', 'F', 'F']
}

/// The stored route of a bus route: its id without the agency prefix,
/// shuttle when its type is 711, and white when it has no color.
pub fn bus_route(r: &AgencyBusRoute) -> (out: StoredRoute)
    requires
        first_index(r.id@, '_') < r.id@.len(),
    ensures
        out.id@ == tail_from(r.id@, first_index(r.id@, '_') + 1),
        out.long_name@ == r.long_name@,
        out.short_name@ == r.short_name@,
        out.color@ == if r.color@.len() == 0 {
            white()
        } else {
            r.color@
        },
        out.shuttle == (r.route_type == 711),
        out.route_type == RouteType::Bus,
{
    let id = str_chars(r.id.as_str());
    assert(id@ == r.id@);
    let k = find_char(&id, '_');
    assert(k < id.len());
    let rest = slice_chars(&id, k + 1, id.len());
    let color = if str_chars(r.color.as_str()).len() == 0 {
        let w = ['F', 'F', 'F', 'F', 'F', 'F'];
        assert(w@ =~= white());
        string_from_chars(&w)
    } else {
        r.color.clone()
    };
    StoredRoute {
        id: string_from_chars(rest.as_slice()),
        long_name: r.long_name.clone(),
        short_name: r.short_name.clone(),
        color,
        shuttle: r.route_type == 711,
        route_type: RouteType::Bus,
    }
}

/// A group of stops of a bus route in one direction (`id` 0 or 1).
#[derive(Debug, Clone)]
pub struct StopGroup {
    pub id: i32,
    pub name: String,
    pub stop_ids: Vec<i32>,
}

/// A bus stop of a route, with its place in its direction's list.
#[derive(Debug, Clone)]
pub struct BusRouteStop {
    pub route_id: String,
    pub stop_id: i32,
    pub stop_sequence: i16,
    pub headsign: String,
    pub direction: i16,
}

/// The view of a route stop.
pub open spec fn route_stop_view(r: BusRouteStop) -> (Seq<char>, i32, i16, Seq<char>, i16) {
    (r.route_id@, r.stop_id, r.stop_sequence, r.headsign@, r.direction)
}

/// The route stops of a bus route's stop groups, group by group: each stop
/// with its index in its group, the group's name as headsign and its id as
/// direction (both indices taken as `i16`).
pub open spec fn group_route_stops(route_id: Seq<char>, gs: Seq<StopGroup>) -> Seq<(Seq<char>, i32, i16, Seq<char>, i16)>
    decreases gs.len(),
{
    if gs.len() == 0 {
        Seq::empty()
    } else {
        let g = gs.last();
        group_route_stops(route_id, gs.drop_last()) + Seq::new(
            g.stop_ids@.len(),
            |j: int| (route_id, g.stop_ids@[j], j as i16, g.name@, g.id as i16),
        )
    }
}

/// The route stops of a bus route's stop groups (see `group_route_stops`).
pub fn bus_route_stops(route_id: &str, groups: &Vec<StopGroup>) -> (r: Vec<BusRouteStop>)
    ensures
        Seq::new(r@.len(), |i: int| route_stop_view(r@[i])) == group_route_stops(route_id@, groups@),
{
    let mut out: Vec<BusRouteStop> = Vec::new();
    let mut i: usize = 0;
    while i < groups.len()
        invariant
            i <= groups@.len(),
            Seq::new(out@.len(), |x: int| route_stop_view(out@[x])) == group_route_stops(
                route_id@,
                groups@.subrange(0, i as int),
            ),
        decreases groups.len() - i,
    {
        let ghost pre = groups@.subrange(0, i as int);
        let ghost cur = groups@.subrange(0, i + 1);
        assert(cur.drop_last() =~= pre);
        let g = &groups[i];
        let ghost base = Seq::new(out@.len(), |x: int| route_stop_view(out@[x]));
        let ghost block = Seq::new(
            g.stop_ids@.len(),
            |j: int| (route_id@, g.stop_ids@[j], j as i16, g.name@, g.id as i16),
        );
        let mut j: usize = 0;
        while j < g.stop_ids.len()
            invariant
                j <= g.stop_ids@.len(),
                block == Seq::new(
                    g.stop_ids@.len(),
                    |x: int| (route_id@, g.stop_ids@[x], x as i16, g.name@, g.id as i16),
                ),
                Seq::new(out@.len(), |x: int| route_stop_view(out@[x])) == base + block.subrange(0, j as int),
            decreases g.stop_ids.len() - j,
        {
            let ghost o0 = Seq::new(out@.len(), |x: int| route_stop_view(out@[x]));
            out.push(
                BusRouteStop {
                    route_id: string_from_chars(str_chars(route_id).as_slice()),
                    stop_id: g.stop_ids[j],
                    stop_sequence: j as i16,
                    headsign: g.name.clone(),
                    direction: g.id as i16,
                },
            );
            assert(Seq::new(out@.len(), |x: int| route_stop_view(out@[x])) =~= o0.push(block[j as int]));
            j = j + 1;
            assert(base + block.subrange(0, j as int) =~= (base + block.subrange(0, j - 1)).push(block[j - 1]));
        }
        assert(block.subrange(0, j as int) =~= block);
        i = i + 1;
    }
    assert(groups@.subrange(0, i as int) =~= groups@);
    out
}

/// How many leading route stops have a stop id not above `x`.
pub open spec fn stop_le_prefix(s: Seq<BusRouteStop>, x: i32) -> int
    decreases s.len(),
{
    if s.len() == 0 {
        0
    } else if s[0].stop_id <= x {
        1 + stop_le_prefix(s.drop_first(), x)
    } else {
        0
    }
}

/// Route stops sorted by stop id, stably: each goes in after the leading
/// ones whose stop id is not above its own.
pub open spec fn sort_by_stop(a: Seq<BusRouteStop>) -> Seq<BusRouteStop>
    decreases a.len(),
{
    if a.len() == 0 {
        Seq::empty()
    } else {
        let s = sort_by_stop(a.drop_last());
        s.insert(stop_le_prefix(s, a.last().stop_id), a.last())
    }
}

/// Two route stops are for the same stop of the same route.
pub open spec fn same_route_stop(a: BusRouteStop, b: BusRouteStop) -> bool {
    a.stop_id == b.stop_id && a.route_id@ == b.route_id@
}

/// Whether a route stop for the same stop of the same route as `x` is in `p`.
pub open spec fn has_route_stop(p: Seq<BusRouteStop>, x: BusRouteStop) -> bool {
    exists|j: int| 0 <= j < p.len() && same_route_stop(#[trigger] p[j], x)
}

/// A list with each stop of each route kept once: an entry is dropped when
/// an entry for the same stop and route was kept before it.
pub open spec fn dedup_pairs(s: Seq<BusRouteStop>) -> Seq<BusRouteStop>
    decreases s.len(),
{
    if s.len() == 0 {
        Seq::empty()
    } else {
        let p = dedup_pairs(s.drop_last());
        if has_route_stop(p, s.last()) {
            p
        } else {
            p.push(s.last())
        }
    }
}

/// Route stops in order of stop id.
pub open spec fn stops_sorted(s: Seq<BusRouteStop>) -> bool {
    forall|i: int, j: int| 0 <= i < j < s.len() ==> (#[trigger] s[i]).stop_id <= (#[trigger] s[j]).stop_id
}

proof fn lemma_dedup_pairs_distinct(s: Seq<BusRouteStop>)
    ensures
        forall|i: int, j: int|
            0 <= i < j < dedup_pairs(s).len() ==> !same_route_stop(
                #[trigger] dedup_pairs(s)[i],
                #[trigger] dedup_pairs(s)[j],
            ),
    decreases s.len(),
{
    if s.len() > 0 {
        lemma_dedup_pairs_distinct(s.drop_last());
        let p = dedup_pairs(s.drop_last());
        let d = dedup_pairs(s);
        if !has_route_stop(p, s.last()) {
            assert forall|i: int, j: int| 0 <= i < j < d.len() implies !same_route_stop(
                #[trigger] d[i],
                #[trigger] d[j],
            ) by {
                assert(d[i] == p[i]);
                if j < p.len() {
                    assert(d[j] == p[j]);
                } else {
                    assert(d[j] == s.last());
                    if same_route_stop(p[i], s.last()) {
                        assert(has_route_stop(p, s.last()));
                    }
                }
            }
        }
    }
}

proof fn lemma_stop_le_prefix_sorted(s: Seq<BusRouteStop>, x: i32)
    requires
        stops_sorted(s),
    ensures
        0 <= stop_le_prefix(s, x) <= s.len(),
        forall|j: int| 0 <= j < stop_le_prefix(s, x) ==> (#[trigger] s[j]).stop_id <= x,
        forall|j: int| stop_le_prefix(s, x) <= j < s.len() ==> (#[trigger] s[j]).stop_id > x,
    decreases s.len(),
{
    if s.len() > 0 {
        let t = s.drop_first();
        assert(stops_sorted(t)) by {
            assert forall|i: int, j: int| 0 <= i < j < t.len() implies (#[trigger] t[i]).stop_id
                <= (#[trigger] t[j]).stop_id by {
                assert(t[i] == s[i + 1] && t[j] == s[j + 1]);
            }
        }
        lemma_stop_le_prefix_sorted(t, x);
        if s[0].stop_id <= x {
            assert forall|j: int| 0 <= j < stop_le_prefix(s, x) implies (#[trigger] s[j]).stop_id <= x by {
                if j > 0 {
                    assert(s[j] == t[j - 1]);
                }
            }
            assert forall|j: int| stop_le_prefix(s, x) <= j < s.len() implies (#[trigger] s[j]).stop_id > x by {
                assert(s[j] == t[j - 1]);
            }
        } else {
            assert forall|j: int| 0 <= j < s.len() implies (#[trigger] s[j]).stop_id > x by {
                if j > 0 {
                    assert(s[0].stop_id <= s[j].stop_id);
                }
            }
        }
    }
}

proof fn lemma_sort_by_stop_sorted(a: Seq<BusRouteStop>)
    ensures
        stops_sorted(sort_by_stop(a)),
        sort_by_stop(a).len() == a.len(),
    decreases a.len(),
{
    if a.len() > 0 {
        let s = sort_by_stop(a.drop_last());
        lemma_sort_by_stop_sorted(a.drop_last());
        let x = a.last();
        lemma_stop_le_prefix_sorted(s, x.stop_id);
        let k = stop_le_prefix(s, x.stop_id);
        let r = s.insert(k, x);
        assert forall|i: int, j: int| 0 <= i < j < r.len() implies (#[trigger] r[i]).stop_id
            <= (#[trigger] r[j]).stop_id by {
            if j < k {
                assert(r[i] == s[i] && r[j] == s[j]);
            } else if j == k {
                assert(r[i] == s[i]);
            } else if i == k {
                assert(r[j] == s[j - 1]);
            } else if i < k {
                assert(r[i] == s[i] && r[j] == s[j - 1]);
            } else {
                assert(r[i] == s[i - 1] && r[j] == s[j - 1]);
            }
        }
    }
}

proof fn lemma_stop_le_prefix(s: Seq<BusRouteStop>, x: i32, k: int)
    requires
        0 <= k <= s.len(),
        forall|j: int| 0 <= j < k ==> (#[trigger] s[j]).stop_id <= x,
        k == s.len() || s[k].stop_id > x,
    ensures
        stop_le_prefix(s, x) == k,
    decreases k,
{
    if k > 0 {
        let t = s.drop_first();
        assert forall|j: int| 0 <= j < k - 1 implies (#[trigger] t[j]).stop_id <= x by {
            assert(t[j] == s[j + 1]);
        }
        if k < s.len() {
            assert(t[k - 1] == s[k]);
        }
        lemma_stop_le_prefix(t, x, k - 1);
    }
}

/// The route stops of a bus import without repeats: sorted by stop id
/// (stably), then each stop of each route kept once, the first time it
/// comes. No two results are for the same stop of the same route, and the
/// results are in order of stop id.
pub fn dedup_route_stops(v: Vec<BusRouteStop>) -> (r: Vec<BusRouteStop>)
    ensures
        r@ == dedup_pairs(sort_by_stop(v@)),
        forall|i: int, j: int| 0 <= i < j < r@.len() ==> !same_route_stop(#[trigger] r@[i], #[trigger] r@[j]),
        stops_sorted(r@),
{
    let ghost all = v@;
    let n = v.len();
    let mut rest = v;
    let mut sorted: Vec<BusRouteStop> = Vec::new();
    let mut k: usize = 0;
    while rest.len() > 0
        invariant
            k + rest@.len() == all.len(),
            all.len() == n,
            rest@ == all.subrange(k as int, all.len() as int),
            sorted@ == sort_by_stop(all.subrange(0, k as int)),
        decreases rest.len(),
    {
        let x = rest.remove(0);
        assert(x == all[k as int]);
        let ghost sv = sorted@;
        let mut p: usize = 0;
        let mut going = true;
        while p < sorted.len() && going
            invariant
                p <= sorted@.len(),
                sv == sorted@,
                forall|j: int| 0 <= j < p ==> (#[trigger] sv[j]).stop_id <= x.stop_id,
                !going ==> p < sorted@.len() && sv[p as int].stop_id > x.stop_id,
            decreases sorted.len() - p, if going { 1int } else { 0int },
        {
            if sorted[p].stop_id <= x.stop_id {
                p = p + 1;
            } else {
                going = false;
            }
        }
        proof {
            lemma_stop_le_prefix(sv, x.stop_id, p as int);
            let pre = all.subrange(0, k as int);
            let cur = all.subrange(0, k + 1);
            assert(cur.drop_last() =~= pre);
        }
        sorted.insert(p, x);
        k = k + 1;
        assert(rest@ =~= all.subrange(k as int, all.len() as int));
    }
    assert(all.subrange(0, k as int) =~= all);
    let ghost sv = sorted@;
    proof {
        lemma_sort_by_stop_sorted(all);
    }
    let m = sorted.len();
    let mut rest = sorted;
    let mut out: Vec<BusRouteStop> = Vec::new();
    let mut k: usize = 0;
    while rest.len() > 0
        invariant
            sv.len() == m,
            stops_sorted(sv),
            k + rest@.len() == sv.len(),
            rest@ == sv.subrange(k as int, sv.len() as int),
            out@ == dedup_pairs(sv.subrange(0, k as int)),
            stops_sorted(out@),
            forall|t: int| 0 <= t < out@.len() ==> exists|i: int| 0 <= i < k && #[trigger] out@[t] == sv[i],
        decreases rest.len(),
    {
        let x = rest.remove(0);
        assert(x == sv[k as int]);
        let ghost pre = sv.subrange(0, k as int);
        let ghost cur = sv.subrange(0, k + 1);
        proof {
            assert(cur.drop_last() =~= pre);
            assert(cur.last() == x);
            assert forall|t: int| 0 <= t < out@.len() implies (#[trigger] out@[t]).stop_id <= x.stop_id by {
                let i = choose|i: int| 0 <= i < k && out@[t] == sv[i];
            }
        }
        let xr = str_chars(x.route_id.as_str());
        let mut j: usize = out.len();
        let mut found = false;
        while j > 0 && !found && out[j - 1].stop_id == x.stop_id
            invariant
                j <= out@.len(),
                xr@ == x.route_id@,
                !found ==> forall|t: int| j <= t < out@.len() ==> !same_route_stop(#[trigger] out@[t], x),
                found ==> has_route_stop(out@, x),
            decreases j, if found { 0int } else { 1int },
        {
            let a = str_chars(out[j - 1].route_id.as_str());
            if chars_eq(a.as_slice(), xr.as_slice()) {
                found = true;
                assert(same_route_stop(out@[j - 1], x));
            } else {
                j = j - 1;
            }
        }
        proof {
            if !found {
                if j > 0 {
                    assert(out@[j - 1].stop_id < x.stop_id);
                    assert forall|t: int| 0 <= t < j implies !same_route_stop(#[trigger] out@[t], x) by {
                        if t < j - 1 {
                            assert(out@[t].stop_id <= out@[j - 1].stop_id);
                        }
                    }
                }
                assert(!has_route_stop(out@, x));
            }
        }
        if !found {
            let ghost o0 = out@;
            out.push(x);
            assert forall|t: int| 0 <= t < out@.len() implies exists|i: int| 0 <= i < k + 1 && #[trigger] out@[t] == sv[i] by {
                if t < o0.len() {
                    assert(out@[t] == o0[t]);
                } else {
                    assert(out@[t] == sv[k as int]);
                }
            }
            assert(stops_sorted(out@)) by {
                assert forall|a: int, b: int| 0 <= a < b < out@.len() implies (#[trigger] out@[a]).stop_id
                    <= (#[trigger] out@[b]).stop_id by {
                    assert(out@[a] == o0[a]);
                    if b < o0.len() {
                        assert(out@[b] == o0[b]);
                    }
                }
            }
        }
        k = k + 1;
        assert(rest@ =~= sv.subrange(k as int, sv.len() as int));
    }
    assert(sv.subrange(0, k as int) =~= sv);
    proof {
        lemma_dedup_pairs_distinct(sv);
    }
    out
}

/// A bus stop as the route import stores it; `lat` and `lon` are `f32`
/// bit patterns.
#[derive(Debug, Clone)]
pub struct BusStopRow {
    pub id: i32,
    pub name: String,
    pub lat: u32,
    pub lon: u32,
    pub direction: crate::models::CompassDirection,
}

/// How many leading stops have an id not above `x`.
pub open spec fn id_le_prefix(s: Seq<BusStopRow>, x: i32) -> int
    decreases s.len(),
{
    if s.len() == 0 {
        0
    } else if s[0].id <= x {
        1 + id_le_prefix(s.drop_first(), x)
    } else {
        0
    }
}

/// Stops sorted by id, stably.
pub open spec fn sort_by_id(a: Seq<BusStopRow>) -> Seq<BusStopRow>
    decreases a.len(),
{
    if a.len() == 0 {
        Seq::empty()
    } else {
        let s = sort_by_id(a.drop_last());
        s.insert(id_le_prefix(s, a.last().id), a.last())
    }
}

/// A list of stops without the entries that repeat the id of the entry
/// kept before them.
pub open spec fn dedup_ids(s: Seq<BusStopRow>) -> Seq<BusStopRow>
    decreases s.len(),
{
    if s.len() == 0 {
        Seq::empty()
    } else {
        let p = dedup_ids(s.drop_last());
        if p.len() > 0 && p.last().id == s.last().id {
            p
        } else {
            p.push(s.last())
        }
    }
}

proof fn lemma_id_le_prefix(s: Seq<BusStopRow>, x: i32, k: int)
    requires
        0 <= k <= s.len(),
        forall|j: int| 0 <= j < k ==> (#[trigger] s[j]).id <= x,
        k == s.len() || s[k].id > x,
    ensures
        id_le_prefix(s, x) == k,
    decreases k,
{
    if k > 0 {
        let t = s.drop_first();
        assert forall|j: int| 0 <= j < k - 1 implies (#[trigger] t[j]).id <= x by {
            assert(t[j] == s[j + 1]);
        }
        if k < s.len() {
            assert(t[k - 1] == s[k]);
        }
        lemma_id_le_prefix(t, x, k - 1);
    }
}

/// The bus stops of an import without repeats: sorted by id (stably), then
/// each entry that repeats the id of the entry kept before it dropped.
pub fn dedup_bus_stops(v: Vec<BusStopRow>) -> (r: Vec<BusStopRow>)
    ensures
        r@ == dedup_ids(sort_by_id(v@)),
{
    let ghost all = v@;
    let n = v.len();
    let mut rest = v;
    let mut sorted: Vec<BusStopRow> = Vec::new();
    let mut k: usize = 0;
    while rest.len() > 0
        invariant
            k + rest@.len() == all.len(),
            all.len() == n,
            rest@ == all.subrange(k as int, all.len() as int),
            sorted@ == sort_by_id(all.subrange(0, k as int)),
        decreases rest.len(),
    {
        let x = rest.remove(0);
        assert(x == all[k as int]);
        let ghost sv = sorted@;
        let mut p: usize = 0;
        let mut going = true;
        while p < sorted.len() && going
            invariant
                p <= sorted@.len(),
                sv == sorted@,
                forall|j: int| 0 <= j < p ==> (#[trigger] sv[j]).id <= x.id,
                !going ==> p < sorted@.len() && sv[p as int].id > x.id,
            decreases sorted.len() - p, if going { 1int } else { 0int },
        {
            if sorted[p].id <= x.id {
                p = p + 1;
            } else {
                going = false;
            }
        }
        proof {
            lemma_id_le_prefix(sv, x.id, p as int);
            let pre = all.subrange(0, k as int);
            let cur = all.subrange(0, k + 1);
            assert(cur.drop_last() =~= pre);
        }
        sorted.insert(p, x);
        k = k + 1;
        assert(rest@ =~= all.subrange(k as int, all.len() as int));
    }
    assert(all.subrange(0, k as int) =~= all);
    let ghost sv = sorted@;
    let m = sorted.len();
    let mut rest = sorted;
    let mut out: Vec<BusStopRow> = Vec::new();
    let mut k: usize = 0;
    while rest.len() > 0
        invariant
            sv.len() == m,
            k + rest@.len() == sv.len(),
            rest@ == sv.subrange(k as int, sv.len() as int),
            out@ == dedup_ids(sv.subrange(0, k as int)),
        decreases rest.len(),
    {
        let x = rest.remove(0);
        assert(x == sv[k as int]);
        proof {
            let pre = sv.subrange(0, k as int);
            let cur = sv.subrange(0, k + 1);
            assert(cur.drop_last() =~= pre);
        }
        let same = out.len() > 0 && out[out.len() - 1].id == x.id;
        if !same {
            out.push(x);
        }
        k = k + 1;
        assert(rest@ =~= sv.subrange(k as int, sv.len() as int));
    }
    assert(sv.subrange(0, k as int) =~= sv);
    out
}

} // verus!
