//! What the static data cache holds: the stops and routes split by route
//! type, the routes drawn on the map, and the cache entries with the hashes
//! that serve as entity tags.
use vstd::prelude::*;

use crate::route_import::{route_type_text, RouteType};
use crate::text::{str_chars, string_from_chars};

verus! {

/// The BLAKE3 hash of the UTF-8 text `text`, in lowercase hexadecimal.
pub uninterp spec fn blake3_hex(text: Seq<char>) -> Seq<char>;

/// Whether `c` is a lowercase hexadecimal digit.
pub open spec fn is_lower_hex(c: char) -> bool {
    ('0' <= c && c <= '9') || ('a' <= c && c <= 'f')
}

/// Calls `blake3::hash` on the bytes of `text` and `Hash::to_hex`: the hash
/// is named `blake3_hex` of the text; as `to_hex` writes it, it is 64
/// lowercase hexadecimal digits (two per byte of the 32-byte hash).
#[verifier::external_body]
fn hash_hex(text: &str) -> (r: String)
    ensures
        r@ == blake3_hex(text@),
        r@.len() == 64,
        forall|i: int| 0 <= i < r@.len() ==> is_lower_hex(#[trigger] r@[i]),
{
    blake3::hash(text.as_bytes()).to_hex().to_string()
}

/// The positions of the entries of type `t`, in order.
pub open spec fn positions_of(types: Seq<RouteType>, t: RouteType) -> Seq<usize>
    decreases types.len(),
{
    if types.len() == 0 {
        Seq::empty()
    } else {
        let p = positions_of(types.drop_last(), t);
        if types.last() == t {
            p.push((types.len() - 1) as usize)
        } else {
            p
        }
    }
}

/// The positions of the bus entries and of the train entries of a list of
/// stops or routes, each in order (as the cache splits them by route type).
pub fn split_by_route_type(types: &Vec<RouteType>) -> (r: (Vec<usize>, Vec<usize>))
    ensures
        r.0@ == positions_of(types@, RouteType::Bus),
        r.1@ == positions_of(types@, RouteType::Train),
{
    let mut bus: Vec<usize> = Vec::new();
    let mut train: Vec<usize> = Vec::new();
    let mut i: usize = 0;
    while i < types.len()
        invariant
            i <= types@.len(),
            bus@ == positions_of(types@.subrange(0, i as int), RouteType::Bus),
            train@ == positions_of(types@.subrange(0, i as int), RouteType::Train),
        decreases types.len() - i,
    {
        let ghost pre = types@.subrange(0, i as int);
        let ghost cur = types@.subrange(0, i + 1);
        assert(cur.drop_last() =~= pre);
        assert(cur.last() == types@[i as int]);
        match types[i] {
            RouteType::Bus => bus.push(i),
            RouteType::Train => train.push(i),
        }
        i = i + 1;
    }
    assert(types@.subrange(0, i as int) =~= types@);
    (bus, train)
}

/// The id of the Staten Island Railway, which the map leaves out.
pub open spec fn sir_id() -> Seq<char> {
    seq!['S', 'I']
}

/// The positions of the routes drawn on the map, in order: those other than
/// the Staten Island Railway whose geometry is a multi-line string
/// (`geometry_ok`).
pub open spec fn mapped_positions(ids: Seq<Seq<char>>, geometry_ok: Seq<bool>) -> Seq<usize>
    decreases ids.len(),
{
    if ids.len() == 0 {
        Seq::empty()
    } else {
        let p = mapped_positions(ids.drop_last(), geometry_ok);
        let i = ids.len() - 1;
        if ids.last() != sir_id() && geometry_ok[i] {
            p.push(i as usize)
        } else {
            p
        }
    }
}

/// The positions of the routes drawn on the map (see `mapped_positions`);
/// `geometry_ok` says of each route whether its geometry reads as a
/// multi-line string.
pub fn mapped_routes(ids: &Vec<String>, geometry_ok: &Vec<bool>) -> (r: Vec<usize>)
    requires
        geometry_ok@.len() == ids@.len(),
    ensures
        r@ == mapped_positions(Seq::new(ids@.len(), |i: int| ids@[i]@), geometry_ok@),
{
    let ghost v = Seq::new(ids@.len(), |i: int| ids@[i]@);
    let sir = ['S', 'I'];
    assert(sir@ =~= sir_id());
    let mut out: Vec<usize> = Vec::new();
    let mut i: usize = 0;
    while i < ids.len()
        invariant
            i <= ids@.len(),
            geometry_ok@.len() == ids@.len(),
            v == Seq::new(ids@.len(), |j: int| ids@[j]@),
            sir@ == sir_id(),
            out@ == mapped_positions(v.subrange(0, i as int), geometry_ok@),
        decreases ids.len() - i,
    {
        let ghost pre = v.subrange(0, i as int);
        let ghost cur = v.subrange(0, i + 1);
        assert(cur.drop_last() =~= pre);
        assert(cur.last() == ids@[i as int]@);
        let c = str_chars(ids[i].as_str());
        let is_sir = crate::text::chars_eq(c.as_slice(), &sir);
        if !is_sir && geometry_ok[i] {
            out.push(i);
        }
        i = i + 1;
    }
    assert(v.subrange(0, i as int) =~= v);
    out
}

/// The JSON texts that the cache stores: the stops and routes, all of them
/// and by route type, and their GeoJSON feature collections.
pub struct CachePayloads {
    pub stops: String,
    pub bus_stops: String,
    pub train_stops: String,
    pub routes: String,
    pub bus_routes: String,
    pub train_routes: String,
    pub bus_stops_geojson: String,
    pub train_stops_geojson: String,
    pub stops_geojson: String,
    pub bus_routes_geojson: String,
    pub train_routes_geojson: String,
    pub routes_geojson: String,
}

/// A cache key made of a name and a route type, as `name_Type`.
pub open spec fn typed_key(name: Seq<char>, t: RouteType) -> Seq<char> {
    name + seq!['_'] + route_type_text(t)
}

/// An entity tag: the text in double quotes.
pub open spec fn quoted(s: Seq<char>) -> Seq<char> {
    seq!['"'] + s + seq!['"']
}

/// The entries the cache stores, in order: the stop and route lists (all,
/// bus, train), the entity tags of all stops and all routes (the quoted
/// hashes of their JSON), and the GeoJSON collections of stops and routes
/// (bus, train, all).
pub open spec fn cache_entries(p: CachePayloads) -> Seq<(Seq<char>, Seq<char>)> {
    let stops = seq!['s', 't', 'o', 'p', 's'];
    let routes = seq!['r', 'o', 'u', 't', 'e', 's'];
    let hash = seq!['_', 'h', 'a', 's', 'h'];
    let geo = seq!['_', 'g', 'e', 'o', 'j', 's', 'o', 'n'];
    seq![
        (stops, p.stops@),
        (typed_key(stops, RouteType::Bus), p.bus_stops@),
        (typed_key(stops, RouteType::Train), p.train_stops@),
        (routes, p.routes@),
        (typed_key(routes, RouteType::Bus), p.bus_routes@),
        (typed_key(routes, RouteType::Train), p.train_routes@),
        (stops + hash, quoted(blake3_hex(p.stops@))),
        (routes + hash, quoted(blake3_hex(p.routes@))),
        (typed_key(stops + geo, RouteType::Bus), p.bus_stops_geojson@),
        (typed_key(stops + geo, RouteType::Train), p.train_stops_geojson@),
        (stops + geo, p.stops_geojson@),
        (typed_key(routes + geo, RouteType::Bus), p.bus_routes_geojson@),
        (typed_key(routes + geo, RouteType::Train), p.train_routes_geojson@),
        (routes + geo, p.routes_geojson@),
    ]
}

/// The views of key-value pairs of strings.
pub open spec fn entries_view(v: Seq<(String, String)>) -> Seq<(Seq<char>, Seq<char>)> {
    Seq::new(v.len(), |i: int| (v[i].0@, v[i].1@))
}

fn text(cs: &[char]) -> (r: String)
    ensures
        r@ == cs@,
{
    string_from_chars(cs)
}

fn concat(a: &[char], b: &[char]) -> (r: Vec<char>)
    ensures
        r@ == a@ + b@,
{
    let mut v: Vec<char> = Vec::new();
    let mut i: usize = 0;
    while i < a.len()
        invariant
            i <= a@.len(),
            v@ == a@.subrange(0, i as int),
        decreases a.len() - i,
    {
        v.push(a[i]);
        i = i + 1;
        assert(v@ =~= a@.subrange(0, i as int));
    }
    let mut j: usize = 0;
    while j < b.len()
        invariant
            j <= b@.len(),
            v@ == a@ + b@.subrange(0, j as int),
        decreases b.len() - j,
    {
        v.push(b[j]);
        j = j + 1;
        assert(v@ =~= a@ + b@.subrange(0, j as int));
    }
    assert(a@.subrange(0, a@.len() as int) =~= a@);
    assert(b@.subrange(0, b@.len() as int) =~= b@);
    v
}

fn typed(name: &[char], t: RouteType) -> (r: String)
    ensures
        r@ == typed_key(name@, t),
{
    let suffix: Vec<char> = match t {
        RouteType::Bus => vec!['_', 'B', 'u', 's'],
        RouteType::Train => vec!['_', 'T', 'r', 'a', 'i', 'n'],
    };
    assert(suffix@ =~= seq!['_'] + route_type_text(t));
    let v = concat(name, suffix.as_slice());
    assert(v@ =~= typed_key(name@, t));
    text(v.as_slice())
}

fn etag(json: &String) -> (r: String)
    ensures
        r@ == quoted(blake3_hex(json@)),
{
    let h = hash_hex(json.as_str());
    let hc = str_chars(h.as_str());
    let q = ['"'];
    let a = concat(&q, hc.as_slice());
    let b = concat(a.as_slice(), &q);
    assert(b@ =~= quoted(blake3_hex(json@)));
    text(b.as_slice())
}

/// The entries the cache stores for the given payloads (see
/// `cache_entries`).
pub fn cache_items(p: &CachePayloads) -> (r: Vec<(String, String)>)
    ensures
        entries_view(r@) == cache_entries(*p),
{
    let stops = ['s', 't', 'o', 'p', 's'];
    let routes = ['r', 'o', 'u', 't', 'e', 's'];
    let hash = ['_', 'h', 'a', 's', 'h'];
    let geo = ['_', 'g', 'e', 'o', 'j', 's', 'o', 'n'];
    let stops_hash = concat(&stops, &hash);
    let routes_hash = concat(&routes, &hash);
    let stops_geo = concat(&stops, &geo);
    let routes_geo = concat(&routes, &geo);
    let mut r: Vec<(String, String)> = Vec::new();
    r.push((text(&stops), p.stops.clone()));
    r.push((typed(&stops, RouteType::Bus), p.bus_stops.clone()));
    r.push((typed(&stops, RouteType::Train), p.train_stops.clone()));
    r.push((text(&routes), p.routes.clone()));
    r.push((typed(&routes, RouteType::Bus), p.bus_routes.clone()));
    r.push((typed(&routes, RouteType::Train), p.train_routes.clone()));
    r.push((text(stops_hash.as_slice()), etag(&p.stops)));
    r.push((text(routes_hash.as_slice()), etag(&p.routes)));
    r.push((typed(stops_geo.as_slice(), RouteType::Bus), p.bus_stops_geojson.clone()));
    r.push((typed(stops_geo.as_slice(), RouteType::Train), p.train_stops_geojson.clone()));
    r.push((text(stops_geo.as_slice()), p.stops_geojson.clone()));
    r.push((typed(routes_geo.as_slice(), RouteType::Bus), p.bus_routes_geojson.clone()));
    r.push((typed(routes_geo.as_slice(), RouteType::Train), p.train_routes_geojson.clone()));
    r.push((text(routes_geo.as_slice()), p.routes_geojson.clone()));
    assert(entries_view(r@) =~= cache_entries(*p));
    r
}

} // verus!
