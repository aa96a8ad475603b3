//! What the trajectory engine keys its caches by, its continuity statistics,
//! and the knot builders of each source. Geometry and kinematics, which work
//! in floating point, are not here.
use vstd::prelude::*;

use crate::models::StopData;
use crate::njt_static::seq_lt;
use crate::source::{bucket_start, round_to_5min_bucket, Source};
use crate::subway_realtime::strings_view;
use crate::text::{join_with, str_chars, to_uppercase, uppercase_of};

verus! {

/// The cache key of a shape's geometry.
#[derive(Debug, Clone, PartialEq, Eq, Hash)]
pub struct ShapeKey {
    pub source: Source,
    pub shape_key: String,
}

/// The cache key of a stop's projection onto a shape.
#[derive(Debug, Clone, PartialEq, Eq, Hash)]
pub struct StopProjKey {
    pub source: Source,
    pub shape_key: String,
    pub stop_id: String,
}

/// The cache key of a platform-edge match.
#[derive(Debug, Clone, PartialEq, Eq, Hash)]
pub struct PlatformMatchKey {
    pub source: Source,
    pub stop_id: String,
    pub trip_direction: i16,
    pub consist_length_ft: i32,
    pub platform_hint: Option<String>,
    pub static_version: u64,
}

/// The cache key of a historical snapshot: a source and a five-minute bucket.
#[derive(Debug, Clone, Copy, PartialEq, Eq, Structural, Hash)]
pub struct HistKey {
    pub source: Source,
    pub bucket_unix: i64,
}

/// The key of the historical snapshot of a source at unix time `at`.
pub fn hist_key(source: Source, at: i64) -> (k: HistKey)
    ensures
        k.source == source,
        k.bucket_unix == bucket_start(at as int),
{
    HistKey { source, bucket_unix: round_to_5min_bucket(at) }
}

/// Moves the platform data version on by one, wrapping around as an atomic
/// counter's `fetch_add` does; platform matches cached under the old version
/// are then no longer found.
pub fn bump_platform_static_version(version: &mut u64)
    ensures
        *final(version) == bumped_version(*old(version)),
{
    *version = version.wrapping_add(1);
}

/// How many leading texts of `s` are not after `x`.
pub open spec fn text_le_prefix(s: Seq<Seq<char>>, x: Seq<char>) -> int
    decreases s.len(),
{
    if s.len() == 0 {
        0
    } else if !seq_lt(x, s[0]) {
        1 + text_le_prefix(s.drop_first(), x)
    } else {
        0
    }
}

/// Texts sorted in order, stably: each goes in after the leading texts that
/// are not after it.
pub open spec fn sort_texts(a: Seq<Seq<char>>) -> Seq<Seq<char>>
    decreases a.len(),
{
    if a.len() == 0 {
        Seq::empty()
    } else {
        let s = sort_texts(a.drop_last());
        s.insert(text_le_prefix(s, a.last()), a.last())
    }
}

proof fn lemma_text_le_prefix(s: Seq<Seq<char>>, x: Seq<char>, k: int)
    requires
        0 <= k <= s.len(),
        forall|j: int| 0 <= j < k ==> !seq_lt(x, #[trigger] s[j]),
        k == s.len() || seq_lt(x, s[k]),
    ensures
        text_le_prefix(s, x) == k,
    decreases k,
{
    if k > 0 {
        let t = s.drop_first();
        assert forall|j: int| 0 <= j < k - 1 implies !seq_lt(x, #[trigger] t[j]) by {
            assert(t[j] == s[j + 1]);
        }
        if k < s.len() {
            assert(t[k - 1] == s[k]);
        }
        lemma_text_le_prefix(t, x, k - 1);
    }
}

/// Sorts strings in order, stably (see `sort_texts`).
pub fn sort_strings(v: Vec<String>) -> (r: Vec<String>)
    ensures
        strings_view(r@) == sort_texts(strings_view(v@)),
{
    let ghost all = v@;
    let n = v.len();
    let mut rest = v;
    let mut out: Vec<String> = Vec::new();
    let mut k: usize = 0;
    while rest.len() > 0
        invariant
            k + rest@.len() == all.len(),
            all.len() == n,
            rest@ == all.subrange(k as int, all.len() as int),
            strings_view(out@) == sort_texts(strings_view(all).subrange(0, k as int)),
        decreases rest.len(),
    {
        let x = rest.remove(0);
        assert(x == all[k as int]);
        let ghost ov = strings_view(out@);
        let xc = str_chars(x.as_str());
        let mut p: usize = 0;
        let mut going = true;
        while p < out.len() && going
            invariant
                p <= out@.len(),
                ov == strings_view(out@),
                xc@ == x@,
                forall|j: int| 0 <= j < p ==> !seq_lt(x@, #[trigger] ov[j]),
                !going ==> p < out@.len() && seq_lt(x@, ov[p as int]),
            decreases out.len() - p, if going { 1int } else { 0int },
        {
            let pc = str_chars(out[p].as_str());
            if crate::njt_static::chars_lt(&xc, &pc) {
                going = false;
            } else {
                p = p + 1;
            }
        }
        proof {
            lemma_text_le_prefix(ov, x@, p as int);
            let pre = strings_view(all).subrange(0, k as int);
            let cur = strings_view(all).subrange(0, k + 1);
            assert(cur.drop_last() =~= pre);
        }
        out.insert(p, x);
        assert(strings_view(out@) =~= ov.insert(p as int, all[k as int]@));
        k = k + 1;
        assert(rest@ =~= all.subrange(k as int, all.len() as int));
    }
    assert(strings_view(all).subrange(0, k as int) =~= strings_view(all));
    out
}

/// The upper-cased texts of a list of strings.
pub open spec fn upper_all(v: Seq<Seq<char>>) -> Seq<Seq<char>> {
    Seq::new(v.len(), |i: int| uppercase_of(v[i]))
}

/// The platform hint of a platform-edge match: the edge ids upper-cased,
/// sorted and joined with commas; none without edges.
pub open spec fn platform_hint_spec(ids: Seq<Seq<char>>) -> Option<Seq<char>> {
    if ids.len() == 0 {
        None
    } else {
        Some(join_with(sort_texts(upper_all(ids)), seq![',']))
    }
}

/// The platform hint of a platform-edge match (see `platform_hint_spec`).
pub fn platform_hint(ids: &Vec<String>) -> (r: Option<String>)
    ensures
        match r {
            Some(h) => platform_hint_spec(strings_view(ids@)) == Some(h@),
            None => platform_hint_spec(strings_view(ids@)) is None,
        },
{
    if ids.len() == 0 {
        return None;
    }
    let mut ups: Vec<String> = Vec::new();
    let mut i: usize = 0;
    while i < ids.len()
        invariant
            i <= ids@.len(),
            ups@.len() == i,
            forall|j: int| 0 <= j < i ==> (#[trigger] ups@[j])@ == uppercase_of(ids@[j]@),
        decreases ids.len() - i,
    {
        ups.push(to_uppercase(ids[i].as_str()));
        i = i + 1;
    }
    assert(strings_view(ups@) =~= upper_all(strings_view(ids@)));
    let sorted = sort_strings(ups);
    let mut out: Vec<char> = Vec::new();
    let mut k: usize = 0;
    while k < sorted.len()
        invariant
            k <= sorted@.len(),
            out@ == join_with(strings_view(sorted@).subrange(0, k as int), seq![',']),
        decreases sorted.len() - k,
    {
        let ghost pre = strings_view(sorted@).subrange(0, k as int);
        assert(strings_view(sorted@).subrange(0, k + 1) =~= pre.push(sorted@[k as int]@));
        proof {
            crate::text::lemma_join_push(pre, seq![','], sorted@[k as int]@);
        }
        if k > 0 {
            out.push(',');
        }
        let w = str_chars(sorted[k].as_str());
        let ghost base = out@;
        let mut j: usize = 0;
        while j < w.len()
            invariant
                j <= w@.len(),
                out@ == base + w@.subrange(0, j as int),
            decreases w.len() - j,
        {
            out.push(w[j]);
            j = j + 1;
            assert(out@ =~= base + w@.subrange(0, j as int));
        }
        assert(w@.subrange(0, w@.len() as int) =~= w@);
        k = k + 1;
    }
    assert(strings_view(sorted@).subrange(0, k as int) =~= strings_view(sorted@));
    Some(crate::text::string_from_chars(out.as_slice()))
}

/// The version that `bump_platform_static_version` moves `v` to.
pub open spec fn bumped_version(v: u64) -> u64 {
    if v == u64::MAX {
        0
    } else {
        (v + 1) as u64
    }
}

/// The key a platform-edge match is cached under (see `platform_match_key`).
pub open spec fn platform_key_matches(
    k: PlatformMatchKey,
    source: Source,
    stop_id: Seq<char>,
    trip_direction: i16,
    consist_length_ft: i32,
    edge_ids: Seq<Seq<char>>,
    version: u64,
) -> bool {
    &&& k.source == source
    &&& k.stop_id@ == stop_id
    &&& k.trip_direction == trip_direction
    &&& k.consist_length_ft == consist_length_ft
    &&& crate::ids::opt_string_view(k.platform_hint) == platform_hint_spec(edge_ids)
    &&& k.static_version == version
}

/// The key a platform-edge match is cached under: the stop, the trip's
/// direction, the consist length in whole feet (rounded by the caller from
/// meters), the platform hint of the candidate edges (see `platform_hint`)
/// and the platform data version read now.
pub fn platform_match_key(
    source: Source,
    stop_id: &str,
    trip_direction: i16,
    consist_length_ft: i32,
    platform_edge_ids: &Vec<String>,
    version: u64,
) -> (k: PlatformMatchKey)
    ensures
        platform_key_matches(
            k,
            source,
            stop_id@,
            trip_direction,
            consist_length_ft,
            strings_view(platform_edge_ids@),
            version,
        ),
{
    let hint = platform_hint(platform_edge_ids);
    PlatformMatchKey {
        source,
        stop_id: crate::text::string_from_chars(str_chars(stop_id).as_slice()),
        trip_direction,
        consist_length_ft,
        platform_hint: hint,
        static_version: version,
    }
}

/// Why a trip's previous trajectory state was thrown away.
#[derive(Debug, Clone, Copy, PartialEq, Eq, Structural)]
pub enum ContinuityDiscardReason {
    StalePrevState,
    BackwardGap,
    ForwardJump,
}

/// Continuity filtering statistics of one trip; `live_anchor_gap_m` is an
/// `f64` bit pattern.
#[derive(Debug, Clone, Copy)]
pub struct ContinuityStats {
    pub knots_in: u32,
    pub knots_out: u32,
    pub prev_state_discarded: bool,
    pub discard_reason: Option<ContinuityDiscardReason>,
    pub live_anchor_gap_m: Option<u64>,
    pub pre_anchor_knots_dropped: u32,
    pub backtracking_knots_removed: u32,
}

impl ContinuityStats {
    /// How many knots the filtering removed (never below zero).
    pub fn knots_removed(&self) -> (r: u32)
        ensures
            r == if self.knots_in >= self.knots_out {
                (self.knots_in - self.knots_out) as u32
            } else {
                0
            },
    {
        self.knots_in.saturating_sub(self.knots_out)
    }
}

/// The counters of continuity filtering summed over the trips of one
/// refresh; the live-anchor gap sums, which are floating point, are kept
/// beside them by the caller.
#[derive(Debug, Clone, Copy, PartialEq, Eq, Structural)]
pub struct ContinuityStatsBatch {
    pub trips_with_prev_state: u32,
    pub prev_state_discarded: u32,
    pub stale_prev_state_discarded: u32,
    pub backward_gap_discarded: u32,
    pub forward_jump_discarded: u32,
    pub knots_in: u64,
    pub knots_out: u64,
    pub trips_with_live_anchor: u32,
    pub pre_anchor_knots_dropped: u64,
    pub backtracking_knots_removed: u64,
}

impl ContinuityStatsBatch {
    /// An empty batch.
    pub fn new() -> (r: Self)
        ensures
            r == (ContinuityStatsBatch {
                trips_with_prev_state: 0,
                prev_state_discarded: 0,
                stale_prev_state_discarded: 0,
                backward_gap_discarded: 0,
                forward_jump_discarded: 0,
                knots_in: 0,
                knots_out: 0,
                trips_with_live_anchor: 0,
                pre_anchor_knots_dropped: 0,
                backtracking_knots_removed: 0,
            }),
    {
        ContinuityStatsBatch {
            trips_with_prev_state: 0,
            prev_state_discarded: 0,
            stale_prev_state_discarded: 0,
            backward_gap_discarded: 0,
            forward_jump_discarded: 0,
            knots_in: 0,
            knots_out: 0,
            trips_with_live_anchor: 0,
            pre_anchor_knots_dropped: 0,
            backtracking_knots_removed: 0,
        }
    }

    /// The counters fit one more trip.
    pub open spec fn has_room(&self) -> bool {
        &&& self.trips_with_prev_state < u32::MAX
        &&& self.prev_state_discarded < u32::MAX
        &&& self.stale_prev_state_discarded < u32::MAX
        &&& self.backward_gap_discarded < u32::MAX
        &&& self.forward_jump_discarded < u32::MAX
        &&& self.knots_in + u32::MAX <= u64::MAX
        &&& self.knots_out + u32::MAX <= u64::MAX
        &&& self.trips_with_live_anchor < u32::MAX
        &&& self.pre_anchor_knots_dropped + u32::MAX <= u64::MAX
        &&& self.backtracking_knots_removed + u32::MAX <= u64::MAX
    }

    /// Adds one trip's statistics: a discarded previous state is counted
    /// (with its reason) only when the trip had one.
    pub fn record(&mut self, stats: ContinuityStats, had_prev_state: bool)
        requires
            old(self).has_room(),
        ensures
            final(self).prev_state_discarded == old(self).prev_state_discarded + if had_prev_state
                && stats.prev_state_discarded {
                1int
            } else {
                0int
            },
            final(self).stale_prev_state_discarded == old(self).stale_prev_state_discarded + if had_prev_state
                && stats.prev_state_discarded && stats.discard_reason == Some(
                ContinuityDiscardReason::StalePrevState,
            ) {
                1int
            } else {
                0int
            },
            final(self).backward_gap_discarded == old(self).backward_gap_discarded + if had_prev_state
                && stats.prev_state_discarded && stats.discard_reason == Some(
                ContinuityDiscardReason::BackwardGap,
            ) {
                1int
            } else {
                0int
            },
            final(self).forward_jump_discarded == old(self).forward_jump_discarded + if had_prev_state
                && stats.prev_state_discarded && stats.discard_reason == Some(
                ContinuityDiscardReason::ForwardJump,
            ) {
                1int
            } else {
                0int
            },
            final(self).trips_with_prev_state == old(self).trips_with_prev_state + if had_prev_state {
                1int
            } else {
                0int
            },
            final(self).knots_in == old(self).knots_in + stats.knots_in,
            final(self).knots_out == old(self).knots_out + stats.knots_out,
            final(self).trips_with_live_anchor == old(self).trips_with_live_anchor + if stats.live_anchor_gap_m
                is Some {
                1int
            } else {
                0int
            },
            final(self).pre_anchor_knots_dropped == old(self).pre_anchor_knots_dropped
                + stats.pre_anchor_knots_dropped,
            final(self).backtracking_knots_removed == old(self).backtracking_knots_removed
                + stats.backtracking_knots_removed,
    {
        if had_prev_state && stats.prev_state_discarded {
            self.prev_state_discarded = self.prev_state_discarded + 1;
            match stats.discard_reason {
                Some(ContinuityDiscardReason::StalePrevState) => {
                    self.stale_prev_state_discarded = self.stale_prev_state_discarded + 1;
                },
                Some(ContinuityDiscardReason::BackwardGap) => {
                    self.backward_gap_discarded = self.backward_gap_discarded + 1;
                },
                Some(ContinuityDiscardReason::ForwardJump) => {
                    self.forward_jump_discarded = self.forward_jump_discarded + 1;
                },
                None => {},
            }
        }
        if had_prev_state {
            self.trips_with_prev_state = self.trips_with_prev_state + 1;
        }
        self.knots_in = self.knots_in + stats.knots_in as u64;
        self.knots_out = self.knots_out + stats.knots_out as u64;
        if stats.live_anchor_gap_m.is_some() {
            self.trips_with_live_anchor = self.trips_with_live_anchor + 1;
        }
        self.pre_anchor_knots_dropped = self.pre_anchor_knots_dropped + stats.pre_anchor_knots_dropped as u64;
        self.backtracking_knots_removed = self.backtracking_knots_removed
            + stats.backtracking_knots_removed as u64;
    }

    /// How many knots the filtering removed over the batch (never below zero).
    pub fn knots_removed(&self) -> (r: u64)
        ensures
            r == if self.knots_in >= self.knots_out {
                (self.knots_in - self.knots_out) as u64
            } else {
                0
            },
    {
        self.knots_in.saturating_sub(self.knots_out)
    }
}

/// The knot builder that will synthesize knots from GPS fixes; it produces
/// none yet.
pub struct GpsBuilder;

impl GpsBuilder {
    /// The source whose trips it builds.
    pub fn source(&self) -> (s: Source)
        ensures
            s == Source::MtaBus,
    {
        Source::MtaBus
    }
}

/// The knot builder of MTA bus trips.
pub struct MtaBusBuilder;

impl MtaBusBuilder {
    /// The source whose trips it builds.
    pub fn source(&self) -> (s: Source)
        ensures
            s == Source::MtaBus,
    {
        Source::MtaBus
    }
}

/// The knot builder of MTA subway trips.
pub struct MtaSubwayBuilder;

impl MtaSubwayBuilder {
    /// The source whose trips it builds.
    pub fn source(&self) -> (s: Source)
        ensures
            s == Source::MtaSubway,
    {
        Source::MtaSubway
    }
}

/// The knot builder of NJ Transit bus trips.
pub struct NjtBusBuilder;

impl NjtBusBuilder {
    /// The source whose trips it builds.
    pub fn source(&self) -> (s: Source)
        ensures
            s == Source::NjtBus,
    {
        Source::NjtBus
    }
}

/// The knot builder that places one knot at each scheduled stop of a bus
/// trip.
pub struct ScheduleStopBuilder {
    source: Source,
}

impl ScheduleStopBuilder {
    /// The builder of MTA bus trips.
    pub fn mta_bus() -> (b: Self)
        ensures
            b.source() == Source::MtaBus,
    {
        ScheduleStopBuilder { source: Source::MtaBus }
    }

    /// The builder of NJ Transit bus trips.
    pub fn njt_bus() -> (b: Self)
        ensures
            b.source() == Source::NjtBus,
    {
        ScheduleStopBuilder { source: Source::NjtBus }
    }

    /// The source of the builder.
    pub closed spec fn source_spec(&self) -> Source {
        self.source
    }

    /// The source whose trips it builds.
    #[verifier::when_used_as_spec(source_spec)]
    pub fn source(&self) -> (s: Source)
        ensures
            s == self.source_spec(),
    {
        self.source
    }

    /// Whether a stop's data is of the builder's source; a trip with any
    /// other stop is refused.
    pub fn stop_matches(&self, data: &StopData) -> (r: bool)
        ensures
            r == match self.source_spec() {
                Source::MtaBus => data is MtaBus,
                Source::NjtBus => data is NjtBus,
                _ => false,
            },
    {
        match self.source {
            Source::MtaBus => matches!(data, StopData::MtaBus(_)),
            Source::NjtBus => matches!(data, StopData::NjtBus(_)),
            _ => false,
        }
    }
}

/// The interpolation of distance over time by monotone cubic (PCHIP) splines.
pub struct PchipMethod;

} // verus!
