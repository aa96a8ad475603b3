use vstd::prelude::*;

verus! {

/// The transit agencies and modes that the backend ingests.
#[derive(Clone, Copy, Debug, PartialEq, Eq, Structural, Hash)]
pub enum Source {
    MtaSubway,
    MtaBus,
    NjtBus,
}

/// The projected coordinate system (an EPSG code) used to measure distances
/// along shapes of a given source.
pub fn source_projected_epsg_code(source: Source) -> (code: u16)
    ensures
        code == 6538,
{
    match source {
        Source::MtaBus | Source::MtaSubway | Source::NjtBus => 6538,
    }
}

/// Whether realtime vehicle trajectories are produced for a source.
pub fn source_supports_trajectories(source: Source) -> (b: bool)
    ensures
        b,
{
    match source {
        Source::MtaSubway | Source::MtaBus | Source::NjtBus => true,
    }
}

/// The length of a historical snapshot bucket, in seconds.
pub const HISTORY_BUCKET_SECONDS: i64 = 300;

/// The start of the five-minute bucket, as Rust's truncating division computes
/// it: the quotient of `unix / 300` (rounded toward zero) times 300.
pub open spec fn bucket_start(unix: int) -> int {
    let q = if unix >= 0 { unix / 300 } else { -((-unix) / 300) };
    q * 300
}

/// Rounds a unix timestamp to its five-minute bucket (toward zero).
pub fn round_to_5min_bucket(unix: i64) -> (r: i64)
    ensures
        r == bucket_start(unix as int),
{
    (unix / HISTORY_BUCKET_SECONDS) * HISTORY_BUCKET_SECONDS
}

} // verus!
