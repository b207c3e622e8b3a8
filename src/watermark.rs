//! How far back a source is queried, and how much stored history a dedup
//! index is built from.
use vstd::prelude::*;
use crate::datapoint::{TargetDatapoint, TargetModel, target_models};

verus! {

/// The cursor for the next fetch: the instant of the most recent stored
/// datapoint, or the epoch when there is none or when its value is zero (a
/// negative marker is no evidence of real activity).
pub open spec fn watermark_of(recent: Seq<TargetModel>) -> int {
    if recent.len() == 0 || recent[0].value == 0 {
        0
    } else {
        recent[0].timestamp
    }
}

/// The cursor for the next fetch, from the stored datapoints listed most
/// recent first (only the first one is read).
pub fn resolve_watermark(recent: &[TargetDatapoint]) -> (r: i64)
    ensures
        r == watermark_of(target_models(recent@)),
{
    if recent.len() == 0 {
        0
    } else {
        let first = &recent[0];
        if first.value == 0 {
            0
        } else {
            first.timestamp
        }
    }
}

/// A stored datapoint of value zero never moves the cursor past itself: the
/// next fetch starts at the epoch, so its period is fetched again.
pub proof fn lemma_negative_marker_rescanned(recent: Seq<TargetModel>)
    requires
        recent.len() > 0,
        recent[0].value == 0,
    ensures
        watermark_of(recent) == 0,
        recent[0].timestamp >= 0 ==> watermark_of(recent) <= recent[0].timestamp,
{
}

/// How many stored datapoints to fetch to check `candidates` records: at
/// least one for each, so that no mirrored record is missed.
pub fn history_limit(candidates: usize) -> (r: u64)
    ensures
        r == candidates,
{
    candidates as u64
}

/// The end of a session fetch: one day after `now`, so that sessions of the
/// current day are all included; `None` past the range of `i64`.
pub fn session_window_end(now: i64) -> (r: Option<i64>)
    ensures
        r is Some <==> now + 86400 <= i64::MAX,
        r is Some ==> r->0 == now + 86400,
{
    if now <= i64::MAX - 86400 {
        Some(now + 86400)
    } else {
        None
    }
}

} // verus!
