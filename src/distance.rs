use vstd::prelude::*;
use crate::measurement::{abs, RADIUS, SCALE, SIGNAL_LIMIT};

verus! {

/// Signal values that the distance model accepts: twice the raw range, so
/// that a noisy reading still fits.
pub open spec fn model_in_range(v: i64) -> bool {
    -2 * SIGNAL_LIMIT <= v <= 2 * SIGNAL_LIMIT
}

/// `|(rssi - max_rssi) * (R / (max_rssi - 1))|`, in thousandths, rounded down.
pub open spec fn distance_spec(rssi: i64, max_rssi: i64) -> int {
    abs(rssi - max_rssi) * RADIUS / abs(max_rssi - SCALE)
}

/// The distance model never yields a negative distance.
pub proof fn lemma_distance_nonnegative(rssi: i64, max_rssi: i64)
    requires
        max_rssi != SCALE,
    ensures
        distance_spec(rssi, max_rssi) >= 0,
{
    let n = abs(rssi - max_rssi) * RADIUS;
    let d = abs(max_rssi - SCALE);
    assert(n >= 0) by (nonlinear_arith)
        requires n == abs(rssi - max_rssi) * RADIUS;
    assert(n / d >= 0) by (nonlinear_arith)
        requires n >= 0, d > 0;
}

/// A reading at its reference ceiling lies at distance zero.
pub proof fn lemma_distance_at_ceiling(max_rssi: i64)
    requires
        max_rssi != SCALE,
    ensures
        distance_spec(max_rssi, max_rssi) == 0,
{
}

/// Converts a signal strength into a distance from the transmitter; `None`
/// when the reference ceiling is one unit.
pub fn rssi_to_distance(rssi: i64, max_rssi: i64) -> (r: Option<u64>)
    requires
        model_in_range(rssi),
        model_in_range(max_rssi),
    ensures
        r is None <==> max_rssi == SCALE,
        r matches Some(d) ==> d as int == distance_spec(rssi, max_rssi),
{
    if max_rssi == SCALE {
        return None;
    }
    let diff: i128 = rssi as i128 - max_rssi as i128;
    let gap: i128 = max_rssi as i128 - SCALE as i128;
    let num: i128 = if diff < 0 { -diff } else { diff };
    let den: i128 = if gap < 0 { -gap } else { gap };
    assert(0 <= num <= 4 * SIGNAL_LIMIT);
    let scaled: i128 = num * (RADIUS as i128);
    assert(scaled <= 4 * SIGNAL_LIMIT * RADIUS) by (nonlinear_arith)
        requires scaled == num * RADIUS, 0 <= num <= 4 * SIGNAL_LIMIT;
    let q: i128 = scaled / den;
    assert(0 <= q <= scaled) by (nonlinear_arith)
        requires q == scaled / den, scaled >= 0, den >= 1;
    Some(q as u64)
}

} // verus!
