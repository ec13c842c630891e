use vstd::prelude::*;
use rand::Rng;
use crate::measurement::{signal_in_range, SIGNAL_LIMIT};

verus! {

/// Relies on rand's `thread_rng` and `Rng::gen_range` on an inclusive range:
/// the value drawn lies within the range (which must not be empty).
#[verifier::external_body]
fn random_in_range(lo: i64, hi: i64) -> (r: i64)
    requires
        lo <= hi,
    ensures
        lo <= r <= hi,
{
    rand::thread_rng().gen_range(lo..=hi)
}

/// A noise bound that the noise model accepts.
pub open spec fn noise_bound_in_range(noise_bound: i64) -> bool {
    0 <= noise_bound <= SIGNAL_LIMIT
}

/// An offset that uniform noise of the given bound can produce: inside the
/// open interval `(-noise_bound, noise_bound)`, or zero for a zero bound.
pub open spec fn admissible_offset(noise_bound: i64, offset: i64) -> bool {
    offset == 0 || -noise_bound < offset < noise_bound
}

/// Adds an offset drawn by the caller's own random source, which keeps the
/// noisy pass reproducible.
pub fn add_rssi_noise_with(rssi: i64, noise_bound: i64, offset: i64) -> (r: i64)
    requires
        signal_in_range(rssi),
        noise_bound_in_range(noise_bound),
        admissible_offset(noise_bound, offset),
    ensures
        r == rssi + offset,
        noise_bound == 0 ==> r == rssi,
        noise_bound > 0 ==> rssi - noise_bound < r < rssi + noise_bound,
{
    rssi + offset
}

/// Draws one offset of uniform noise from `(-noise_bound, noise_bound)`.
pub fn draw_noise_offset(noise_bound: i64) -> (r: i64)
    requires
        noise_bound_in_range(noise_bound),
    ensures
        admissible_offset(noise_bound, r),
{
    if noise_bound == 0 {
        0
    } else {
        random_in_range(1 - noise_bound, noise_bound - 1)
    }
}

/// Perturbs a signal strength by uniform noise from `(-noise_bound, noise_bound)`.
pub fn add_rssi_noise(rssi: i64, noise_bound: i64) -> (r: i64)
    requires
        signal_in_range(rssi),
        noise_bound_in_range(noise_bound),
    ensures
        noise_bound == 0 ==> r == rssi,
        noise_bound > 0 ==> rssi - noise_bound < r < rssi + noise_bound,
{
    let offset = draw_noise_offset(noise_bound);
    add_rssi_noise_with(rssi, noise_bound, offset)
}

} // verus!
