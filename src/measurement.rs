use vstd::prelude::*;

verus! {

/// Number of fixed-point steps per unit: every quantity is kept in thousandths.
pub const SCALE: i64 = 1000;

/// The plausibility radius (600 units), in thousandths of a unit.
pub const RADIUS: u64 = 600000;

/// Largest magnitude of a recorded signal strength or reference ceiling.
pub const SIGNAL_LIMIT: i64 = 5000000000000;

/// Largest magnitude of a device coordinate.
pub const COORD_LIMIT: i64 = 500000000;

/// Largest circle radius that the intersection arithmetic accepts.
pub const RADIUS_LIMIT: u64 = 1000000000;

/// One observation of a serving cell by a smartphone, together with the
/// values that the pipeline derives from it.
#[derive(Clone, Copy, Debug, PartialEq, Eq)]
pub struct SmartphoneData {
    /// Identifier of the serving cell (0 when none is known).
    pub ci: i32,
    /// Raw signal strength; larger values mean a weaker signal.
    pub rssi: i64,
    /// Device position.
    pub x: i64,
    pub y: i64,
    /// Reference ceiling that normalises `rssi` into a distance.
    pub max_rssi: i64,
    /// Bookkeeping time stamp, not used by the estimation.
    pub time: i32,
    /// Distance of the current pass.
    pub distance: u64,
    /// Signal strength after noise was added.
    pub noisy_rssi: i64,
    /// Distance derived from `noisy_rssi`.
    pub noisy_distance: u64,
}

/// Errors that the pipeline reports instead of producing non-finite values.
#[derive(Clone, Copy, Debug, PartialEq, Eq)]
pub enum LocatorError {
    /// A reference ceiling equal to one unit, which leaves the distance undefined.
    InvalidInput,
}

pub open spec fn abs(v: int) -> int {
    if v < 0 { -v } else { v }
}

/// A signal value that the pipeline accepts as raw input.
pub open spec fn signal_in_range(v: i64) -> bool {
    -SIGNAL_LIMIT <= v <= SIGNAL_LIMIT
}

/// A coordinate that the intersection arithmetic accepts.
pub open spec fn coord_in_range(v: i64) -> bool {
    -COORD_LIMIT <= v <= COORD_LIMIT
}

/// A record whose raw values lie within the supported ranges.
pub open spec fn record_in_range(d: SmartphoneData) -> bool {
    signal_in_range(d.rssi) && signal_in_range(d.max_rssi) && coord_in_range(d.x)
        && coord_in_range(d.y)
}

impl SmartphoneData {
    /// A record with no derived values yet.
    pub fn new(ci: i32, rssi: i64, x: i64, y: i64, max_rssi: i64, time: i32) -> (r: Self)
        ensures
            r == (SmartphoneData {
                ci,
                rssi,
                x,
                y,
                max_rssi,
                time,
                distance: 0,
                noisy_rssi: 0,
                noisy_distance: 0,
            }),
    {
        SmartphoneData { ci, rssi, x, y, max_rssi, time, distance: 0, noisy_rssi: 0, noisy_distance: 0 }
    }
}

} // verus!
