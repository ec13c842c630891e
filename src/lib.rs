//! Locating cellular base stations from smartphone signal-strength readings.
//!
//! All quantities (signal strengths, coordinates, distances) are fixed-point
//! integers in thousandths of a unit, so that every step of the estimation
//! pipeline can be stated and proved exactly.
//!
//! - `measurement`: the record type, the constants and the supported ranges.
//! - `distance`: the signal-strength to distance model.
//! - `noise`: bounded uniform noise on a signal strength.
//! - `grouping`: partition of the records by cell and plausibility radius.
//! - `geometry`: integer square root and two-circle intersection.
//! - `multilateration`: the estimate for one cell's records.
//! - `pipeline`: the clean and noisy passes over all records.
use vstd::prelude::*;

pub mod measurement;
pub mod distance;
pub mod geometry;
pub mod grouping;
pub mod noise;
pub mod multilateration;
pub mod pipeline;
