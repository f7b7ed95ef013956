//! Default thresholds of slip detection and arc handling, in integer SI sub-units
//! (micrometres, micrometres per second, milliseconds, degrees).
use vstd::prelude::*;

verus! {

/// Geometry-free slip test, base term: 0.10 m.
pub const ION_DELTA_BASE_UM: u64 = 100000;

/// Geometry-free slip test, rate term: 0.003 m per second of epoch spacing.
pub const ION_DELTA_RATE_UM_PER_S: u64 = 3000;

/// Code-phase slip test, base term: 5 m.
pub const CP_DELTA_BASE_UM: u64 = 5000000;

/// Code-phase slip test, rate term: 0.10 m per second of epoch spacing.
pub const CP_DELTA_RATE_UM_PER_S: u64 = 100000;

/// Largest epoch spacing over which differential slip tests are made: 300 s.
pub const MAX_SLIP_DT_MS: u64 = 300000;

/// Former per-second geometry-free rate threshold: 0.0667 m/s.
pub const ION_RATE_THRESHOLD_UM_PER_S: u64 = 66700;

/// Former per-second code-phase rate threshold: 5 m/s.
pub const CODE_PHASE_THRESHOLD_UM_PER_S: u64 = 5000000;

/// Moving-average bias window: 1500 s (50 epochs of 30 s).
pub const BIAS_WINDOW_MS: u64 = 1500000;

/// Shortest arc kept: 300 s.
pub const MIN_ARC_MS: u64 = 300000;

/// An arc breaks when the epoch gap exceeds this multiple of the sampling interval.
pub const ARC_GAP_FACTOR: u64 = 5;

/// An arc breaks when consecutive multipath values differ by more than 10 m.
pub const MP_JUMP_THRESHOLD_UM: u64 = 10000000;

/// Elevation cutoff: 10 degrees.
pub const ELEVATION_CUTOFF_DEG: u64 = 10;

/// Sampling interval assumed when a file does not give one: 30 s.
pub const DEFAULT_INTERVAL_MS: u64 = 30000;

} // verus!
