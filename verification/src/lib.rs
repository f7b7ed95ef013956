//! Verified core of GeoVeil-MP, a GNSS code-multipath and cycle-slip analysis library.
//!
//! The library decides which combinations are formed and how their series are cut
//! and named: signal codes and satellites, carrier frequencies and partner bands,
//! the phase pair of each pseudorange, the geometry-free and code-phase tests of each
//! epoch, the slips of a detection run and their report order, loss-of-lock slips,
//! the slip summary that splits arcs, arc boundaries,
//! moving-average windows, decimation, code filters and report names.
use vstd::prelude::*;

pub mod arcs;
pub mod detect;
pub mod filters;
pub mod freq;
pub mod gnss;
pub mod names;
pub mod order;
pub mod plan;
pub mod selection;
pub mod slips;
pub mod text;
pub mod thresholds;
pub mod timefmt;

pub use gnss::{GnssSystem, ObservationType, Satellite, SignalCode};
pub use slips::{CycleSlipMethod, SlipEvent, SlipSummary};

verus! {

} // verus!
