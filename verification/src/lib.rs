//! Verified core of a namespace-tagging controller.
//!
//! The library holds the logic that decides what a reconciliation pass does:
//! computing minimal label/annotation deltas for a namespace, tracking
//! ownership through a sentinel annotation, rebuilding the reported status
//! from a re-scan, and driving the pass as a state machine. All I/O against
//! the cluster lives outside the library and hands it plain values.

pub mod kvmap;
pub mod laws;
pub mod driver;
pub mod model;
pub mod tags;
