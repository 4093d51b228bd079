//! UDP round-trip time measurement between a master node and an echo node.
//!
//! The library holds the measurement logic: the sample and status types, the
//! sequence-number wire format, the per-cycle reply state machine, the
//! measurement session, the CSV encoding and the RTT statistics.
use vstd::prelude::*;

pub mod types;
pub mod wire;
pub mod cycle;
pub mod session;
pub mod csv;
pub mod stats;
pub mod affinity;

verus! {

} // verus!
