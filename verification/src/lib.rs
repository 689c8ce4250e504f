//! In-memory model of a filesystem scan: typed nodes with per-subtree size
//! statistics, bottom-up aggregation, leaf shaking, string interning and
//! progress counters.

pub mod cli;
pub mod explore;
pub mod history;
pub mod intern;
pub mod node;
pub mod progress;
pub mod result;
pub mod stats;
