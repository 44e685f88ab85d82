//! Benchmarking a memory scanner against a synthetic workload.
//!
//! The library holds the decisions of a benchmark run: the sweep over
//! workload sizes, the line protocol with the workload generator and the
//! target, the per-scenario state machine with its timing, the summary
//! statistics, and the workload generator's own buffer logic. Spawning
//! processes, reading and writing pipes, and measuring time are left to the
//! caller.
pub mod protocol;
pub mod scenario;
pub mod stats;
pub mod sweep;
pub mod workload;
