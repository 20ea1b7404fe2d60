//! Execution backends for streaming circuits.
//!
//! The total number of reads of a wire is computed before a circuit runs. A
//! backend gets that number as credits when the wire is allocated and frees the
//! wire's storage at its last read.

pub mod agreement;
pub mod anchor_stats;
pub mod backend;
pub mod ciphertexts;
pub mod component_stats;
pub mod evaluate;
pub mod laws;
pub mod multigarble;
pub mod topo_export;
