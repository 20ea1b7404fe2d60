//! Seed-anchored garbling: labels come from an indexed pseudo-random function,
//! every non-free gate publishes one offset to its anchor label, and any wire can
//! be derived again from the seed and the public wiring alone.

pub mod bounds;
pub mod bristol;
pub mod circuit;
pub mod cost;
pub mod depth;
pub mod derive;
pub mod garble;
pub mod laws;
pub mod merkle;
pub mod plan;
pub mod prf;
pub mod settle;
pub mod stream;
