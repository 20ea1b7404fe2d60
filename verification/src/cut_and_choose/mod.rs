//! Cut-and-choose: the garbler commits to many garbled instances, the evaluator
//! opens most of them and evaluates the rest.

pub mod commit;
pub mod errors;
pub mod evaluator;
pub mod garbler;
pub mod laws;
pub mod soldering;
