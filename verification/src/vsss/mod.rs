//! Verifiable secret sharing of the labels of bytes.

pub mod commits;
pub mod digits;
pub mod evaluator;
pub mod field;
pub mod garbler;
pub mod honest_recovery;
pub mod interpolation;
pub mod laws;
pub mod points;
pub mod polynomials;
pub mod products;
pub mod protocol;
pub mod recovery;
pub mod types;
pub mod wide_garbling;
