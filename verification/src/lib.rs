//! Half-gates garbling with Free-XOR, seed-anchored garbling, streaming circuit
//! modes and the cut-and-choose protocols built on them.

pub mod aes_ni;
pub mod anchoring;
pub mod bytes;
pub mod ciphertext_hasher;
pub mod component;
pub mod cut_and_choose;
pub mod gate;
pub mod gate_component;
pub mod halfgates;
pub mod hashers;
pub mod modes;
pub mod primitives;
pub mod s;
pub mod sets;
pub mod soldering_data;
pub mod soldering_format;
pub mod sorting;
pub mod storage;
pub mod streaming;
pub mod text;
pub mod vsss;
