//! Deterministic value and row types: fixed encodings, fixed hashing, no
//! shared pointers, so that every node of a chain computes the same bytes.

pub mod collections;
pub mod hasher;
pub mod row;
pub mod value;

pub use collections::{DetermMap, DetermSet};
pub use hasher::MerkleHasher;
pub use row::DetermRow;
pub use value::DetermValue;
