//! Deterministic state types, Merkle structures and L2 rollup logic for a
//! blockchain SQL database, with their behaviour stated and proved in Verus.

pub mod bytes;
pub mod crypto;
pub mod determ;
pub mod trie;
pub mod rollup;
pub mod text;
pub mod zk;
