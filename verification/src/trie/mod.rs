//! Merkle structures for verifying database state.

pub mod merkle;
pub mod row_trie;
pub mod hexary;
pub mod schema_trie;
pub mod confidential_query;

pub use merkle::{merkle_root, MerkleProof};
pub use row_trie::{RowNode, RowTrie, StateDiff};
pub use schema_trie::{ColumnDef, SchemaTrie, TableSchema};
