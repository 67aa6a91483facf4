//! Commitments, confidential queries and the bookkeeping around zero-knowledge
//! proofs of database operations.

pub mod commitment;
pub mod confidential;
pub mod cairo;
pub mod bundled;
pub mod prover;
pub mod plugin;
pub mod stark_verify;

pub use cairo::{CairoProgram, CairoProgramHash, CairoProgramRegistry, CompileError, RegistryError};
pub use prover::{ProverConfig, STWOProver};
pub use bundled::{
    get_bundled_program, get_bundled_program_name, is_bundled_program, register_bundled_programs, BundledError,
    HEXARY_VERIFY_CASM, HEXARY_VERIFY_HASH, MERKLE_BATCH_CASM, MERKLE_BATCH_HASH, STATE_TRANSITION_CASM,
    STATE_TRANSITION_HASH,
};
pub use commitment::{open_commitment, open_commitment_batch, pedersen_commit, pedersen_commit_batch, Commitment};
pub use plugin::PluginError;
