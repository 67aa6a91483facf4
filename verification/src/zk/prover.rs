//! Prover configuration: proof size limit, timeout and thread count.

use vstd::prelude::*;
use std::time::Duration;

verus! {

/// The duration of a whole number of seconds.
pub uninterp spec fn spec_duration_from_secs(secs: u64) -> Duration;

/// Calls `std::time::Duration::from_secs`. The contract claims only that
/// the result is the duration of these seconds, a function of them alone.
#[verifier::external_body]
pub(crate) fn duration_from_secs(secs: u64) -> (d: Duration)
    ensures
        d == spec_duration_from_secs(secs),
{
    Duration::from_secs(secs)
}

/// Calls `rayon::current_num_threads`. Nothing is claimed of the count: it
/// depends on the machine and the environment.
#[verifier::external_body]
fn rayon_thread_count() -> (n: usize) {
    rayon::current_num_threads()
}

/// The default maximum proof size: 500 KiB.
pub const DEFAULT_MAX_PROOF_SIZE: usize = 512000;

/// The default timeout, in seconds.
pub const DEFAULT_TIMEOUT_SECS: u64 = 30;

/// Configuration for the prover
#[derive(Debug, Clone, Copy)]
pub struct ProverConfig {
    /// Maximum proof size in bytes
    pub max_proof_size: usize,
    /// Timeout for proof generation
    pub timeout: Duration,
    /// Number of threads for parallel proof generation
    pub num_threads: usize,
}

impl Default for ProverConfig {
    /// 500 KiB proofs, a 30 second timeout, and as many threads as the
    /// thread pool has (at least one).
    fn default() -> (c: Self)
        ensures
            c.max_proof_size == DEFAULT_MAX_PROOF_SIZE,
            c.timeout == spec_duration_from_secs(DEFAULT_TIMEOUT_SECS),
            c.num_threads >= 1,
    {
        let n = rayon_thread_count();
        Self {
            max_proof_size: DEFAULT_MAX_PROOF_SIZE,
            timeout: duration_from_secs(DEFAULT_TIMEOUT_SECS),
            num_threads: if n < 1 { 1 } else { n },
        }
    }
}

/// The prover, holding its configuration
#[derive(Debug, Clone, Copy)]
pub struct STWOProver {
    config: ProverConfig,
}

impl STWOProver {
    /// The configuration.
    pub closed spec fn spec_config(self) -> ProverConfig {
        self.config
    }

    /// Create a new prover with the default configuration
    pub fn new() -> (p: Self)
        ensures
            p.spec_config().max_proof_size == DEFAULT_MAX_PROOF_SIZE,
            p.spec_config().timeout == spec_duration_from_secs(DEFAULT_TIMEOUT_SECS),
            p.spec_config().num_threads >= 1,
    {
        Self { config: ProverConfig::default() }
    }

    /// Create a new prover with a custom configuration
    pub fn with_config(config: ProverConfig) -> (p: Self)
        ensures
            p.spec_config() == config,
    {
        Self { config }
    }

    /// Get the prover configuration
    pub fn config(&self) -> (c: &ProverConfig)
        ensures
            *c == self.spec_config(),
    {
        &self.config
    }

    /// Set the maximum proof size
    pub fn with_max_proof_size(self, size: usize) -> (p: Self)
        ensures
            p.spec_config() == (ProverConfig { max_proof_size: size, ..self.spec_config() }),
    {
        let mut p = self;
        p.config.max_proof_size = size;
        p
    }

    /// Set the proof generation timeout
    pub fn with_timeout(self, timeout: Duration) -> (p: Self)
        ensures
            p.spec_config() == (ProverConfig { timeout, ..self.spec_config() }),
    {
        let mut p = self;
        p.config.timeout = timeout;
        p
    }
}

impl Default for STWOProver {
    fn default() -> (p: Self)
        ensures
            p.spec_config().max_proof_size == DEFAULT_MAX_PROOF_SIZE,
            p.spec_config().timeout == spec_duration_from_secs(DEFAULT_TIMEOUT_SECS),
            p.spec_config().num_threads >= 1,
    {
        Self::new()
    }
}

} // verus!
