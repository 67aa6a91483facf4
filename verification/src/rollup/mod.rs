//! L2 rollup protocol: batches, their execution and submission, fraud
//! proofs and withdrawals.

pub mod types;
pub mod execution;
pub mod submission;
pub mod fraud;
pub mod withdrawal;

pub use types::{
    FraudProof, RollupBatch, RollupOperation, RollupState, Withdrawal, ADDRESS_SIZE, BATCH_INTERVAL,
    CHALLENGE_PERIOD, MAX_BATCH_SIZE, SEQUENCER_BOND,
};
pub use execution::{ExecutionResult, RollupError, RollupResult};
pub use submission::{SubmissionContext, SubmissionError, SubmissionResult_};
pub use fraud::{ChallengeContext, ChallengeResult, FraudError, FraudResult};
pub use withdrawal::{WithdrawalContext, WithdrawalError, WithdrawalOpResult};
