//! Fraud proofs for the L2 rollup: when a batch may be challenged, and what
//! a successful challenge does to the sequencer and the state.

use vstd::prelude::*;
use std::collections::{HashMap, HashSet};
use super::types::{Address, FraudProof, RollupState, CHALLENGE_PERIOD};
use super::submission::same_state;

verus! {

broadcast use vstd::std_specs::hash::group_hash_axioms;

/// Gas cost for processing a fraud proof
pub const FRAUD_PROOF_GAS: u64 = 50_000;

/// Slash percentage (1/10 = 10%)
pub const SLASH_DIVISOR: u64 = 10;

/// Error type for fraud proof operations
#[derive(Debug, Clone, Copy, PartialEq, Eq, Structural)]
pub enum FraudError {
    /// Invalid fraud proof
    InvalidFraudProof,
    /// Batch not yet challengeable
    BatchNotChallengeable,
    /// Batch already finalized
    BatchFinalized,
    /// No sequencer to slash
    NoSequencerToSlash,
}

/// The text shown for a fraud error.
pub open spec fn fraud_error_text(e: FraudError) -> Seq<char> {
    match e {
        FraudError::InvalidFraudProof => "Invalid fraud proof"@,
        FraudError::BatchNotChallengeable => "Batch not yet challengeable"@,
        FraudError::BatchFinalized => "Batch already finalized"@,
        FraudError::NoSequencerToSlash => "No sequencer to slash"@,
    }
}

impl FraudError {
    /// The text shown for the error.
    pub fn message(&self) -> (s: String)
        ensures
            s@ == fraud_error_text(*self),
    {
        match self {
            FraudError::InvalidFraudProof => "Invalid fraud proof".to_owned(),
            FraudError::BatchNotChallengeable => "Batch not yet challengeable".to_owned(),
            FraudError::BatchFinalized => "Batch already finalized".to_owned(),
            FraudError::NoSequencerToSlash => "No sequencer to slash".to_owned(),
        }
    }
}

/// Result type for fraud proof operations
pub type FraudResult<T> = Result<T, FraudError>;

/// Result of a successful fraud proof challenge
#[derive(Debug, Clone)]
pub struct ChallengeResult {
    /// Gas used for the challenge
    pub gas_used: u64,
    /// Amount slashed from sequencer
    pub slashed_amount: u64,
    /// Log events
    pub logs: Vec<String>,
}

impl ChallengeResult {
    /// Create a new challenge result, with the fraud-proof gas and one log line
    pub fn new(slashed_amount: u64) -> (r: Self)
        ensures
            r.gas_used == FRAUD_PROOF_GAS,
            r.slashed_amount == slashed_amount,
            r.logs@.len() == 1,
            r.logs@[0]@ == "Batch reverted and sequencer slashed"@,
    {
        Self {
            gas_used: FRAUD_PROOF_GAS,
            slashed_amount,
            logs: vec!["Batch reverted and sequencer slashed".to_owned()],
        }
    }
}

/// Challenge context for handling fraud proofs
///
/// This manages the challenge period and handles fraud proof submissions.
#[derive(Debug)]
pub struct ChallengeContext {
    /// Current rollup state
    pub state: RollupState,
    /// Sequencer bond amount
    pub sequencer_bond: u64,
    /// Challenge period (in time units)
    pub challenge_period: u64,
    /// Batch submission timestamps (batch_number -> timestamp)
    pub batch_timestamps: HashMap<u64, u64>,
    /// Whether a batch has been challenged
    pub challenged_batches: HashSet<u64>,
}

/// Whether a batch may be challenged at `now`: not challenged yet, recorded,
/// and at least the challenge period after its timestamp.
pub open spec fn spec_challengeable(
    timestamps: Map<u64, u64>,
    challenged: Set<u64>,
    period: u64,
    batch_number: u64,
    now: u64,
) -> bool {
    !challenged.contains(batch_number) && timestamps.contains_key(batch_number) && (if now >= timestamps[batch_number] {
        now - timestamps[batch_number]
    } else {
        0
    }) >= period
}

impl ChallengeContext {
    /// Create a new challenge context: a fresh state with a bonded
    /// sequencer, the given bond, the standard challenge period and nothing
    /// recorded or challenged.
    pub fn new(sequencer: Address, sequencer_bond: u64) -> (ctx: Self)
        ensures
            ctx.state.batch_number == 0,
            ctx.state.state_root@ == Seq::new(32, |i: int| 0u8),
            ctx.state.pending_withdrawals@.len() == 0,
            ctx.state.sequencer == sequencer,
            ctx.state.sequencer_bonded,
            ctx.state.finalized_batch == 0,
            ctx.sequencer_bond == sequencer_bond,
            ctx.challenge_period == CHALLENGE_PERIOD,
            ctx.batch_timestamps@ == Map::<u64, u64>::empty(),
            ctx.challenged_batches@ == Set::<u64>::empty(),
    {
        let mut state = RollupState::new(sequencer);
        state.sequencer_bonded = true;
        assert(state.state_root@ =~= Seq::new(32, |i: int| 0u8));
        Self {
            state,
            sequencer_bond,
            challenge_period: CHALLENGE_PERIOD,
            batch_timestamps: HashMap::new(),
            challenged_batches: HashSet::new(),
        }
    }

    /// Record a batch submission timestamp
    pub fn record_batch(&mut self, batch_number: u64, timestamp: u64)
        ensures
            final(self).batch_timestamps@ == old(self).batch_timestamps@.insert(batch_number, timestamp),
            final(self).challenged_batches@ == old(self).challenged_batches@,
            same_state(final(self).state, old(self).state),
            final(self).sequencer_bond == old(self).sequencer_bond,
            final(self).challenge_period == old(self).challenge_period,
    {
        self.batch_timestamps.insert(batch_number, timestamp);
    }

    /// Check if a batch is past its challenge period and not challenged yet
    pub fn is_challengeable(&self, batch_number: u64, current_time: u64) -> (b: bool)
        ensures
            b == spec_challengeable(
                self.batch_timestamps@,
                self.challenged_batches@,
                self.challenge_period,
                batch_number,
                current_time,
            ),
    {
        if self.challenged_batches.contains(&batch_number) {
            return false;
        }
        match self.batch_timestamps.get(&batch_number) {
            Some(timestamp) => {
                let elapsed = current_time.saturating_sub(*timestamp);
                elapsed >= self.challenge_period
            },
            None => false,
        }
    }

    /// Slash a tenth of the sequencer's bond and unbond it; the slashed
    /// amount.
    fn slash_sequencer(&mut self) -> (amount: u64)
        ensures
            amount == old(self).sequencer_bond / SLASH_DIVISOR,
            final(self).sequencer_bond == old(self).sequencer_bond - amount,
            !final(self).state.sequencer_bonded,
            final(self).state.batch_number == old(self).state.batch_number,
            final(self).state.state_root == old(self).state.state_root,
            final(self).state.pending_withdrawals@ == old(self).state.pending_withdrawals@,
            final(self).state.sequencer == old(self).state.sequencer,
            final(self).state.finalized_batch == old(self).state.finalized_batch,
            final(self).batch_timestamps@ == old(self).batch_timestamps@,
            final(self).challenged_batches@ == old(self).challenged_batches@,
            final(self).challenge_period == old(self).challenge_period,
    {
        let slash_amount = self.sequencer_bond / SLASH_DIVISOR;
        self.sequencer_bond = self.sequencer_bond.saturating_sub(slash_amount);
        self.state.sequencer_bonded = false;
        slash_amount
    }

    /// Submit a fraud proof to challenge a batch.
    ///
    /// A batch that is not challengeable is refused, as finalized when it was
    /// challenged already; a proof whose claimed root equals the expected
    /// one is refused as invalid. On success the batch is marked challenged,
    /// a tenth of the bond is slashed, the sequencer is unbonded and the
    /// batch number steps back by one (not below zero); on an error nothing
    /// changes.
    pub fn challenge_batch(&mut self, batch_number: u64, fraud_proof: FraudProof, current_time: u64) -> (r:
        FraudResult<ChallengeResult>)
        ensures
            ({
                let challengeable = spec_challengeable(
                    old(self).batch_timestamps@,
                    old(self).challenged_batches@,
                    old(self).challenge_period,
                    batch_number,
                    current_time,
                );
                &&& !challengeable && old(self).challenged_batches@.contains(batch_number) ==> r == Err::<
                    ChallengeResult,
                    FraudError,
                >(FraudError::BatchFinalized)
                &&& !challengeable && !old(self).challenged_batches@.contains(batch_number) ==> r == Err::<
                    ChallengeResult,
                    FraudError,
                >(FraudError::BatchNotChallengeable)
                &&& challengeable && fraud_proof.claimed_post_root@ == fraud_proof.expected_post_root@ ==> r
                    == Err::<ChallengeResult, FraudError>(FraudError::InvalidFraudProof)
                &&& challengeable && fraud_proof.claimed_post_root@ != fraud_proof.expected_post_root@ ==> (r matches Ok(
                    res,
                ) && {
                    let amount = old(self).sequencer_bond / SLASH_DIVISOR;
                    &&& res.gas_used == FRAUD_PROOF_GAS
                    &&& res.slashed_amount == amount
                    &&& res.logs@.len() == 1
                    &&& res.logs@[0]@ == "Batch reverted and sequencer slashed"@
                    &&& final(self).challenged_batches@ == old(self).challenged_batches@.insert(batch_number)
                    &&& final(self).sequencer_bond == old(self).sequencer_bond - amount
                    &&& !final(self).state.sequencer_bonded
                    &&& final(self).state.batch_number == (if old(self).state.batch_number > 0 {
                        old(self).state.batch_number - 1
                    } else {
                        0
                    })
                    &&& final(self).state.state_root == old(self).state.state_root
                    &&& final(self).state.pending_withdrawals@ == old(self).state.pending_withdrawals@
                    &&& final(self).state.sequencer == old(self).state.sequencer
                    &&& final(self).state.finalized_batch == old(self).state.finalized_batch
                    &&& final(self).batch_timestamps@ == old(self).batch_timestamps@
                    &&& final(self).challenge_period == old(self).challenge_period
                })
                &&& r is Err ==> {
                    &&& same_state(final(self).state, old(self).state)
                    &&& final(self).sequencer_bond == old(self).sequencer_bond
                    &&& final(self).batch_timestamps@ == old(self).batch_timestamps@
                    &&& final(self).challenged_batches@ == old(self).challenged_batches@
                    &&& final(self).challenge_period == old(self).challenge_period
                }
            }),
    {
        if !self.is_challengeable(batch_number, current_time) {
            if self.challenged_batches.contains(&batch_number) {
                return Err(FraudError::BatchFinalized);
            }
            return Err(FraudError::BatchNotChallengeable);
        }
        if !fraud_proof.verify() {
            return Err(FraudError::InvalidFraudProof);
        }
        self.challenged_batches.insert(batch_number);
        let slashed_amount = self.slash_sequencer();
        self.state.batch_number = self.state.batch_number.saturating_sub(1);
        Ok(ChallengeResult::new(slashed_amount))
    }
}

} // verus!
