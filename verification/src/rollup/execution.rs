//! Batch execution for the L2 rollup: the state transition of one
//! transaction, and the checks and replay of a whole batch.

use vstd::prelude::*;
use crate::bytes::{eq32, le_u64, push_bytes, push_u64_le};
use crate::crypto::{sha256, spec_sha256};
use super::types::{
    Address, RollupBatch, RollupState, Transaction, TxModel, TxType, MAX_BATCH_SIZE,
};

verus! {

/// Error type for rollup execution
#[derive(Debug, Clone, PartialEq, Eq)]
pub enum RollupError {
    /// Invalid parent batch hash
    InvalidParent,
    /// Invalid pre-state root
    InvalidPreState,
    /// Invalid post-state root
    InvalidPostState,
    /// Batch too large
    BatchTooLarge,
    /// Transaction execution failed
    ExecutionFailed(String),
    /// Proof generation failed
    ProofError(String),
    /// Invalid transaction
    InvalidTransaction(String),
}

/// The text shown for an error.
pub open spec fn rollup_error_text(e: RollupError) -> Seq<char> {
    match e {
        RollupError::InvalidParent => "Invalid parent batch hash"@,
        RollupError::InvalidPreState => "Invalid pre-state root"@,
        RollupError::InvalidPostState => "Invalid post-state root"@,
        RollupError::BatchTooLarge => "Batch exceeds maximum size"@,
        RollupError::ExecutionFailed(m) => "Transaction execution failed: "@ + m@,
        RollupError::ProofError(m) => "Proof generation failed: "@ + m@,
        RollupError::InvalidTransaction(m) => "Invalid transaction: "@ + m@,
    }
}

impl RollupError {
    /// The text shown for the error.
    pub fn message(&self) -> (s: String)
        ensures
            s@ == rollup_error_text(*self),
    {
        match self {
            RollupError::InvalidParent => "Invalid parent batch hash".to_owned(),
            RollupError::InvalidPreState => "Invalid pre-state root".to_owned(),
            RollupError::InvalidPostState => "Invalid post-state root".to_owned(),
            RollupError::BatchTooLarge => "Batch exceeds maximum size".to_owned(),
            RollupError::ExecutionFailed(m) => "Transaction execution failed: ".to_owned().concat(m.as_str()),
            RollupError::ProofError(m) => "Proof generation failed: ".to_owned().concat(m.as_str()),
            RollupError::InvalidTransaction(m) => "Invalid transaction: ".to_owned().concat(m.as_str()),
        }
    }
}

/// Result type for rollup operations
pub type RollupResult<T> = Result<T, RollupError>;

/// Execution result containing the new state and proof
#[derive(Debug, Clone)]
pub struct ExecutionResult {
    /// Final state root after executing the batch
    pub post_state_root: [u8; 32],
    /// Number of transactions successfully executed
    pub executed_count: usize,
    /// Total fees collected
    pub total_fees: u64,
    /// Proof bytes (empty when no prover was available)
    pub proof: Vec<u8>,
}

/// The state root after one accepted transaction: the SHA-256 of the old
/// root, the batch number and the count of pending withdrawals.
pub open spec fn next_state_root(root: Seq<u8>, batch_number: u64, pending: nat) -> Seq<u8> {
    spec_sha256(root + le_u64(batch_number) + le_u64(pending as u64))
}

/// Whether a transaction is accepted: every account's nonce is zero, and a
/// call needs a target.
pub open spec fn tx_accepted(t: TxModel) -> bool {
    t.nonce == 0 && !(t.tx_type == TxType::Call && t.to is None)
}

/// Why a transaction is refused, when it is.
pub open spec fn tx_refusal(t: TxModel) -> Seq<char> {
    if t.nonce != 0 {
        "Invalid nonce"@
    } else {
        "Call requires target"@
    }
}

/// Which transactions a rollup state executes: exactly those with nonce
/// zero that are not a call without a target; transfers, creations,
/// withdrawals and calls with a target all go through, whatever their fee,
/// sender or data. A refused one is refused for its nonce when that is not
/// zero, else for its missing target.
pub proof fn lemma_tx_acceptance(t: TxModel)
    ensures
        tx_accepted(t) <==> (t.nonce == 0 && (t.tx_type != TxType::Call || t.to is Some)),
        t.nonce == 0 && t.tx_type == TxType::Call && t.to is Some ==> tx_accepted(t),
        t.nonce == 0 && t.tx_type != TxType::Call ==> tx_accepted(t),
        t.nonce != 0 ==> !tx_accepted(t) && tx_refusal(t) == "Invalid nonce"@,
        t.nonce == 0 && t.tx_type == TxType::Call && t.to is None ==> !tx_accepted(t) && tx_refusal(t)
            == "Call requires target"@,
{
}

/// The root after replaying `ts` from `root` in a state with no pending
/// withdrawals; refused transactions are skipped.
pub open spec fn replay_root(root: Seq<u8>, batch_number: u64, ts: Seq<TxModel>) -> Seq<u8>
    decreases ts.len(),
{
    if ts.len() == 0 {
        root
    } else {
        let r = replay_root(root, batch_number, ts.drop_last());
        if tx_accepted(ts.last()) {
            next_state_root(r, batch_number, 0)
        } else {
            r
        }
    }
}

/// How many of `ts` are accepted.
pub open spec fn replay_count(ts: Seq<TxModel>) -> nat
    decreases ts.len(),
{
    if ts.len() == 0 {
        0
    } else {
        replay_count(ts.drop_last()) + if tx_accepted(ts.last()) { 1nat } else { 0nat }
    }
}

/// The sum of the fees of the accepted transactions of `ts`.
pub open spec fn replay_fees(ts: Seq<TxModel>) -> int
    decreases ts.len(),
{
    if ts.len() == 0 {
        0
    } else {
        replay_fees(ts.drop_last()) + if tx_accepted(ts.last()) { ts.last().fee as int } else { 0 }
    }
}

/// The bytes handed to a prover for a batch: number, both roots, parent
/// hash and transaction count.
pub open spec fn proof_input_bytes(batch_number: u64, pre: Seq<u8>, post: Seq<u8>, parent: Seq<u8>, count: u64) -> Seq<u8> {
    le_u64(batch_number) + pre + post + parent + le_u64(count)
}

/// The checks of a batch before it is replayed, in the order they are made.
pub open spec fn batch_precheck(b: RollupBatch, pre: Seq<u8>, parent: Seq<u8>) -> Option<RollupError> {
    if b.transactions@.len() > MAX_BATCH_SIZE {
        Some(RollupError::BatchTooLarge)
    } else if b.parent_hash@ != parent {
        Some(RollupError::InvalidParent)
    } else if b.pre_state_root@ != pre {
        Some(RollupError::InvalidPreState)
    } else {
        None
    }
}

/// What executing a batch gives: the precheck's error, a post-state root
/// other than the batch's, or the replay's root, count and fees with the
/// given proof bytes.
pub open spec fn execution_outcome(
    b: RollupBatch,
    pre: Seq<u8>,
    parent: Seq<u8>,
    r: Result<ExecutionResult, RollupError>,
    proof: Seq<u8>,
) -> bool {
    let txs = b@.transactions;
    match batch_precheck(b, pre, parent) {
        Some(e) => r == Err::<ExecutionResult, RollupError>(e),
        None => if replay_root(pre, b.batch_number, txs) != b.post_state_root@ {
            r == Err::<ExecutionResult, RollupError>(RollupError::InvalidPostState)
        } else {
            (r matches Ok(res) && res.post_state_root@ == b.post_state_root@
                && res.executed_count == replay_count(txs) && res.total_fees == replay_fees(txs)
                && res.proof@ == proof)
        },
    }
}

proof fn lemma_replay_fees_monotone(ts: Seq<TxModel>, i: int)
    requires
        0 <= i <= ts.len(),
    ensures
        replay_fees(ts.subrange(0, i)) <= replay_fees(ts),
        replay_fees(ts.subrange(0, i)) >= 0,
    decreases ts.len(),
{
    if ts.len() > 0 {
        if i == ts.len() {
            assert(ts.subrange(0, i) =~= ts);
            lemma_replay_fees_monotone(ts.drop_last(), ts.len() - 1);
            assert(ts.drop_last().subrange(0, ts.len() - 1) =~= ts.drop_last());
        } else {
            lemma_replay_fees_monotone(ts.drop_last(), i);
            assert(ts.drop_last().subrange(0, i) =~= ts.subrange(0, i));
        }
    }
}

impl RollupState {
    /// Recompute the state root from the old root, the batch number and the
    /// count of pending withdrawals.
    fn update_state_root(&mut self)
        ensures
            final(self).state_root@ == next_state_root(
                old(self).state_root@,
                old(self).batch_number,
                old(self).pending_withdrawals@.len(),
            ),
            final(self).batch_number == old(self).batch_number,
            final(self).pending_withdrawals@ == old(self).pending_withdrawals@,
            final(self).sequencer == old(self).sequencer,
            final(self).sequencer_bonded == old(self).sequencer_bonded,
            final(self).finalized_batch == old(self).finalized_batch,
    {
        let mut input: Vec<u8> = Vec::new();
        push_bytes(&mut input, &self.state_root);
        push_u64_le(&mut input, self.batch_number);
        push_u64_le(&mut input, self.pending_withdrawals.len() as u64);
        self.state_root = sha256(input.as_slice());
    }

    /// Execute a single transaction: the fee collected, or why it was
    /// refused. An accepted transaction moves the state root on one step;
    /// a refused one leaves the state as it was.
    pub fn execute_transaction(&mut self, tx: &Transaction) -> (r: RollupResult<u64>)
        ensures
            final(self).batch_number == old(self).batch_number,
            final(self).pending_withdrawals@ == old(self).pending_withdrawals@,
            final(self).sequencer == old(self).sequencer,
            final(self).sequencer_bonded == old(self).sequencer_bonded,
            final(self).finalized_batch == old(self).finalized_batch,
            tx_accepted(tx@) ==> r == Ok::<u64, RollupError>(tx.fee) && final(self).state_root@
                == next_state_root(old(self).state_root@, old(self).batch_number, old(self).pending_withdrawals@.len()),
            !tx_accepted(tx@) ==> final(self).state_root == old(self).state_root,
            !tx_accepted(tx@) ==> (r matches Err(RollupError::InvalidTransaction(m)) && m@ == tx_refusal(tx@)),
    {
        if tx.nonce != 0 {
            return Err(RollupError::InvalidTransaction("Invalid nonce".to_owned()));
        }
        let fee = tx.fee;
        match tx.tx_type {
            TxType::Call => {
                if tx.to.is_none() {
                    return Err(RollupError::InvalidTransaction("Call requires target".to_owned()));
                }
                self.update_state_root();
            },
            _ => {
                self.update_state_root();
            },
        }
        Ok(fee)
    }
}

impl RollupBatch {
    /// The bytes handed to a prover for this batch.
    pub fn proof_input(&self, pre_state_root: [u8; 32], post_state_root: [u8; 32]) -> (out: Vec<u8>)
        ensures
            out@ == proof_input_bytes(
                self.batch_number,
                pre_state_root@,
                post_state_root@,
                self.parent_hash@,
                self.transactions@.len() as u64,
            ),
    {
        let mut out: Vec<u8> = Vec::new();
        push_u64_le(&mut out, self.batch_number);
        push_bytes(&mut out, &pre_state_root);
        push_bytes(&mut out, &post_state_root);
        push_bytes(&mut out, &self.parent_hash);
        push_u64_le(&mut out, self.transactions.len() as u64);
        out
    }

    /// Execute the batch: check its size, parent hash and pre-state root,
    /// replay its transactions (refused ones are skipped), and check the
    /// post-state root. With `prover_loaded` the result carries the proof
    /// input bytes; without, it carries no proof.
    pub fn execute_and_prove_with(
        &self,
        pre_state_root: [u8; 32],
        parent_hash: [u8; 32],
        prover_loaded: bool,
    ) -> (r: RollupResult<ExecutionResult>)
        requires
            batch_precheck(*self, pre_state_root@, parent_hash@) is None ==> replay_fees(self@.transactions)
                <= u64::MAX,
        ensures
            execution_outcome(
                *self,
                pre_state_root@,
                parent_hash@,
                r,
                if prover_loaded {
                    proof_input_bytes(
                        self.batch_number,
                        pre_state_root@,
                        self.post_state_root@,
                        self.parent_hash@,
                        self.transactions@.len() as u64,
                    )
                } else {
                    Seq::empty()
                },
            ),
    {
        if self.transactions.len() > MAX_BATCH_SIZE {
            return Err(RollupError::BatchTooLarge);
        }
        if !eq32(&self.parent_hash, &parent_hash) {
            return Err(RollupError::InvalidParent);
        }
        if !eq32(&self.pre_state_root, &pre_state_root) {
            return Err(RollupError::InvalidPreState);
        }
        let ghost txs = self@.transactions;
        let mut state = RollupState::new(self.sequencer);
        state.state_root = pre_state_root;
        state.batch_number = self.batch_number;
        let mut executed_count: usize = 0;
        let mut total_fees: u64 = 0;
        let k = self.transactions.len();
        let mut i: usize = 0;
        while i < k
            invariant
                i <= k,
                k == txs.len(),
                k <= MAX_BATCH_SIZE,
                txs == self@.transactions,
                replay_fees(txs) <= u64::MAX,
                state.batch_number == self.batch_number,
                state.pending_withdrawals@.len() == 0,
                state.state_root@ == replay_root(pre_state_root@, self.batch_number, txs.subrange(0, i as int)),
                executed_count == replay_count(txs.subrange(0, i as int)),
                executed_count <= i,
                total_fees == replay_fees(txs.subrange(0, i as int)),
            decreases k - i,
        {
            let ghost before = state.state_root@;
            let tx = &self.transactions[i];
            proof {
                assert(txs[i as int] == tx@);
                assert(txs.subrange(0, i + 1).drop_last() =~= txs.subrange(0, i as int));
                assert(txs.subrange(0, i + 1).last() == tx@);
                lemma_replay_fees_monotone(txs, i + 1);
            }
            match state.execute_transaction(tx) {
                Ok(fee) => {
                    executed_count = executed_count + 1;
                    total_fees = total_fees + fee;
                },
                Err(_) => {},
            }
            i = i + 1;
        }
        assert(txs.subrange(0, k as int) =~= txs);
        let post_state_root = state.state_root;
        if !eq32(&post_state_root, &self.post_state_root) {
            return Err(RollupError::InvalidPostState);
        }
        let proof = if prover_loaded {
            self.proof_input(pre_state_root, post_state_root)
        } else {
            Vec::new()
        };
        Ok(ExecutionResult { post_state_root, executed_count, total_fees, proof })
    }

    /// Execute the batch and generate a proof; with no prover available the
    /// proof is empty.
    pub fn execute_and_prove(&self, pre_state_root: [u8; 32], parent_hash: [u8; 32]) -> (r: RollupResult<ExecutionResult>)
        requires
            batch_precheck(*self, pre_state_root@, parent_hash@) is None ==> replay_fees(self@.transactions)
                <= u64::MAX,
        ensures
            execution_outcome(*self, pre_state_root@, parent_hash@, r, Seq::empty()),
    {
        self.execute_and_prove_with(pre_state_root, parent_hash, false)
    }

    /// Execute batch without proof generation
    pub fn execute(&self, pre_state_root: [u8; 32], parent_hash: [u8; 32]) -> (r: RollupResult<ExecutionResult>)
        requires
            batch_precheck(*self, pre_state_root@, parent_hash@) is None ==> replay_fees(self@.transactions)
                <= u64::MAX,
        ensures
            execution_outcome(*self, pre_state_root@, parent_hash@, r, Seq::empty()),
    {
        self.execute_and_prove(pre_state_root, parent_hash)
    }
}

} // verus!
