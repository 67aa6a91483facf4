//! Batch submission for the L2 rollup: who may submit, in which order, and
//! how the rollup state moves on.

use vstd::prelude::*;
use crate::bytes::{eq32, le_u64, push_bytes, push_u64_le};
use crate::crypto::spec_sha256;
use super::types::{batch_hash_input, Address, RollupBatch, RollupState};

verus! {

/// Gas cost for batch submission
pub const BATCH_SUBMISSION_GAS: u64 = 100_000;

/// Error type for batch submission
#[derive(Debug, Clone, Copy, PartialEq, Eq, Structural)]
pub enum SubmissionError {
    /// Unauthorized sequencer
    UnauthorizedSequencer,
    /// Invalid batch number
    InvalidBatchNumber,
    /// Invalid proof
    InvalidProof,
    /// Batch too old (already submitted)
    BatchTooOld,
    /// State root mismatch
    StateRootMismatch,
    /// Parent hash mismatch
    ParentHashMismatch,
}

/// The text shown for a submission error.
pub open spec fn submission_error_text(e: SubmissionError) -> Seq<char> {
    match e {
        SubmissionError::UnauthorizedSequencer => "Unauthorized sequencer"@,
        SubmissionError::InvalidBatchNumber => "Invalid batch number"@,
        SubmissionError::InvalidProof => "Invalid STARK proof"@,
        SubmissionError::BatchTooOld => "Batch already submitted"@,
        SubmissionError::StateRootMismatch => "State root mismatch"@,
        SubmissionError::ParentHashMismatch => "Parent hash mismatch"@,
    }
}

impl SubmissionError {
    /// The text shown for the error.
    pub fn message(&self) -> (s: String)
        ensures
            s@ == submission_error_text(*self),
    {
        match self {
            SubmissionError::UnauthorizedSequencer => "Unauthorized sequencer".to_owned(),
            SubmissionError::InvalidBatchNumber => "Invalid batch number".to_owned(),
            SubmissionError::InvalidProof => "Invalid STARK proof".to_owned(),
            SubmissionError::BatchTooOld => "Batch already submitted".to_owned(),
            SubmissionError::StateRootMismatch => "State root mismatch".to_owned(),
            SubmissionError::ParentHashMismatch => "Parent hash mismatch".to_owned(),
        }
    }
}

/// Result type for submission operations
pub type SubmissionResult<T> = Result<T, SubmissionError>;

/// Result of a successful batch submission
#[derive(Debug, Clone)]
pub struct SubmissionResult_ {
    /// Gas used for the submission
    pub gas_used: u64,
    /// New state after submission
    pub new_state: RollupState,
    /// Log events
    pub logs: Vec<String>,
}

/// Whether two rollup states hold the same values.
pub open spec fn same_state(a: RollupState, b: RollupState) -> bool {
    &&& a.batch_number == b.batch_number
    &&& a.state_root == b.state_root
    &&& a.pending_withdrawals@ == b.pending_withdrawals@
    &&& a.sequencer == b.sequencer
    &&& a.sequencer_bonded == b.sequencer_bonded
    &&& a.finalized_batch == b.finalized_batch
}

impl SubmissionResult_ {
    /// Create a new submission result, with the submission gas and one log line
    pub fn new(new_state: RollupState) -> (r: Self)
        ensures
            r.gas_used == BATCH_SUBMISSION_GAS,
            r.new_state == new_state,
            r.logs@.len() == 1,
            r.logs@[0]@ == "Batch submitted successfully"@,
    {
        Self { gas_used: BATCH_SUBMISSION_GAS, new_state, logs: vec!["Batch submitted successfully".to_owned()] }
    }
}

/// The bytes a proof of a batch is checked against: both state roots, the
/// parent hash and the batch number.
pub open spec fn proof_check_bytes(b: RollupBatch) -> Seq<u8> {
    b.pre_state_root@ + b.post_state_root@ + b.parent_hash@ + le_u64(b.batch_number)
}

/// Rollup submission context
///
/// This holds the current state and handles batch submissions.
#[derive(Debug, Clone)]
pub struct SubmissionContext {
    /// Current rollup state
    pub state: RollupState,
    /// Authorized sequencers
    pub authorized_sequencers: Vec<Address>,
    /// Last submitted batch hash
    pub last_batch_hash: [u8; 32],
}

/// The addresses of a list, as byte sequences.
pub open spec fn address_set(s: Seq<Address>) -> Set<Seq<u8>> {
    Set::new(|b: Seq<u8>| exists|i: int| 0 <= i < s.len() && #[trigger] s[i].0@ == b)
}

/// Whether an address differs from the given bytes.
pub open spec fn other_than(b: Seq<u8>) -> spec_fn(Address) -> bool {
    |a: Address| a.0@ != b
}

impl SubmissionContext {
    /// The authorized sequencers, by their bytes.
    pub open spec fn authorized(self) -> Set<Seq<u8>> {
        address_set(self.authorized_sequencers@)
    }

    /// The hash of the last submitted batch.
    pub open spec fn last_hash(self) -> Seq<u8> {
        self.last_batch_hash@
    }

    /// Create a new submission context: a fresh state with a bonded
    /// sequencer, who is the one authorized sequencer; the last hash is zero.
    pub fn new(sequencer: Address) -> (ctx: Self)
        ensures
            ctx.state.batch_number == 0,
            ctx.state.state_root@ == Seq::new(32, |i: int| 0u8),
            ctx.state.pending_withdrawals@.len() == 0,
            ctx.state.sequencer == sequencer,
            ctx.state.sequencer_bonded,
            ctx.state.finalized_batch == 0,
            ctx.authorized() == set![sequencer.0@],
            ctx.last_hash() == Seq::new(32, |i: int| 0u8),
    {
        let mut state = RollupState::new(sequencer);
        state.sequencer_bonded = true;
        let ctx = Self { state, authorized_sequencers: vec![sequencer], last_batch_hash: [0u8; 32] };
        proof {
            assert(ctx.state.state_root@ =~= Seq::new(32, |i: int| 0u8));
            assert(ctx.last_batch_hash@ =~= Seq::new(32, |i: int| 0u8));
            assert(ctx.authorized_sequencers@[0].0@ == sequencer.0@);
            assert(ctx.authorized() =~= set![sequencer.0@]);
        }
        ctx
    }

    /// Position of an address in the list, if it is there.
    fn find_sequencer(&self, address: &Address) -> (r: Option<usize>)
        ensures
            match r {
                Some(i) => i < self.authorized_sequencers@.len() && self.authorized_sequencers@[i as int].0@
                    == address.0@,
                None => !self.authorized().contains(address.0@),
            },
    {
        let mut i: usize = 0;
        while i < self.authorized_sequencers.len()
            invariant
                i <= self.authorized_sequencers@.len(),
                forall|j: int| 0 <= j < i ==> self.authorized_sequencers@[j].0@ != address.0@,
            decreases self.authorized_sequencers@.len() - i,
        {
            if self.authorized_sequencers[i].same_as(address) {
                return Some(i);
            }
            i = i + 1;
        }
        None
    }

    /// Add an authorized sequencer (once)
    pub fn authorize_sequencer(&mut self, address: Address)
        ensures
            final(self).authorized() == old(self).authorized().insert(address.0@),
            old(self).authorized().contains(address.0@) ==> final(self).authorized_sequencers@
                == old(self).authorized_sequencers@,
            !old(self).authorized().contains(address.0@) ==> final(self).authorized_sequencers@
                == old(self).authorized_sequencers@.push(address),
            same_state(final(self).state, old(self).state),
            final(self).last_hash() == old(self).last_hash(),
    {
        match self.find_sequencer(&address) {
            Some(i) => {
                assert(self.authorized_sequencers@[i as int].0@ == address.0@);
                assert(old(self).authorized().contains(address.0@));
                assert(old(self).authorized().insert(address.0@) =~= old(self).authorized());
            },
            None => {
                let ghost before = self.authorized_sequencers@;
                self.authorized_sequencers.push(address);
                proof {
                    let after = self.authorized_sequencers@;
                    assert forall|b: Seq<u8>| #[trigger] address_set(after).contains(b) == address_set(
                        before,
                    ).insert(address.0@).contains(b) by {
                        if address_set(before).contains(b) {
                            let i = choose|i: int| 0 <= i < before.len() && #[trigger] before[i].0@ == b;
                            assert(after[i] == before[i]);
                        }
                        if b == address.0@ {
                            assert(after[before.len() as int].0@ == b);
                        }
                        if address_set(after).contains(b) {
                            let i = choose|i: int| 0 <= i < after.len() && #[trigger] after[i].0@ == b;
                            if i < before.len() {
                                assert(before[i] == after[i]);
                            }
                        }
                    }
                    assert(address_set(after) =~= address_set(before).insert(address.0@));
                }
            },
        }
    }

    /// Remove an authorized sequencer, every copy of it
    pub fn remove_sequencer(&mut self, address: &Address)
        ensures
            final(self).authorized() == old(self).authorized().remove(address.0@),
            final(self).authorized_sequencers@ == old(self).authorized_sequencers@.filter(other_than(address.0@)),
            same_state(final(self).state, old(self).state),
            final(self).last_hash() == old(self).last_hash(),
    {
        let ghost before = self.authorized_sequencers@;
        let mut kept: Vec<Address> = Vec::new();
        let mut i: usize = 0;
        while i < self.authorized_sequencers.len()
            invariant
                i <= before.len(),
                before == self.authorized_sequencers@,
                kept@ == before.subrange(0, i as int).filter(other_than(address.0@)),
                forall|j: int| 0 <= j < kept@.len() ==> #[trigger] kept@[j].0@ != address.0@,
                forall|b: Seq<u8>| #[trigger] address_set(kept@).contains(b) <==> (b != address.0@ && exists|j: int|
                    0 <= j < i && #[trigger] before[j].0@ == b),
            decreases before.len() - i,
        {
            let a = self.authorized_sequencers[i];
            let ghost old_kept = kept@;
            assert(before.subrange(0, i + 1).drop_last() =~= before.subrange(0, i as int));
            assert(before.subrange(0, i + 1).last() == a);
            if !a.same_as(address) {
                kept.push(a);
            }
            proof {
                reveal(Seq::filter);
                let sub = before.subrange(0, i + 1);
                assert(sub.len() > 0);
                assert(other_than(address.0@)(a) == (a.0@ != address.0@));
                assert(sub.filter(other_than(address.0@)) == (if other_than(address.0@)(sub.last()) {
                    sub.drop_last().filter(other_than(address.0@)).push(sub.last())
                } else {
                    sub.drop_last().filter(other_than(address.0@))
                }));
            }
            assert(kept@ == before.subrange(0, i + 1).filter(other_than(address.0@)));
            proof {
                assert forall|b: Seq<u8>| #[trigger] address_set(kept@).contains(b) <==> (b != address.0@
                    && exists|j: int| 0 <= j < i + 1 && #[trigger] before[j].0@ == b) by {
                    if address_set(kept@).contains(b) {
                        let k = choose|k: int| 0 <= k < kept@.len() && #[trigger] kept@[k].0@ == b;
                        if k < old_kept.len() {
                            assert(old_kept[k] == kept@[k]);
                            assert(address_set(old_kept).contains(b));
                        } else {
                            assert(before[i as int].0@ == b);
                        }
                    }
                    if b != address.0@ && exists|j: int| 0 <= j < i + 1 && #[trigger] before[j].0@ == b {
                        let j = choose|j: int| 0 <= j < i + 1 && #[trigger] before[j].0@ == b;
                        if j < i {
                            assert(address_set(old_kept).contains(b));
                            let k = choose|k: int| 0 <= k < old_kept.len() && #[trigger] old_kept[k].0@ == b;
                            assert(kept@[k] == old_kept[k]);
                        } else {
                            assert(kept@[old_kept.len() as int] == a);
                        }
                    }
                }
            }
            i = i + 1;
        }
        assert(before.subrange(0, before.len() as int) =~= before);
        self.authorized_sequencers = kept;
        proof {
            assert(self.authorized() =~= old(self).authorized().remove(address.0@));
        }
    }

    /// Check if an address is an authorized sequencer
    pub fn is_authorized_sequencer(&self, address: &Address) -> (b: bool)
        ensures
            b == self.authorized().contains(address.0@),
    {
        match self.find_sequencer(address) {
            Some(i) => {
                assert(address_set(self.authorized_sequencers@).contains(address.0@));
                true
            },
            None => false,
        }
    }

    /// Get the expected next batch number
    pub fn get_next_batch_number(&self) -> (n: u64)
        ensures
            n == self.state.batch_number,
    {
        self.state.batch_number
    }

    /// Get the last batch hash
    pub fn get_last_batch_hash(&self) -> (h: [u8; 32])
        ensures
            h@ == self.last_hash(),
    {
        self.last_batch_hash
    }

    /// The bytes a proof of `batch` is checked against.
    pub fn proof_check_input(batch: &RollupBatch) -> (out: Vec<u8>)
        ensures
            out@ == proof_check_bytes(*batch),
    {
        let mut out: Vec<u8> = Vec::new();
        push_bytes(&mut out, &batch.pre_state_root);
        push_bytes(&mut out, &batch.post_state_root);
        push_bytes(&mut out, &batch.parent_hash);
        push_u64_le(&mut out, batch.batch_number);
        out
    }

    /// Submit a rollup batch whose proof was checked with the outcome
    /// `proof_ok`: the sequencer must be authorized, the batch number the
    /// next one and the parent hash the last batch's hash. On success the
    /// state moves to the next batch number and the batch's post-state root,
    /// and the batch's hash becomes the last hash; on an error nothing
    /// changes.
    pub fn submit_batch_with_proof_check(&mut self, batch: RollupBatch, proof_ok: bool) -> (r: SubmissionResult<
        SubmissionResult_,
    >)
        requires
            old(self).authorized().contains(batch.sequencer.0@) && batch.batch_number
                == old(self).state.batch_number && batch.parent_hash@ == old(self).last_hash() ==> batch.batch_number
                < u64::MAX,
        ensures
            !old(self).authorized().contains(batch.sequencer.0@) ==> r == Err::<SubmissionResult_, SubmissionError>(
                SubmissionError::UnauthorizedSequencer,
            ),
            old(self).authorized().contains(batch.sequencer.0@) && batch.batch_number != old(self).state.batch_number
                ==> r == Err::<SubmissionResult_, SubmissionError>(SubmissionError::InvalidBatchNumber),
            old(self).authorized().contains(batch.sequencer.0@) && batch.batch_number == old(self).state.batch_number
                && batch.parent_hash@ != old(self).last_hash() ==> r == Err::<SubmissionResult_, SubmissionError>(
                SubmissionError::ParentHashMismatch,
            ),
            old(self).authorized().contains(batch.sequencer.0@) && batch.batch_number == old(self).state.batch_number
                && batch.parent_hash@ == old(self).last_hash() && !proof_ok ==> r == Err::<
                SubmissionResult_,
                SubmissionError,
            >(SubmissionError::InvalidProof),
            old(self).authorized().contains(batch.sequencer.0@) && batch.batch_number == old(self).state.batch_number
                && batch.parent_hash@ == old(self).last_hash() && proof_ok ==> r is Ok,
            r is Err ==> same_state(final(self).state, old(self).state) && final(self).last_hash() == old(self).last_hash(),
            final(self).authorized() == old(self).authorized(),
            final(self).authorized_sequencers@ == old(self).authorized_sequencers@,
            r matches Ok(res) ==> {
                &&& old(self).authorized().contains(batch.sequencer.0@)
                &&& batch.batch_number == old(self).state.batch_number
                &&& batch.parent_hash@ == old(self).last_hash()
                &&& proof_ok
                &&& final(self).state.batch_number == batch.batch_number + 1
                &&& final(self).state.state_root == batch.post_state_root
                &&& final(self).state.pending_withdrawals@ == old(self).state.pending_withdrawals@
                &&& final(self).state.sequencer == old(self).state.sequencer
                &&& final(self).state.sequencer_bonded == old(self).state.sequencer_bonded
                &&& final(self).state.finalized_batch == old(self).state.finalized_batch
                &&& final(self).last_hash() == spec_sha256(batch_hash_input(batch@))
                &&& res.gas_used == BATCH_SUBMISSION_GAS
                &&& same_state(res.new_state, final(self).state)
                &&& res.logs@.len() == 1
                &&& res.logs@[0]@ == "Batch submitted successfully"@
            },
    {
        if !self.is_authorized_sequencer(&batch.sequencer) {
            return Err(SubmissionError::UnauthorizedSequencer);
        }
        let expected_number = self.get_next_batch_number();
        if batch.batch_number != expected_number {
            return Err(SubmissionError::InvalidBatchNumber);
        }
        if !eq32(&batch.parent_hash, &self.last_batch_hash) {
            return Err(SubmissionError::ParentHashMismatch);
        }
        if !proof_ok {
            return Err(SubmissionError::InvalidProof);
        }
        self.state.batch_number = batch.batch_number + 1;
        self.state.state_root = batch.post_state_root;
        self.last_batch_hash = batch.hash();
        Ok(SubmissionResult_::new(self.state.duplicate()))
    }

    /// Submit a rollup batch, with no proof to check.
    pub fn submit_batch(&mut self, batch: RollupBatch) -> (r: SubmissionResult<SubmissionResult_>)
        requires
            old(self).authorized().contains(batch.sequencer.0@) && batch.batch_number
                == old(self).state.batch_number && batch.parent_hash@ == old(self).last_hash() ==> batch.batch_number
                < u64::MAX,
        ensures
            !old(self).authorized().contains(batch.sequencer.0@) ==> r == Err::<SubmissionResult_, SubmissionError>(
                SubmissionError::UnauthorizedSequencer,
            ),
            old(self).authorized().contains(batch.sequencer.0@) && batch.batch_number != old(self).state.batch_number
                ==> r == Err::<SubmissionResult_, SubmissionError>(SubmissionError::InvalidBatchNumber),
            old(self).authorized().contains(batch.sequencer.0@) && batch.batch_number == old(self).state.batch_number
                && batch.parent_hash@ != old(self).last_hash() ==> r == Err::<SubmissionResult_, SubmissionError>(
                SubmissionError::ParentHashMismatch,
            ),
            r is Err ==> same_state(final(self).state, old(self).state) && final(self).last_hash() == old(self).last_hash(),
            final(self).authorized() == old(self).authorized(),
            final(self).authorized_sequencers@ == old(self).authorized_sequencers@,
            old(self).authorized().contains(batch.sequencer.0@) && batch.batch_number == old(self).state.batch_number
                && batch.parent_hash@ == old(self).last_hash() ==> (r matches Ok(res) && {
                &&& final(self).state.batch_number == batch.batch_number + 1
                &&& final(self).state.state_root == batch.post_state_root
                &&& final(self).state.pending_withdrawals@ == old(self).state.pending_withdrawals@
                &&& final(self).state.sequencer == old(self).state.sequencer
                &&& final(self).state.sequencer_bonded == old(self).state.sequencer_bonded
                &&& final(self).state.finalized_batch == old(self).state.finalized_batch
                &&& final(self).last_hash() == spec_sha256(batch_hash_input(batch@))
                &&& res.gas_used == BATCH_SUBMISSION_GAS
                &&& same_state(res.new_state, final(self).state)
                &&& res.logs@.len() == 1
                &&& res.logs@[0]@ == "Batch submitted successfully"@
            }),
    {
        self.submit_batch_with_proof_check(batch, true)
    }
}

} // verus!
