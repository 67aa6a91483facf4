//! Withdrawals from L2 to L1: opening them, and finalizing them once the
//! challenge period has passed.

use vstd::prelude::*;
use std::collections::HashMap;
use crate::text::{decimal_text, joined_decimal, push_decimal, push_joined_decimal};
use super::types::{Address, RollupState, Withdrawal, CHALLENGE_PERIOD};

verus! {

broadcast use vstd::std_specs::hash::group_hash_axioms;

/// Gas cost for initiating a withdrawal
pub const WITHDRAWAL_INITIATE_GAS: u64 = 20_000;

/// Gas cost for finalizing a withdrawal
pub const WITHDRAWAL_FINALIZE_GAS: u64 = 30_000;

/// Error type for withdrawal operations
#[derive(Debug, Clone, Copy, PartialEq, Eq, Structural)]
pub enum WithdrawalError {
    /// Withdrawal not found
    WithdrawalNotFound,
    /// Challenge period not passed
    ChallengePeriodNotPassed,
    /// Withdrawal already finalized
    AlreadyFinalized,
    /// Insufficient balance
    InsufficientBalance,
}

/// The text shown for a withdrawal error.
pub open spec fn withdrawal_error_text(e: WithdrawalError) -> Seq<char> {
    match e {
        WithdrawalError::WithdrawalNotFound => "Withdrawal not found"@,
        WithdrawalError::ChallengePeriodNotPassed => "Challenge period not passed"@,
        WithdrawalError::AlreadyFinalized => "Withdrawal already finalized"@,
        WithdrawalError::InsufficientBalance => "Insufficient balance"@,
    }
}

impl WithdrawalError {
    /// The text shown for the error.
    pub fn message(&self) -> (s: String)
        ensures
            s@ == withdrawal_error_text(*self),
    {
        match self {
            WithdrawalError::WithdrawalNotFound => "Withdrawal not found".to_owned(),
            WithdrawalError::ChallengePeriodNotPassed => "Challenge period not passed".to_owned(),
            WithdrawalError::AlreadyFinalized => "Withdrawal already finalized".to_owned(),
            WithdrawalError::InsufficientBalance => "Insufficient balance".to_owned(),
        }
    }
}

/// Result type for withdrawal operations
pub type WithdrawalResult<T> = Result<T, WithdrawalError>;

/// Result of a withdrawal operation
#[derive(Debug, Clone)]
pub struct WithdrawalOpResult {
    /// Gas used for the operation
    pub gas_used: u64,
    /// Withdrawal ID (for initiation)
    pub withdrawal_id: Option<u64>,
    /// Log events
    pub logs: Vec<String>,
}

impl WithdrawalOpResult {
    /// Create a new withdrawal result
    pub fn new(gas_used: u64, withdrawal_id: Option<u64>, logs: Vec<String>) -> (r: Self)
        ensures
            r == (WithdrawalOpResult { gas_used, withdrawal_id, logs }),
    {
        Self { gas_used, withdrawal_id, logs }
    }
}

/// Withdrawal context for handling L2 to L1 withdrawals
///
/// This manages pending withdrawals and handles finalization after the challenge period.
#[derive(Debug)]
pub struct WithdrawalContext {
    /// Current rollup state
    pub state: RollupState,
    /// Next withdrawal ID
    pub next_withdrawal_id: u64,
    /// Batch timestamps for challenge period checking
    pub batch_timestamps: HashMap<u64, u64>,
}

/// The log line of an opened withdrawal.
pub open spec fn initiated_text(id: u64, available_after: u64) -> Seq<char> {
    "Withdrawal "@ + decimal_text(id as nat) + " initiated, available after batch "@ + decimal_text(
        available_after as nat,
    )
}

/// The log line of a finalized withdrawal, with the recipient as its debug
/// rendering.
pub open spec fn finalized_text(id: u64, recipient: Seq<u8>) -> Seq<char> {
    "Withdrawal "@ + decimal_text(id as nat) + " finalized for recipient Address(["@ + joined_decimal(recipient)
        + "])"@
}

/// `i` is the first position of a withdrawal with this id.
pub open spec fn first_with_id(ws: Seq<Withdrawal>, id: u64, i: int) -> bool {
    &&& 0 <= i < ws.len()
    &&& ws[i].withdrawal_id == id
    &&& forall|j: int| 0 <= j < i ==> ws[j].withdrawal_id != id
}

/// The withdrawals of `ws` to `recipient` that are not finalized, in order.
pub open spec fn pending_for(ws: Seq<Withdrawal>, recipient: Seq<u8>) -> Seq<Withdrawal>
    decreases ws.len(),
{
    if ws.len() == 0 {
        Seq::empty()
    } else {
        let rest = pending_for(ws.drop_last(), recipient);
        if ws.last().recipient.0@ == recipient && !ws.last().finalized {
            rest.push(ws.last())
        } else {
            rest
        }
    }
}

/// How many withdrawals of `ws` are not finalized.
pub open spec fn unfinalized_count(ws: Seq<Withdrawal>) -> nat
    decreases ws.len(),
{
    if ws.len() == 0 {
        0
    } else {
        unfinalized_count(ws.drop_last()) + if ws.last().finalized { 0nat } else { 1nat }
    }
}

proof fn lemma_unfinalized_count_bound(ws: Seq<Withdrawal>)
    ensures
        unfinalized_count(ws) <= ws.len(),
    decreases ws.len(),
{
    if ws.len() > 0 {
        lemma_unfinalized_count_bound(ws.drop_last());
    }
}

/// Whether two withdrawal contexts hold the same values.
pub open spec fn same_withdrawal_context(a: WithdrawalContext, b: WithdrawalContext) -> bool {
    &&& a.state.batch_number == b.state.batch_number
    &&& a.state.state_root == b.state.state_root
    &&& a.state.pending_withdrawals@ == b.state.pending_withdrawals@
    &&& a.state.sequencer == b.state.sequencer
    &&& a.state.sequencer_bonded == b.state.sequencer_bonded
    &&& a.state.finalized_batch == b.state.finalized_batch
    &&& a.next_withdrawal_id == b.next_withdrawal_id
    &&& a.batch_timestamps@ == b.batch_timestamps@
}

impl WithdrawalContext {
    /// Create a new withdrawal context: a fresh state, withdrawal ids from
    /// zero and no timestamps.
    pub fn new(sequencer: Address) -> (ctx: Self)
        ensures
            ctx.state.batch_number == 0,
            ctx.state.state_root@ == Seq::new(32, |i: int| 0u8),
            ctx.state.pending_withdrawals@.len() == 0,
            ctx.state.sequencer == sequencer,
            !ctx.state.sequencer_bonded,
            ctx.state.finalized_batch == 0,
            ctx.next_withdrawal_id == 0,
            ctx.batch_timestamps@ == Map::<u64, u64>::empty(),
    {
        let state = RollupState::new(sequencer);
        assert(state.state_root@ =~= Seq::new(32, |i: int| 0u8));
        Self { state, next_withdrawal_id: 0, batch_timestamps: HashMap::new() }
    }

    /// Record a batch submission timestamp; the next batch number follows it
    pub fn record_batch(&mut self, batch_number: u64, timestamp: u64)
        requires
            batch_number < u64::MAX,
        ensures
            final(self).batch_timestamps@ == old(self).batch_timestamps@.insert(batch_number, timestamp),
            final(self).state.batch_number == batch_number + 1,
            final(self).state.state_root == old(self).state.state_root,
            final(self).state.pending_withdrawals@ == old(self).state.pending_withdrawals@,
            final(self).state.sequencer == old(self).state.sequencer,
            final(self).state.sequencer_bonded == old(self).state.sequencer_bonded,
            final(self).state.finalized_batch == old(self).state.finalized_batch,
            final(self).next_withdrawal_id == old(self).next_withdrawal_id,
    {
        self.batch_timestamps.insert(batch_number, timestamp);
        self.state.batch_number = batch_number + 1;
    }

    /// Initiate a withdrawal from L2 to L1: it gets the next id and can be
    /// finalized from the current batch number plus the challenge period.
    pub fn initiate_withdrawal(&mut self, recipient: Address, amount: u64) -> (r: WithdrawalResult<
        WithdrawalOpResult,
    >)
        requires
            old(self).state.batch_number + CHALLENGE_PERIOD <= u64::MAX,
            old(self).next_withdrawal_id < u64::MAX,
        ensures
            r matches Ok(res) && {
                let id = old(self).next_withdrawal_id;
                let after = (old(self).state.batch_number + CHALLENGE_PERIOD) as u64;
                &&& res.gas_used == WITHDRAWAL_INITIATE_GAS
                &&& res.withdrawal_id == Some(id)
                &&& res.logs@.len() == 1
                &&& res.logs@[0]@ == initiated_text(id, after)
                &&& final(self).next_withdrawal_id == id + 1
                &&& final(self).state.pending_withdrawals@ == old(self).state.pending_withdrawals@.push(
                    Withdrawal {
                        withdrawal_id: id,
                        recipient,
                        amount,
                        batch_number: after,
                        timestamp: 0,
                        finalized: false,
                        l1_tx_hash: None,
                    },
                )
            },
            final(self).state.batch_number == old(self).state.batch_number,
            final(self).state.state_root == old(self).state.state_root,
            final(self).state.sequencer == old(self).state.sequencer,
            final(self).state.sequencer_bonded == old(self).state.sequencer_bonded,
            final(self).state.finalized_batch == old(self).state.finalized_batch,
            final(self).batch_timestamps@ == old(self).batch_timestamps@,
    {
        let available_after_batch = self.state.batch_number + CHALLENGE_PERIOD;
        let withdrawal = Withdrawal::new(self.next_withdrawal_id, recipient, amount, available_after_batch, 0);
        self.next_withdrawal_id = self.next_withdrawal_id + 1;
        let id = withdrawal.withdrawal_id;
        self.state.pending_withdrawals.push(withdrawal);
        let mut line = "Withdrawal ".to_owned();
        push_decimal(&mut line, id);
        line.append(" initiated, available after batch ");
        push_decimal(&mut line, available_after_batch);
        Ok(WithdrawalOpResult::new(WITHDRAWAL_INITIATE_GAS, Some(id), vec![line]))
    }

    /// Finalize a pending withdrawal, the first with the given id.
    ///
    /// It is refused when there is none, when it was finalized already, or
    /// when the current batch number has not passed its batch yet; on an
    /// error nothing changes. On success it is marked finalized with a zero
    /// L1 hash.
    pub fn finalize_withdrawal(&mut self, withdrawal_id: u64, current_time: u64) -> (r: WithdrawalResult<
        WithdrawalOpResult,
    >)
        ensures
            (forall|i: int| 0 <= i < old(self).state.pending_withdrawals@.len() ==> (#[trigger] old(self).state.pending_withdrawals@[i]).withdrawal_id != withdrawal_id) ==> r == Err::<
                WithdrawalOpResult,
                WithdrawalError,
            >(WithdrawalError::WithdrawalNotFound),
            forall|i: int| #[trigger]
                first_with_id(old(self).state.pending_withdrawals@, withdrawal_id, i) ==> {
                    let w = old(self).state.pending_withdrawals@[i];
                    &&& w.finalized ==> r == Err::<WithdrawalOpResult, WithdrawalError>(
                        WithdrawalError::AlreadyFinalized,
                    )
                    &&& !w.finalized && w.batch_number >= old(self).state.batch_number ==> r == Err::<
                        WithdrawalOpResult,
                        WithdrawalError,
                    >(WithdrawalError::ChallengePeriodNotPassed)
                    &&& !w.finalized && w.batch_number < old(self).state.batch_number ==> (r matches Ok(res)
                        && {
                        &&& res.gas_used == WITHDRAWAL_FINALIZE_GAS
                        &&& res.withdrawal_id is None
                        &&& res.logs@.len() == 1
                        &&& res.logs@[0]@ == finalized_text(withdrawal_id, w.recipient.0@)
                        &&& final(self).state.pending_withdrawals@.len() == old(self).state.pending_withdrawals@.len()
                        &&& forall|j: int|
                            0 <= j < old(self).state.pending_withdrawals@.len() && j != i ==> #[trigger] final(self).state.pending_withdrawals@[j] == old(self).state.pending_withdrawals@[j]
                        &&& final(self).state.pending_withdrawals@[i].finalized
                        &&& final(self).state.pending_withdrawals@[i].l1_tx_hash matches Some(h) && h@ == Seq::new(
                            32,
                            |k: int| 0u8,
                        )
                        &&& final(self).state.pending_withdrawals@[i].withdrawal_id == w.withdrawal_id
                        &&& final(self).state.pending_withdrawals@[i].recipient == w.recipient
                        &&& final(self).state.pending_withdrawals@[i].amount == w.amount
                        &&& final(self).state.pending_withdrawals@[i].batch_number == w.batch_number
                        &&& final(self).state.pending_withdrawals@[i].timestamp == w.timestamp
                    })
                },
            r is Err ==> same_withdrawal_context(*final(self), *old(self)),
            final(self).state.batch_number == old(self).state.batch_number,
            final(self).state.state_root == old(self).state.state_root,
            final(self).state.sequencer == old(self).state.sequencer,
            final(self).state.sequencer_bonded == old(self).state.sequencer_bonded,
            final(self).state.finalized_batch == old(self).state.finalized_batch,
            final(self).next_withdrawal_id == old(self).next_withdrawal_id,
            final(self).batch_timestamps@ == old(self).batch_timestamps@,
    {
        let n = self.state.pending_withdrawals.len();
        let mut idx: usize = 0;
        while idx < n
            invariant
                idx <= n,
                n == self.state.pending_withdrawals@.len(),
                forall|j: int| 0 <= j < idx ==> (#[trigger] self.state.pending_withdrawals@[j]).withdrawal_id
                    != withdrawal_id,
            ensures
                idx <= n,
                forall|j: int| 0 <= j < idx ==> (#[trigger] self.state.pending_withdrawals@[j]).withdrawal_id
                    != withdrawal_id,
                idx < n ==> self.state.pending_withdrawals@[idx as int].withdrawal_id == withdrawal_id,
            decreases n - idx,
        {
            if self.state.pending_withdrawals[idx].withdrawal_id == withdrawal_id {
                break;
            }
            idx = idx + 1;
        }
        if idx == n {
            return Err(WithdrawalError::WithdrawalNotFound);
        }
        assert(first_with_id(self.state.pending_withdrawals@, withdrawal_id, idx as int));
        proof {
            assert forall|i: int| #[trigger]
                first_with_id(self.state.pending_withdrawals@, withdrawal_id, i) implies i == idx by {
                if i < idx {
                } else if i > idx {
                    assert(self.state.pending_withdrawals@[idx as int].withdrawal_id == withdrawal_id);
                }
            }
        }
        let is_finalized = self.state.pending_withdrawals[idx].finalized;
        let batch_number = self.state.pending_withdrawals[idx].batch_number;
        let recipient = self.state.pending_withdrawals[idx].recipient;
        if is_finalized {
            return Err(WithdrawalError::AlreadyFinalized);
        }
        if !self.can_finalize_withdrawal(batch_number, current_time) {
            return Err(WithdrawalError::ChallengePeriodNotPassed);
        }
        self.state.pending_withdrawals[idx].finalize([0u8; 32]);
        assert(self.state.pending_withdrawals@[idx as int].l1_tx_hash.unwrap()@ =~= Seq::new(32, |k: int| 0u8));
        let mut line = "Withdrawal ".to_owned();
        push_decimal(&mut line, withdrawal_id);
        line.append(" finalized for recipient Address([");
        push_joined_decimal(&mut line, &recipient.0);
        line.append("])");
        Ok(WithdrawalOpResult::new(WITHDRAWAL_FINALIZE_GAS, None, vec![line]))
    }

    /// Whether a withdrawal available after the given batch can be
    /// finalized: the current batch number has passed it.
    fn can_finalize_withdrawal(&self, available_after_batch: u64, _current_time: u64) -> (b: bool)
        ensures
            b == (available_after_batch < self.state.batch_number),
    {
        available_after_batch < self.state.batch_number
    }

    /// The unfinalized withdrawals to `recipient`, in order
    pub fn get_pending_withdrawals(&self, recipient: &Address) -> (r: Vec<&Withdrawal>)
        ensures
            r@.map_values(|w: &Withdrawal| *w) == pending_for(self.state.pending_withdrawals@, recipient.0@),
    {
        let ghost ws = self.state.pending_withdrawals@;
        let mut out: Vec<&Withdrawal> = Vec::new();
        let mut i: usize = 0;
        while i < self.state.pending_withdrawals.len()
            invariant
                i <= ws.len(),
                ws == self.state.pending_withdrawals@,
                out@.map_values(|w: &Withdrawal| *w) == pending_for(ws.subrange(0, i as int), recipient.0@),
            decreases ws.len() - i,
        {
            let w = &self.state.pending_withdrawals[i];
            let ghost before = out@.map_values(|w: &Withdrawal| *w);
            if w.recipient.same_as(recipient) && !w.finalized {
                out.push(w);
            }
            proof {
                let t = ws.subrange(0, i + 1);
                assert(t.drop_last() =~= ws.subrange(0, i as int));
                assert(t.last() == *w);
                assert(out@.map_values(|w: &Withdrawal| *w) =~= pending_for(t, recipient.0@));
            }
            i = i + 1;
        }
        assert(ws.subrange(0, ws.len() as int) =~= ws);
        out
    }

    /// Get the number of pending (unfinalized) withdrawals
    pub fn pending_count(&self) -> (n: usize)
        ensures
            n == unfinalized_count(self.state.pending_withdrawals@),
    {
        let ghost ws = self.state.pending_withdrawals@;
        let mut count: usize = 0;
        let mut i: usize = 0;
        while i < self.state.pending_withdrawals.len()
            invariant
                i <= ws.len(),
                ws == self.state.pending_withdrawals@,
                count == unfinalized_count(ws.subrange(0, i as int)),
            decreases ws.len() - i,
        {
            proof {
                let t = ws.subrange(0, i + 1);
                assert(t.drop_last() =~= ws.subrange(0, i as int));
                lemma_unfinalized_count_bound(ws.subrange(0, i as int));
            }
            if !self.state.pending_withdrawals[i].finalized {
                count = count + 1;
            }
            i = i + 1;
        }
        assert(ws.subrange(0, ws.len() as int) =~= ws);
        count
    }
}

} // verus!
