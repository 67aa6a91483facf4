use sha2::Digest;
use stoolap::rollup::execution::{ExecutionResult, RollupError};
use stoolap::rollup::fraud::{ChallengeContext, ChallengeResult, FraudError, FRAUD_PROOF_GAS};
use stoolap::rollup::submission::{SubmissionContext, SubmissionError, SubmissionResult_, BATCH_SUBMISSION_GAS};
use stoolap::rollup::types::{
    Address, FraudProof, RollupBatch, RollupState, Transaction, TxType, Withdrawal, MAX_BATCH_SIZE,
};
use stoolap::rollup::withdrawal::{
    WithdrawalContext, WithdrawalError, WITHDRAWAL_FINALIZE_GAS, WITHDRAWAL_INITIATE_GAS,
};

#[test]
fn test_address() {
    let addr = Address::new([1u8; 20]);
    assert!(!addr.is_zero());
    let zero = Address::zero();
    assert!(zero.is_zero());
}

#[test]
fn test_rollup_batch_new() {
    let batch = RollupBatch::new(1, [0u8; 32], vec![], [1u8; 32], [2u8; 32], 1000, Address::zero());
    assert_eq!(batch.batch_number, 1);
    assert_eq!(batch.len(), 0);
    assert!(batch.is_empty());
}

#[test]
fn test_rollup_batch_hash() {
    let batch = RollupBatch::new(1, [0u8; 32], vec![], [1u8; 32], [2u8; 32], 1000, Address::zero());
    let hash1 = batch.hash();
    let hash2 = batch.hash();
    assert_eq!(hash1, hash2);
}

#[test]
fn test_rollup_batch_roundtrip() {
    let batch = RollupBatch::new(42, [1u8; 32], vec![], [4u8; 32], [5u8; 32], 2000, Address::new([6u8; 20]));
    let bytes = batch.to_bytes();
    let recovered = RollupBatch::from_bytes(&bytes).unwrap();
    assert_eq!(batch.batch_number, recovered.batch_number);
    assert_eq!(batch.parent_hash, recovered.parent_hash);
    assert_eq!(batch.transactions.len(), recovered.transactions.len());
    assert_eq!(batch.pre_state_root, recovered.pre_state_root);
    assert_eq!(batch.post_state_root, recovered.post_state_root);
}

#[test]
fn test_rollup_batch_with_tx_roundtrip() {
    let batch = RollupBatch::new(
        42,
        [1u8; 32],
        vec![Transaction::new(TxType::Transfer, Address::new([2u8; 20]), None, vec![1, 2, 3], 5, 100)],
        [4u8; 32],
        [5u8; 32],
        2000,
        Address::new([6u8; 20]),
    );
    let bytes = batch.to_bytes();
    let recovered = RollupBatch::from_bytes(&bytes).unwrap();
    assert_eq!(batch.batch_number, recovered.batch_number);
    assert_eq!(batch.parent_hash, recovered.parent_hash);
    assert_eq!(batch.transactions.len(), recovered.transactions.len());
    assert_eq!(batch.pre_state_root, recovered.pre_state_root);
    assert_eq!(batch.post_state_root, recovered.post_state_root);
}

#[test]
fn batch_roundtrip_keeps_everything() {
    let mut batch = RollupBatch::new(
        7,
        [9u8; 32],
        vec![
            Transaction::new(TxType::Call, Address::new([2u8; 20]), Some(Address::new([3u8; 20])), vec![1, 2], 0, 5),
            Transaction::new(TxType::Create, Address::new([4u8; 20]), None, vec![], 0, 6),
        ],
        [4u8; 32],
        [5u8; 32],
        2000,
        Address::new([6u8; 20]),
    );
    batch.signature = Some(vec![8, 8, 8]);
    let bytes = batch.to_bytes();
    assert_eq!(bytes.len(), batch.serialized_size());
    let recovered = RollupBatch::from_bytes(&bytes).unwrap();
    assert_eq!(recovered, batch);
}

#[test]
fn batch_from_bytes_bad_tx_type() {
    let batch = RollupBatch::new(
        1,
        [0u8; 32],
        vec![Transaction::new(TxType::Transfer, Address::zero(), None, vec![], 0, 0)],
        [0u8; 32],
        [0u8; 32],
        0,
        Address::zero(),
    );
    let mut bytes = batch.to_bytes();
    bytes[44] = 9;
    assert!(RollupBatch::from_bytes(&bytes).is_none());
}

#[test]
fn test_withdrawal_new() {
    let withdrawal = Withdrawal::new(1, Address::new([1u8; 20]), 1000, 42, 1000);
    assert_eq!(withdrawal.withdrawal_id, 1);
    assert_eq!(withdrawal.amount, 1000);
    assert!(!withdrawal.finalized);
}

#[test]
fn test_withdrawal_finalize() {
    let mut withdrawal = Withdrawal::new(1, Address::new([1u8; 20]), 1000, 42, 1000);
    withdrawal.finalize([9u8; 32]);
    assert!(withdrawal.finalized);
    assert!(withdrawal.l1_tx_hash.is_some());
}

#[test]
fn test_withdrawal_roundtrip() {
    let mut withdrawal = Withdrawal::new(1, Address::new([1u8; 20]), 1000, 42, 1000);
    withdrawal.finalize([9u8; 32]);
    let bytes = withdrawal.to_bytes();
    let recovered = Withdrawal::from_bytes(&bytes).unwrap();
    assert_eq!(withdrawal.withdrawal_id, recovered.withdrawal_id);
    assert_eq!(withdrawal.amount, recovered.amount);
    assert_eq!(withdrawal.finalized, recovered.finalized);
}

#[test]
fn withdrawal_encoding_exact() {
    let w = Withdrawal::new(1, Address::new([1u8; 20]), 2, 3, 4);
    let bytes = w.to_bytes();
    assert_eq!(bytes.len(), 54);
    assert_eq!(bytes[0], 1);
    assert_eq!(bytes[28], 2);
    assert_eq!(bytes[52], 0);
    assert_eq!(bytes[53], 0);
    let back = Withdrawal::from_bytes(&bytes).unwrap();
    assert_eq!(back.recipient, w.recipient);
    assert!(back.l1_tx_hash.is_none());
}

#[test]
fn test_fraud_proof_verify() {
    let proof = FraudProof::new(1, 0, [1u8; 32], [2u8; 32], [3u8; 32]);
    assert!(proof.verify());
}

#[test]
fn test_fraud_proof_same_roots() {
    let same_root = [1u8; 32];
    let proof = FraudProof::new(1, 0, same_root, same_root, same_root);
    assert!(!proof.verify());
}

#[test]
fn test_rollup_state_new() {
    let state = RollupState::new(Address::new([1u8; 20]));
    assert_eq!(state.batch_number, 0);
    assert_eq!(state.state_root, [0u8; 32]);
    assert!(state.pending_withdrawals.is_empty());
    assert!(!state.sequencer_bonded);
}

#[test]
fn test_rollup_state_can_finalize() {
    let mut state = RollupState::new(Address::new([1u8; 20]));
    state.batch_number = 200;
    state.finalized_batch = 50;
    assert!(state.can_finalize(100));
    assert!(!state.can_finalize(50));
    assert!(!state.can_finalize(150));
}

#[test]
fn test_tx_type_serialization() {
    for tx_type in &[TxType::Transfer, TxType::Call, TxType::Create, TxType::Withdrawal] {
        let byte = tx_type.to_byte();
        let recovered = TxType::from_byte(byte);
        assert_eq!(Some(*tx_type), recovered);
    }
    assert_eq!(TxType::from_byte(200), None);
}

#[test]
fn test_batch_execution_valid() {
    let pre_state = [1u8; 32];
    let batch = RollupBatch::new(1, [0u8; 32], vec![], pre_state, pre_state, 1000, Address::zero());
    let result = batch.execute(pre_state, [0u8; 32]).unwrap();
    assert_eq!(result.executed_count, 0);
}

#[test]
fn test_batch_execution_invalid_parent() {
    let batch = RollupBatch::new(1, [1u8; 32], vec![], [1u8; 32], [2u8; 32], 1000, Address::zero());
    let result = batch.execute([1u8; 32], [0u8; 32]);
    assert!(matches!(result, Err(RollupError::InvalidParent)));
}

#[test]
fn test_batch_execution_invalid_prestate() {
    let batch = RollupBatch::new(1, [0u8; 32], vec![], [1u8; 32], [2u8; 32], 1000, Address::zero());
    let result = batch.execute([9u8; 32], [0u8; 32]);
    assert!(matches!(result, Err(RollupError::InvalidPreState)));
}

#[test]
fn test_batch_execution_too_large() {
    let mut transactions = Vec::new();
    for i in 0..(MAX_BATCH_SIZE + 1) {
        transactions.push(Transaction::new(TxType::Transfer, Address::zero(), None, vec![], i as u64, 1));
    }
    let batch = RollupBatch::new(1, [0u8; 32], transactions, [1u8; 32], [2u8; 32], 1000, Address::zero());
    let result = batch.execute([1u8; 32], [0u8; 32]);
    assert!(matches!(result, Err(RollupError::BatchTooLarge)));
}

#[test]
fn test_execution_result() {
    let result = ExecutionResult { post_state_root: [1u8; 32], executed_count: 5, total_fees: 100, proof: vec![1, 2, 3] };
    assert_eq!(result.executed_count, 5);
    assert_eq!(result.total_fees, 100);
}

#[test]
fn test_rollup_error_display() {
    assert_eq!(RollupError::InvalidParent.message(), "Invalid parent batch hash");
    assert_eq!(RollupError::BatchTooLarge.message(), "Batch exceeds maximum size");
}

#[test]
fn execution_with_transactions() {
    let txs = vec![
        Transaction::new(TxType::Transfer, Address::zero(), None, vec![], 0, 7),
        Transaction::new(TxType::Call, Address::zero(), None, vec![], 0, 100),
        Transaction::new(TxType::Transfer, Address::zero(), None, vec![], 3, 100),
        Transaction::new(TxType::Withdrawal, Address::zero(), None, vec![1], 0, 5),
    ];
    let mut state = RollupState::new(Address::zero());
    state.state_root = [1u8; 32];
    state.batch_number = 4;
    for tx in &txs {
        let _ = state.execute_transaction(tx);
    }
    let post = state.state_root;
    let batch = RollupBatch::new(4, [0u8; 32], txs, [1u8; 32], post, 0, Address::zero());
    let result = batch.execute([1u8; 32], [0u8; 32]).unwrap();
    assert_eq!(result.executed_count, 2);
    assert_eq!(result.total_fees, 12);
    assert_eq!(result.post_state_root, post);
    assert!(result.proof.is_empty());
    let with = batch.execute_and_prove_with([1u8; 32], [0u8; 32], true).unwrap();
    assert_eq!(with.proof, batch.proof_input([1u8; 32], post));
    assert_eq!(with.proof.len(), 8 + 32 + 32 + 32 + 8);
    let wrong_post = RollupBatch::new(4, [0u8; 32], vec![], [1u8; 32], post, 0, Address::zero());
    assert!(matches!(wrong_post.execute([1u8; 32], [0u8; 32]), Err(RollupError::InvalidPostState)));
}

#[test]
fn execute_transaction_refusals() {
    let mut state = RollupState::new(Address::zero());
    let before = state.state_root;
    let bad_nonce = Transaction::new(TxType::Transfer, Address::zero(), None, vec![], 1, 1);
    assert_eq!(
        state.execute_transaction(&bad_nonce),
        Err(RollupError::InvalidTransaction("Invalid nonce".to_string()))
    );
    let no_target = Transaction::new(TxType::Call, Address::zero(), None, vec![], 0, 1);
    assert_eq!(
        state.execute_transaction(&no_target),
        Err(RollupError::InvalidTransaction("Call requires target".to_string()))
    );
    assert_eq!(state.state_root, before);
    let ok = Transaction::new(TxType::Create, Address::zero(), None, vec![], 0, 9);
    assert_eq!(state.execute_transaction(&ok), Ok(9));
    assert_ne!(state.state_root, before);
    assert_eq!(RollupError::InvalidTransaction("x".to_string()).message(), "Invalid transaction: x");
}

fn create_test_batch(batch_number: u64, parent_hash: [u8; 32]) -> RollupBatch {
    RollupBatch::new(batch_number, parent_hash, vec![], [1u8; 32], [2u8; 32], 1000, Address::zero())
}

#[test]
fn test_submission_context_new() {
    let ctx = SubmissionContext::new(Address::new([1u8; 20]));
    assert_eq!(ctx.state.batch_number, 0);
    assert!(ctx.is_authorized_sequencer(&Address::new([1u8; 20])));
}

#[test]
fn test_submit_batch_success() {
    let mut ctx = SubmissionContext::new(Address::zero());
    let batch = create_test_batch(0, [0u8; 32]);
    let result = ctx.submit_batch(batch).unwrap();
    assert_eq!(result.gas_used, BATCH_SUBMISSION_GAS);
    assert_eq!(ctx.state.batch_number, 1);
}

#[test]
fn test_submit_batch_unauthorized() {
    let mut ctx = SubmissionContext::new(Address::zero());
    let mut batch = create_test_batch(0, [0u8; 32]);
    batch.sequencer = Address::new([9u8; 20]);
    let result = ctx.submit_batch(batch);
    assert!(matches!(result, Err(SubmissionError::UnauthorizedSequencer)));
}

#[test]
fn test_submit_batch_invalid_number() {
    let mut ctx = SubmissionContext::new(Address::zero());
    let batch0 = create_test_batch(0, [0u8; 32]);
    ctx.submit_batch(batch0).unwrap();
    let batch2 = create_test_batch(2, ctx.get_last_batch_hash());
    let result = ctx.submit_batch(batch2);
    assert!(matches!(result, Err(SubmissionError::InvalidBatchNumber)));
}

#[test]
fn test_submit_batch_wrong_parent() {
    let mut ctx = SubmissionContext::new(Address::zero());
    let batch = create_test_batch(0, [9u8; 32]);
    let result = ctx.submit_batch(batch);
    assert!(matches!(result, Err(SubmissionError::ParentHashMismatch)));
}

#[test]
fn test_sequencer_authorization() {
    let mut ctx = SubmissionContext::new(Address::zero());
    let new_sequencer = Address::new([9u8; 20]);
    assert!(!ctx.is_authorized_sequencer(&new_sequencer));
    ctx.authorize_sequencer(new_sequencer.clone());
    assert!(ctx.is_authorized_sequencer(&new_sequencer));
    ctx.remove_sequencer(&new_sequencer);
    assert!(!ctx.is_authorized_sequencer(&new_sequencer));
}

#[test]
fn test_submission_error_display() {
    assert_eq!(SubmissionError::UnauthorizedSequencer.message(), "Unauthorized sequencer");
    assert_eq!(SubmissionError::InvalidBatchNumber.message(), "Invalid batch number");
}

#[test]
fn test_submission_result() {
    let result = SubmissionResult_::new(RollupState::new(Address::zero()));
    assert_eq!(result.gas_used, BATCH_SUBMISSION_GAS);
    assert!(!result.logs.is_empty());
}

#[test]
fn submission_chain_and_proof_check() {
    let mut ctx = SubmissionContext::new(Address::zero());
    let b0 = create_test_batch(0, [0u8; 32]);
    let h0 = b0.hash();
    ctx.submit_batch(b0).unwrap();
    assert_eq!(ctx.get_last_batch_hash(), h0);
    assert_eq!(ctx.state.state_root, [2u8; 32]);
    let b1 = create_test_batch(1, h0);
    let refused = ctx.submit_batch_with_proof_check(b1.clone(), false);
    assert!(matches!(refused, Err(SubmissionError::InvalidProof)));
    assert_eq!(ctx.get_next_batch_number(), 1);
    let res = ctx.submit_batch_with_proof_check(b1, true).unwrap();
    assert_eq!(res.logs, vec!["Batch submitted successfully".to_string()]);
    assert_eq!(ctx.get_next_batch_number(), 2);
    let input = SubmissionContext::proof_check_input(&create_test_batch(3, [7u8; 32]));
    assert_eq!(input.len(), 32 * 3 + 8);
    assert_eq!(input[96], 3);
}

fn create_test_fraud_proof() -> FraudProof {
    FraudProof::new(0, 0, [1u8; 32], [2u8; 32], [3u8; 32])
}

#[test]
fn test_challenge_context_new() {
    let ctx = ChallengeContext::new(Address::zero(), 1000);
    assert_eq!(ctx.state.batch_number, 0);
    assert_eq!(ctx.sequencer_bond, 1000);
    assert!(ctx.state.sequencer_bonded);
}

#[test]
fn test_record_batch() {
    let mut ctx = ChallengeContext::new(Address::zero(), 1000);
    ctx.record_batch(0, 100);
    assert!(ctx.batch_timestamps.contains_key(&0));
}

#[test]
fn test_is_challengeable_not_yet() {
    let mut ctx = ChallengeContext::new(Address::zero(), 1000);
    ctx.record_batch(0, 100);
    assert!(!ctx.is_challengeable(0, 150));
}

#[test]
fn test_is_challengeable_after_period() {
    let mut ctx = ChallengeContext::new(Address::zero(), 1000);
    ctx.record_batch(0, 100);
    assert!(ctx.is_challengeable(0, 200));
}

#[test]
fn test_is_challengeable_already_challenged() {
    let mut ctx = ChallengeContext::new(Address::zero(), 1000);
    ctx.record_batch(0, 100);
    ctx.challenged_batches.insert(0);
    assert!(!ctx.is_challengeable(0, 200));
}

#[test]
fn test_challenge_batch_success() {
    let mut ctx = ChallengeContext::new(Address::zero(), 1000);
    ctx.state.batch_number = 1;
    ctx.record_batch(0, 100);
    let fraud_proof = create_test_fraud_proof();
    let result = ctx.challenge_batch(0, fraud_proof, 200).unwrap();
    assert_eq!(result.gas_used, FRAUD_PROOF_GAS);
    assert_eq!(result.slashed_amount, 100);
    assert!(ctx.challenged_batches.contains(&0));
}

#[test]
fn test_challenge_batch_not_challengeable() {
    let mut ctx = ChallengeContext::new(Address::zero(), 1000);
    ctx.record_batch(0, 100);
    let fraud_proof = create_test_fraud_proof();
    let result = ctx.challenge_batch(0, fraud_proof, 150);
    assert!(matches!(result, Err(FraudError::BatchNotChallengeable)));
}

#[test]
fn test_challenge_batch_already_challenged() {
    let mut ctx = ChallengeContext::new(Address::zero(), 1000);
    ctx.state.batch_number = 1;
    ctx.record_batch(0, 100);
    ctx.challenged_batches.insert(0);
    let fraud_proof = create_test_fraud_proof();
    let result = ctx.challenge_batch(0, fraud_proof, 200);
    assert!(matches!(result, Err(FraudError::BatchFinalized)));
}

#[test]
fn test_fraud_error_display() {
    assert_eq!(FraudError::InvalidFraudProof.message(), "Invalid fraud proof");
    assert_eq!(FraudError::BatchNotChallengeable.message(), "Batch not yet challengeable");
}

#[test]
fn test_challenge_result() {
    let result = ChallengeResult::new(100);
    assert_eq!(result.gas_used, FRAUD_PROOF_GAS);
    assert_eq!(result.slashed_amount, 100);
    assert!(!result.logs.is_empty());
}

#[test]
fn challenge_effects_and_invalid_proof() {
    let mut ctx = ChallengeContext::new(Address::zero(), 1005);
    ctx.state.batch_number = 0;
    ctx.record_batch(3, 10);
    let same = FraudProof::new(3, 0, [1u8; 32], [2u8; 32], [2u8; 32]);
    assert!(matches!(ctx.challenge_batch(3, same, 500), Err(FraudError::InvalidFraudProof)));
    assert_eq!(ctx.sequencer_bond, 1005);
    let res = ctx.challenge_batch(3, create_test_fraud_proof(), 500).unwrap();
    assert_eq!(res.slashed_amount, 100);
    assert_eq!(ctx.sequencer_bond, 905);
    assert!(!ctx.state.sequencer_bonded);
    assert_eq!(ctx.state.batch_number, 0);
    assert!(matches!(ctx.challenge_batch(7, create_test_fraud_proof(), 500), Err(FraudError::BatchNotChallengeable)));
}

#[test]
fn test_withdrawal_context_new() {
    let ctx = WithdrawalContext::new(Address::zero());
    assert_eq!(ctx.next_withdrawal_id, 0);
    assert!(ctx.state.pending_withdrawals.is_empty());
}

#[test]
fn test_initiate_withdrawal() {
    let mut ctx = WithdrawalContext::new(Address::zero());
    let result = ctx.initiate_withdrawal(Address::new([1u8; 20]), 1000).unwrap();
    assert_eq!(result.gas_used, WITHDRAWAL_INITIATE_GAS);
    assert_eq!(result.withdrawal_id, Some(0));
    assert_eq!(ctx.pending_count(), 1);
}

#[test]
fn test_initiate_multiple_withdrawals() {
    let mut ctx = WithdrawalContext::new(Address::zero());
    ctx.initiate_withdrawal(Address::new([1u8; 20]), 100).unwrap();
    ctx.initiate_withdrawal(Address::new([2u8; 20]), 200).unwrap();
    ctx.initiate_withdrawal(Address::new([3u8; 20]), 300).unwrap();
    assert_eq!(ctx.next_withdrawal_id, 3);
    assert_eq!(ctx.pending_count(), 3);
}

#[test]
fn test_finalize_withdrawal_not_found() {
    let mut ctx = WithdrawalContext::new(Address::zero());
    let result = ctx.finalize_withdrawal(0, 1000);
    assert!(matches!(result, Err(WithdrawalError::WithdrawalNotFound)));
}

#[test]
fn test_finalize_withdrawal_too_early() {
    let mut ctx = WithdrawalContext::new(Address::zero());
    ctx.record_batch(0, 100);
    ctx.initiate_withdrawal(Address::new([1u8; 20]), 1000).unwrap();
    let result = ctx.finalize_withdrawal(0, 150);
    assert!(matches!(result, Err(WithdrawalError::ChallengePeriodNotPassed)));
}

#[test]
fn test_finalize_withdrawal_success() {
    let mut ctx = WithdrawalContext::new(Address::zero());
    for i in 0..10 {
        ctx.record_batch(i, (i * 10) as u64);
    }
    ctx.initiate_withdrawal(Address::new([1u8; 20]), 1000).unwrap();
    for i in 10..120 {
        ctx.record_batch(i, (i * 10) as u64);
    }
    let result = ctx.finalize_withdrawal(0, 10000).unwrap();
    assert_eq!(result.gas_used, WITHDRAWAL_FINALIZE_GAS);
}

#[test]
fn test_finalize_already_finalized() {
    let mut ctx = WithdrawalContext::new(Address::zero());
    for i in 0..10 {
        ctx.record_batch(i, (i * 10) as u64);
    }
    ctx.initiate_withdrawal(Address::new([1u8; 20]), 1000).unwrap();
    for i in 10..120 {
        ctx.record_batch(i, (i * 10) as u64);
    }
    ctx.finalize_withdrawal(0, 10000).unwrap();
    let result = ctx.finalize_withdrawal(0, 10000);
    assert!(matches!(result, Err(WithdrawalError::AlreadyFinalized)));
}

#[test]
fn test_get_pending_withdrawals() {
    let mut ctx = WithdrawalContext::new(Address::zero());
    let addr1 = Address::new([1u8; 20]);
    let addr2 = Address::new([2u8; 20]);
    ctx.initiate_withdrawal(addr1.clone(), 100).unwrap();
    ctx.initiate_withdrawal(addr2.clone(), 200).unwrap();
    ctx.initiate_withdrawal(addr1.clone(), 300).unwrap();
    let pending = ctx.get_pending_withdrawals(&addr1);
    assert_eq!(pending.len(), 2);
}

#[test]
fn test_withdrawal_error_display() {
    assert_eq!(WithdrawalError::WithdrawalNotFound.message(), "Withdrawal not found");
    assert_eq!(WithdrawalError::ChallengePeriodNotPassed.message(), "Challenge period not passed");
}

#[test]
fn withdrawal_log_lines() {
    let mut ctx = WithdrawalContext::new(Address::zero());
    ctx.record_batch(4, 0);
    let res = ctx.initiate_withdrawal(Address::new([1u8; 20]), 10).unwrap();
    assert_eq!(res.logs, vec!["Withdrawal 0 initiated, available after batch 105".to_string()]);
    for i in 5..110 {
        ctx.record_batch(i, 0);
    }
    let fin = ctx.finalize_withdrawal(0, 0).unwrap();
    assert_eq!(
        fin.logs,
        vec![format!("Withdrawal 0 finalized for recipient {:?}", Address::new([1u8; 20]))]
    );
    assert_eq!(fin.withdrawal_id, None);
    assert_eq!(ctx.pending_count(), 0);
    assert!(ctx.get_pending_withdrawals(&Address::new([1u8; 20])).is_empty());
    assert_eq!(ctx.state.pending_withdrawals[0].l1_tx_hash, Some([0u8; 32]));
}

#[test]
fn batch_hash_is_sha256_of_header() {
    let batch = RollupBatch::new(3, [1u8; 32], vec![], [2u8; 32], [4u8; 32], 77, Address::new([5u8; 20]));
    let mut input = Vec::new();
    input.extend_from_slice(&3u64.to_le_bytes());
    input.extend_from_slice(&[1u8; 32]);
    input.extend_from_slice(&[2u8; 32]);
    input.extend_from_slice(&[4u8; 32]);
    input.extend_from_slice(&77u64.to_le_bytes());
    input.extend_from_slice(&[5u8; 20]);
    input.extend_from_slice(&0u64.to_le_bytes());
    let expected: [u8; 32] = sha2::Sha256::digest(&input).into();
    assert_eq!(batch.hash(), expected);
}

#[test]
fn finalize_needs_batch_number_past_availability() {
    let mut ctx = WithdrawalContext::new(Address::zero());
    ctx.record_batch(4, 0);
    ctx.initiate_withdrawal(Address::new([1u8; 20]), 10).unwrap();
    for i in 5..105 {
        ctx.record_batch(i, 0);
    }
    assert_eq!(ctx.state.batch_number, 105);
    assert!(matches!(ctx.finalize_withdrawal(0, 0), Err(WithdrawalError::ChallengePeriodNotPassed)));
    ctx.record_batch(105, 0);
    assert!(ctx.finalize_withdrawal(0, 0).is_ok());
}

#[test]
fn sequencer_list_keeps_order_and_no_duplicates() {
    let mut ctx = SubmissionContext::new(Address::zero());
    let a = Address::new([1u8; 20]);
    let b = Address::new([2u8; 20]);
    ctx.authorize_sequencer(a.clone());
    ctx.authorize_sequencer(b.clone());
    ctx.authorize_sequencer(a.clone());
    assert_eq!(ctx.authorized_sequencers, vec![Address::zero(), a.clone(), b.clone()]);
    ctx.remove_sequencer(&a);
    assert_eq!(ctx.authorized_sequencers, vec![Address::zero(), b.clone()]);
    ctx.remove_sequencer(&a);
    assert_eq!(ctx.authorized_sequencers, vec![Address::zero(), b]);
}

#[test]
fn truncated_batch_and_withdrawal_give_none() {
    assert!(RollupBatch::from_bytes(&[]).is_none());
    let batch = RollupBatch::new(3, [1u8; 32], vec![], [2u8; 32], [4u8; 32], 77, Address::new([5u8; 20]));
    let bytes = batch.to_bytes();
    assert!(RollupBatch::from_bytes(&bytes[..bytes.len() - 5]).is_none());
    assert!(Withdrawal::from_bytes(&[0u8; 10]).is_none());
    let mut w = Withdrawal::new(1, Address::new([3u8; 20]), 9, 4, 5);
    w.finalize([6u8; 32]);
    let wb = w.to_bytes();
    assert!(Withdrawal::from_bytes(&wb[..60]).is_none());
    assert!(Withdrawal::from_bytes(&wb).is_some());
}
