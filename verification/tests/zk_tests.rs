use starknet_crypto::{pedersen_hash, FieldElement};
use rand::Rng;
use std::time::Duration;
use stoolap::zk::bundled::{
    get_bundled_program, get_bundled_program_name, is_bundled_program, register_bundled_programs, BundledError,
    HEXARY_VERIFY_HASH, MERKLE_BATCH_HASH, STATE_TRANSITION_HASH,
};
use stoolap::zk::cairo::{CairoProgram, CairoProgramRegistry, CompileError, RegistryError};
use stoolap::zk::commitment::{
    open_commitment, open_commitment_batch, pedersen_commit, pedersen_commit_batch, pedersen_commit_batch_with,
    Commitment,
};
use stoolap::zk::confidential::{ConfidentialResult, EncryptedFilter, EncryptedQuery, FilterOp, RangeProof};
use stoolap::zk::plugin::{choose_plugin_source, verification_outcome, PluginError, PluginSource};
use stoolap::zk::stark_verify::{verify_outcome, verify_proof_with_validation, VerifyError};
use stoolap::zk::prover::{ProverConfig, STWOProver};

#[test]
fn test_commitment_deterministic() {
    let c1 = pedersen_commit(42, 12345);
    let c2 = pedersen_commit(42, 12345);
    assert_eq!(c1, c2, "Same inputs should produce same commitment");
}

#[test]
fn test_commitment_hiding() {
    let c1 = pedersen_commit(42, 1);
    let c2 = pedersen_commit(42, 2);
    assert_ne!(c1, c2, "Different randomness should produce different commitment");
}

#[test]
fn test_commitment_binding() {
    let commitment = pedersen_commit(42, 100);
    assert!(open_commitment(&commitment, 42, 100));
    assert!(!open_commitment(&commitment, 43, 100));
    assert!(!open_commitment(&commitment, 42, 101));
}

#[test]
fn test_commitment_different_values() {
    let c1 = pedersen_commit(1, 100);
    let c2 = pedersen_commit(2, 100);
    assert_ne!(c1, c2, "Different values should produce different commitments");
}

#[test]
fn test_batch_commitment() {
    let values = vec![1i64, 2, 3, 4, 5];
    let commitments = pedersen_commit_batch(&values);
    assert_eq!(commitments.len(), values.len());
    let mut unique: Vec<_> = commitments.iter().collect();
    unique.sort();
    unique.dedup();
    assert_eq!(unique.len(), values.len(), "All batch commitments should be unique");
}

#[test]
fn test_batch_open() {
    let mut rng = rand::thread_rng();
    let values = vec![10i64, 20, 30];
    let randomness: Vec<u64> = (0..3).map(|_| rng.gen()).collect();
    let commitments: Vec<Commitment> =
        values.iter().zip(randomness.iter()).map(|(&v, &r)| pedersen_commit(v, r)).collect();
    assert!(open_commitment_batch(&commitments, &values, &randomness));
    let wrong_values = vec![11i64, 20, 30];
    assert!(!open_commitment_batch(&commitments, &wrong_values, &randomness));
    let wrong_randomness: Vec<u64> = (0..3).map(|_| rng.gen()).collect();
    assert!(!open_commitment_batch(&commitments, &values, &wrong_randomness));
}

#[test]
fn test_commitment_zero() {
    let c = pedersen_commit(0, 0);
    assert_ne!(c, [0u8; 32], "Commitment of 0,0 should not be all zeros");
}

#[test]
fn test_commitment_negative_values() {
    let c1 = pedersen_commit(-1, 100);
    let c2 = pedersen_commit(-100, 100);
    assert_ne!(c1, c2, "Different negative values should produce different commitments");
}

#[test]
fn test_commitment_large_values() {
    let c1 = pedersen_commit(i64::MAX, 100);
    let c2 = pedersen_commit(i64::MIN, 100);
    assert_ne!(c1, c2, "Large values should produce valid commitments");
}

#[test]
fn commitment_batch_with_given_randomness_and_length_checks() {
    let values = [3i64, -4];
    let rs = [9u64, 10];
    let cs = pedersen_commit_batch_with(&values, &rs);
    assert_eq!(cs, vec![pedersen_commit(3, 9), pedersen_commit(-4, 10)]);
    assert!(open_commitment_batch(&cs, &values, &rs));
    assert!(!open_commitment_batch(&cs, &values[..1], &rs[..1]));
    assert!(!open_commitment_batch(&cs[..1], &values, &rs));
    assert!(open_commitment_batch(&[], &[], &[]));
}

#[test]
fn test_filter_op_serialization() {
    for op in &[
        FilterOp::Equal,
        FilterOp::NotEqual,
        FilterOp::LessThan,
        FilterOp::GreaterThan,
        FilterOp::LessThanOrEqual,
        FilterOp::GreaterThanOrEqual,
    ] {
        let byte = op.to_byte();
        let recovered = FilterOp::from_byte(byte);
        assert_eq!(Some(*op), recovered);
    }
}

#[test]
fn test_filter_op_invalid_byte() {
    assert_eq!(FilterOp::from_byte(0x00), None);
    assert_eq!(FilterOp::from_byte(0xFF), None);
}

#[test]
fn test_encrypted_query_roundtrip() {
    let filters = vec![
        EncryptedFilter::new(b"age".to_vec(), FilterOp::GreaterThan, [1u8; 32], [2u8; 32]),
        EncryptedFilter::new(b"score".to_vec(), FilterOp::LessThanOrEqual, [3u8; 32], [4u8; 32]),
    ];
    let query = EncryptedQuery::new(b"users".to_vec(), filters, [5u8; 32]);
    let bytes = query.to_bytes();
    let recovered = EncryptedQuery::from_bytes(&bytes).unwrap();
    assert_eq!(query.table, recovered.table);
    assert_eq!(query.filters.len(), recovered.filters.len());
    assert_eq!(query.nonce, recovered.nonce);
    assert_eq!(query.query_commitment, recovered.query_commitment);
}

#[test]
fn test_confidential_result_roundtrip() {
    let row_commitments = vec![[1u8; 32], [2u8; 32], [3u8; 32]];
    let aggregate_commitments = vec![[10u8; 32]];
    let result =
        ConfidentialResult::new(3, row_commitments.clone(), aggregate_commitments.clone(), b"proof_data".to_vec(), [5u8; 32]);
    let bytes = result.to_bytes();
    let recovered = ConfidentialResult::from_bytes(&bytes).unwrap();
    assert_eq!(result.row_count, recovered.row_count);
    assert_eq!(result.row_commitments, recovered.row_commitments);
    assert_eq!(result.aggregate_commitments, recovered.aggregate_commitments);
    assert_eq!(result.proof, recovered.proof);
    assert_eq!(result.query_commitment, recovered.query_commitment);
}

#[test]
fn test_range_proof() {
    let proof = RangeProof::new([1u8; 32], vec![1, 2, 3, 4], 0, 100);
    assert!(proof.verify());
    let invalid = RangeProof::new([1u8; 32], vec![], 100, 50);
    assert!(!invalid.verify());
}

#[test]
fn test_encrypted_query_size() {
    let query = EncryptedQuery::new(
        b"users".to_vec(),
        vec![EncryptedFilter::new(b"age".to_vec(), FilterOp::GreaterThan, [1u8; 32], [2u8; 32])],
        [3u8; 32],
    );
    let bytes = query.to_bytes();
    assert_eq!(bytes.len(), query.serialized_size());
}

#[test]
fn test_confidential_result_size() {
    let result = ConfidentialResult::new(10, vec![[1u8; 32]; 5], vec![[2u8; 32]; 2], b"proof".to_vec(), [3u8; 32]);
    let bytes = result.to_bytes();
    assert_eq!(bytes.len(), result.serialized_size());
}

#[test]
fn test_confidential_result_verify_basic() {
    let commitment1 = pedersen_commit(42, 12345);
    let commitment2 = pedersen_commit(100, 67890);
    let result = ConfidentialResult::new(
        2,
        vec![commitment1, commitment2],
        vec![pedersen_commit(142, 11111)],
        vec![],
        [1u8; 32],
    );
    assert!(result.verify([0u8; 32]));
}

#[test]
fn test_confidential_result_verify_empty_commitment() {
    let result = ConfidentialResult::new(1, vec![[1u8; 32]], vec![], vec![], [0u8; 32]);
    assert!(!result.verify([0u8; 32]));
}

#[test]
fn test_confidential_result_verify_mismatched_count() {
    let result = ConfidentialResult::new(3, vec![[1u8; 32], [2u8; 32]], vec![], vec![], [1u8; 32]);
    assert!(!result.verify([0u8; 32]));
}

#[test]
fn test_verify_value_commitment() {
    let value: i64 = 42;
    let randomness: u64 = 12345;
    let commitment = pedersen_commit(value, randomness);
    let result = ConfidentialResult::new(1, vec![commitment], vec![], vec![], [1u8; 32]);
    assert!(result.verify_value_commitment(0, value, randomness));
    assert!(!result.verify_value_commitment(0, 100, randomness));
    assert!(!result.verify_value_commitment(0, value, 99999));
    assert!(!result.verify_value_commitment(5, value, randomness));
}

#[test]
fn test_open_commitment_returns_none() {
    let result = ConfidentialResult::new(1, vec![[1u8; 32]], vec![], vec![], [1u8; 32]);
    assert_eq!(result.open_commitment(0), None);
}

#[test]
fn test_zero_knowledge_property() {
    let value1: i64 = 42;
    let value2: i64 = 1000000;
    let randomness1: u64 = 12345;
    let randomness2: u64 = 67890;
    let commit1 = pedersen_commit(value1, randomness1);
    let commit2 = pedersen_commit(value2, randomness2);
    assert_ne!(commit1, commit2);
    let commit1_different_randomness = pedersen_commit(value1, randomness2);
    assert_ne!(commit1, commit1_different_randomness);
}

#[test]
fn confidential_result_plugin_verdict_and_input() {
    let with_proof = ConfidentialResult::new(1, vec![[7u8; 32]], vec![], vec![1], [1u8; 32]);
    assert!(with_proof.verify_with_plugin([0u8; 32], Some(true)));
    assert!(!with_proof.verify_with_plugin([0u8; 32], Some(false)));
    assert!(with_proof.verify_with_plugin([0u8; 32], None));
    let no_rows = ConfidentialResult::new(0, vec![], vec![], vec![1], [1u8; 32]);
    assert!(!no_rows.verify_with_plugin([0u8; 32], None));
    let input = with_proof.verification_input([9u8; 32]);
    assert_eq!(input.len(), 32 + 8 + 32 + 32);
    assert_eq!(input[32], 1);
    assert_eq!(input[40], 1);
    assert_eq!(input[72], 7);
}

#[test]
fn encrypted_query_commitment_depends_on_filters() {
    let a = EncryptedQuery::new(b"t".to_vec(), vec![], [0u8; 32]);
    let b = EncryptedQuery::new(
        b"t".to_vec(),
        vec![EncryptedFilter::new(b"c".to_vec(), FilterOp::Equal, [1u8; 32], [0u8; 32])],
        [0u8; 32],
    );
    assert_ne!(a.query_commitment, b.query_commitment);
    let c = EncryptedQuery::new(
        b"t".to_vec(),
        vec![EncryptedFilter::new(b"c".to_vec(), FilterOp::Equal, [1u8; 32], [5u8; 32])],
        [9u8; 32],
    );
    assert_eq!(b.query_commitment, c.query_commitment);
    assert_eq!(a.query_commitment, *blake3::hash(b"t").as_bytes());
}

#[test]
fn encrypted_query_bad_operator_byte() {
    let q = EncryptedQuery::new(
        b"t".to_vec(),
        vec![EncryptedFilter::new(b"c".to_vec(), FilterOp::Equal, [1u8; 32], [0u8; 32])],
        [0u8; 32],
    );
    let mut bytes = q.to_bytes();
    bytes[4 + 1 + 4 + 4 + 1] = 0;
    assert!(EncryptedQuery::from_bytes(&bytes).is_none());
}

#[test]
fn test_cairo_program_hash() {
    let source = "fn main() { return (); }";
    let hash1 = CairoProgram::compute_hash(source);
    let hash2 = CairoProgram::compute_hash(source);
    assert_eq!(hash1, hash2, "Same source should produce same hash");
    let different_source = "fn main() { return 1; }";
    let hash3 = CairoProgram::compute_hash(different_source);
    assert_ne!(hash1, hash3, "Different source should produce different hash");
    assert_eq!(hash1, *blake3::hash(source.as_bytes()).as_bytes());
}

#[test]
fn test_cairo_program_from_source() {
    let source = "fn main() { return (); }".to_string();
    let version = 2u32;
    let program = CairoProgram::from_source(source.clone(), version);
    assert_eq!(program.source, source);
    assert_eq!(program.version, version);
    assert!(!program.sierra.is_empty() || program.sierra.is_empty());
    assert!(!program.casm.is_empty() || program.casm.is_empty());
    assert!(!program.is_compiled(), "Should not be compiled (stub)");
}

#[test]
fn test_cairo_program_compile_stubs() {
    let source = "fn main() { return (); }";
    let result = CairoProgram::compile_to_sierra(source);
    assert!(result.is_err(), "Should return error for unimplemented stub");
    let sierra = vec![1, 2, 3];
    let result = CairoProgram::compile_to_casm(&sierra);
    assert!(result.is_err(), "Should return error for unimplemented stub");
}

#[test]
fn test_registry_new() {
    let registry = CairoProgramRegistry::new();
    assert!(registry.is_empty());
    assert_eq!(registry.len(), 0);
}

#[test]
fn test_registry_default() {
    let registry = CairoProgramRegistry::default();
    assert!(registry.is_empty());
}

#[test]
fn test_registry_register() {
    let mut registry = CairoProgramRegistry::new();
    let source = "fn main() { return (); }".to_string();
    let program = CairoProgram::from_source(source, 2);
    let result = registry.register(program.clone());
    assert!(result.is_ok(), "Should successfully register program");
    assert_eq!(registry.len(), 1);
}

#[test]
fn test_registry_register_duplicate() {
    let mut registry = CairoProgramRegistry::new();
    let source = "fn main() { return (); }".to_string();
    let program = CairoProgram::from_source(source, 2);
    registry.register(program.clone()).unwrap();
    let result = registry.register(program);
    assert!(result.is_err(), "Should fail to register duplicate");
    assert_eq!(registry.len(), 1, "Should still have only 1 program");
}

#[test]
fn test_registry_get() {
    let mut registry = CairoProgramRegistry::new();
    let source = "fn main() { return (); }".to_string();
    let program = CairoProgram::from_source(source, 2);
    let hash = program.hash;
    registry.register(program).unwrap();
    let retrieved = registry.get(&hash);
    assert!(retrieved.is_some(), "Should retrieve registered program");
    assert_eq!(retrieved.unwrap().hash, hash);
}

#[test]
fn test_registry_get_not_found() {
    let registry = CairoProgramRegistry::new();
    let hash = [0u8; 32];
    let retrieved = registry.get(&hash);
    assert!(retrieved.is_none(), "Should not find unregistered program");
}

#[test]
fn test_registry_remove() {
    let mut registry = CairoProgramRegistry::new();
    let source = "fn main() { return (); }".to_string();
    let program = CairoProgram::from_source(source, 2);
    let hash = program.hash;
    registry.register(program).unwrap();
    assert_eq!(registry.len(), 1);
    let removed = registry.remove(&hash);
    assert!(removed.is_ok(), "Should successfully remove program");
    assert_eq!(registry.len(), 0);
}

#[test]
fn test_registry_remove_not_found() {
    let mut registry = CairoProgramRegistry::new();
    let hash = [0u8; 32];
    let result = registry.remove(&hash);
    assert!(result.is_err(), "Should fail to remove non-existent program");
}

#[test]
fn test_allowlist_add() {
    let mut registry = CairoProgramRegistry::new();
    let source = "fn main() { return (); }".to_string();
    let program = CairoProgram::from_source(source, 2);
    let hash = program.hash;
    registry.register(program).unwrap();
    registry.allowlist_add(hash).unwrap();
    assert!(registry.is_allowed(&hash), "Program should be allowed");
}

#[test]
fn test_allowlist_add_not_found() {
    let mut registry = CairoProgramRegistry::new();
    let hash = [0u8; 32];
    let result = registry.allowlist_add(hash);
    assert!(result.is_err(), "Should fail to add non-existent program");
}

#[test]
fn test_allowlist_remove() {
    let mut registry = CairoProgramRegistry::new();
    let source = "fn main() { return (); }".to_string();
    let program = CairoProgram::from_source(source, 2);
    let hash = program.hash;
    registry.register(program).unwrap();
    registry.allowlist_add(hash).unwrap();
    assert!(registry.is_allowed(&hash));
    registry.allowlist_remove(&hash).unwrap();
    assert!(!registry.is_allowed(&hash), "Program should not be allowed");
}

#[test]
fn test_allowlist_not_in_allowlist() {
    let mut registry = CairoProgramRegistry::new();
    let hash = [0u8; 32];
    let result = registry.allowlist_remove(&hash);
    assert!(result.is_err(), "Should fail to remove non-allowed program");
}

#[test]
fn test_is_allowed() {
    let mut registry = CairoProgramRegistry::new();
    let source = "fn main() { return (); }".to_string();
    let program = CairoProgram::from_source(source, 2);
    let hash = program.hash;
    registry.register(program).unwrap();
    assert!(!registry.is_allowed(&hash), "Program should not be allowed initially");
    registry.allowlist_add(hash).unwrap();
    assert!(registry.is_allowed(&hash), "Program should be allowed after allowlist_add");
}

#[test]
fn test_registry_keys() {
    let mut registry = CairoProgramRegistry::new();
    let source1 = "fn main() { return (); }".to_string();
    let source2 = "fn main() { return 1; }".to_string();
    let program1 = CairoProgram::from_source(source1, 2);
    let program2 = CairoProgram::from_source(source2, 2);
    registry.register(program1).unwrap();
    registry.register(program2).unwrap();
    let keys: Vec<_> = registry.keys().into_iter().collect();
    assert_eq!(keys.len(), 2);
}

#[test]
fn test_registry_allowed_keys() {
    let mut registry = CairoProgramRegistry::new();
    let source1 = "fn main() { return (); }".to_string();
    let source2 = "fn main() { return 1; }".to_string();
    let program1 = CairoProgram::from_source(source1, 2);
    let program2 = CairoProgram::from_source(source2, 2);
    let hash1 = program1.hash;
    registry.register(program1).unwrap();
    registry.register(program2).unwrap();
    registry.allowlist_add(hash1).unwrap();
    let allowed: Vec<_> = registry.allowed_keys().into_iter().collect();
    assert_eq!(allowed.len(), 1);
    assert_eq!(allowed[0], &hash1);
}

#[test]
fn registry_keys_ascend_and_remove_clears_allowlist() {
    let mut registry = CairoProgramRegistry::new();
    for (i, first) in [9u8, 3, 7, 1].iter().enumerate() {
        let mut p = CairoProgram::from_source(format!("p{}", i), 2);
        p.hash = [*first; 32];
        registry.register(p).unwrap();
    }
    let keys: Vec<[u8; 32]> = registry.keys().into_iter().copied().collect();
    assert_eq!(keys, vec![[1u8; 32], [3u8; 32], [7u8; 32], [9u8; 32]]);
    registry.allowlist_add([7u8; 32]).unwrap();
    registry.allowlist_add([3u8; 32]).unwrap();
    registry.allowlist_add([3u8; 32]).unwrap();
    assert_eq!(registry.allowed_keys(), vec![&[3u8; 32], &[7u8; 32]]);
    let removed = registry.remove(&[7u8; 32]).unwrap();
    assert_eq!(removed.hash, [7u8; 32]);
    assert!(!registry.is_allowed(&[7u8; 32]));
    assert_eq!(registry.len(), 3);
    assert_eq!(registry.remove(&[7u8; 32]), Err(RegistryError::NotFound([7u8; 32])));
    assert_eq!(registry.allowlist_remove(&[9u8; 32]), Err(RegistryError::NotInAllowlist([9u8; 32])));
}

#[test]
fn registry_and_compile_error_messages() {
    let mut h = [0u8; 32];
    h[0] = 12;
    let text = RegistryError::AlreadyExists(h).message();
    assert_eq!(text, format!("Program already exists: {:?}", h));
    assert_eq!(RegistryError::RegistryFull.message(), "Registry is full");
    assert_eq!(CompileError::CompilerNotFound.message(), "Cairo compiler not found");
    assert_eq!(CompileError::NotImplemented("x".to_string()).message(), "Not implemented: x");
    assert_eq!(
        CairoProgram::compile_to_casm(&[1]),
        Err(CompileError::NotImplemented("compile_to_casm".to_string()))
    );
}

#[test]
fn test_register_bundled_programs() {
    let mut registry = CairoProgramRegistry::new();
    assert!(register_bundled_programs(&mut registry).is_ok());
    assert!(registry.get(&STATE_TRANSITION_HASH).is_some());
    assert!(registry.get(&HEXARY_VERIFY_HASH).is_some());
    assert!(registry.get(&MERKLE_BATCH_HASH).is_some());
}

#[test]
fn test_get_bundled_program() {
    let program = get_bundled_program("state_transition");
    assert!(program.is_some());
    assert_eq!(program.unwrap().hash, STATE_TRANSITION_HASH);
    let program = get_bundled_program("nonexistent");
    assert!(program.is_none());
}

#[test]
fn test_is_bundled_program() {
    assert!(is_bundled_program(&STATE_TRANSITION_HASH));
    assert!(is_bundled_program(&HEXARY_VERIFY_HASH));
    assert!(is_bundled_program(&MERKLE_BATCH_HASH));
    let unknown_hash = [0u8; 32];
    assert!(!is_bundled_program(&unknown_hash));
}

#[test]
fn test_get_bundled_program_name() {
    assert_eq!(get_bundled_program_name(&STATE_TRANSITION_HASH), Some("state_transition"));
    assert_eq!(get_bundled_program_name(&HEXARY_VERIFY_HASH), Some("hexary_verify"));
    assert_eq!(get_bundled_program_name(&MERKLE_BATCH_HASH), Some("merkle_batch"));
    let unknown_hash = [0u8; 32];
    assert_eq!(get_bundled_program_name(&unknown_hash), None);
}

#[test]
fn test_bundled_error_display() {
    let err = BundledError::ProgramNotFound("test".to_string());
    let display = err.message();
    assert!(display.contains("test"));
    assert!(display.contains("not found"));
}

#[test]
fn test_bundled_programs_have_source() {
    let state_transition = get_bundled_program("state_transition").unwrap();
    assert!(!state_transition.source.is_empty());
    assert!(state_transition.source.contains("Copyright"));
    assert!(state_transition.source.contains("State Transition"));

    let hexary_verify = get_bundled_program("hexary_verify").unwrap();
    assert!(!hexary_verify.source.is_empty());
    assert!(hexary_verify.source.contains("Copyright"));
    assert!(hexary_verify.source.contains("Hexary"));

    let merkle_batch = get_bundled_program("merkle_batch").unwrap();
    assert!(!merkle_batch.source.is_empty());
    assert!(merkle_batch.source.contains("Copyright"));
    assert!(merkle_batch.source.contains("Batch"));
}

#[test]
fn test_all_bundled_programs_version_2() {
    let state_transition = get_bundled_program("state_transition").unwrap();
    assert_eq!(state_transition.version, 2);
    let hexary_verify = get_bundled_program("hexary_verify").unwrap();
    assert_eq!(hexary_verify.version, 2);
    let merkle_batch = get_bundled_program("merkle_batch").unwrap();
    assert_eq!(merkle_batch.version, 2);
}

#[test]
fn test_bundled_program_hashes_are_unique() {
    assert_ne!(STATE_TRANSITION_HASH, HEXARY_VERIFY_HASH);
    assert_ne!(STATE_TRANSITION_HASH, MERKLE_BATCH_HASH);
    assert_ne!(HEXARY_VERIFY_HASH, MERKLE_BATCH_HASH);
}

#[test]
fn bundled_registration_stops_at_first_duplicate() {
    let mut registry = CairoProgramRegistry::new();
    register_bundled_programs(&mut registry).unwrap();
    let again = register_bundled_programs(&mut registry);
    match again {
        Err(BundledError::RegistrationFailed(name, msg)) => {
            assert_eq!(name, "state_transition");
            assert_eq!(msg, format!("Program already exists: {:?}", STATE_TRANSITION_HASH));
        },
        other => panic!("unexpected {:?}", other),
    }
    assert_eq!(registry.len(), 3);
    let b = get_bundled_program("merkle_batch").unwrap();
    assert_eq!(b.casm, vec![0x21, 0x22, 0x23, 0x24]);
    assert!(b.sierra.is_empty());
}

#[test]
fn test_prover_creation() {
    let prover = STWOProver::new();
    assert_eq!(prover.config().max_proof_size, 500 * 1024);
}

#[test]
fn test_prover_with_config() {
    let config = ProverConfig { max_proof_size: 1024, timeout: Duration::from_secs(10), num_threads: 4 };
    let prover = STWOProver::with_config(config.clone());
    assert_eq!(prover.config().max_proof_size, 1024);
}

#[test]
fn test_prover_builder_pattern() {
    let prover = STWOProver::new().with_max_proof_size(2048).with_timeout(Duration::from_secs(60));
    assert_eq!(prover.config().max_proof_size, 2048);
    assert_eq!(prover.config().timeout, Duration::from_secs(60));
}

#[test]
fn test_default_prover() {
    let prover = STWOProver::default();
    assert_eq!(prover.config().max_proof_size, 500 * 1024);
}

#[test]
fn prover_default_timeout_and_threads() {
    let config = ProverConfig::default();
    assert_eq!(config.timeout, Duration::from_secs(30));
    assert!(config.num_threads >= 1);
}

#[test]
fn plugin_decisions_and_messages() {
    assert_eq!(
        choose_plugin_source(Some("/x.so".to_string()), true, true),
        Some(PluginSource::FromEnv("/x.so".to_string()))
    );
    assert_eq!(choose_plugin_source(None, true, true), Some(PluginSource::DefaultBuild));
    assert_eq!(choose_plugin_source(None, false, true), Some(PluginSource::Local));
    assert_eq!(choose_plugin_source(None, false, false), None);
    assert_eq!(verification_outcome(true, None), Ok(true));
    assert_eq!(
        verification_outcome(false, None),
        Err(PluginError::VerificationFailed("Unknown error".to_string()))
    );
    assert_eq!(
        verification_outcome(false, Some("bad".to_string())),
        Err(PluginError::VerificationFailed("bad".to_string()))
    );
    assert_eq!(PluginError::SymbolNotFound.message(), "STWO plugin missing required symbols");
    assert_eq!(VerifyError::ParseError("p".to_string()).message(), "Failed to parse proof: p");
}

#[test]
fn commitment_is_pedersen_hash_of_value_bits_and_randomness() {
    let expected = pedersen_hash(&FieldElement::from((-5i64) as u64), &FieldElement::from(77u64)).to_bytes_be();
    assert_eq!(pedersen_commit(-5, 77), expected);
}

#[test]
fn validation_needs_accepted_proof_of_expected_program_and_outputs() {
    let h = [7u8; 32];
    let out = [1u8, 2, 3];
    assert_eq!(verify_proof_with_validation(None, &h, &out, &h, &out), Ok(true));
    assert_eq!(
        verify_proof_with_validation(None, &[8u8; 32], &out, &h, &out),
        Err(VerifyError::InvalidProof("program hash does not match the expected program hash".to_string()))
    );
    assert_eq!(
        verify_proof_with_validation(None, &h, &[1u8, 2], &h, &out),
        Err(VerifyError::InvalidProof("outputs do not match the expected outputs".to_string()))
    );
    assert_eq!(
        verify_proof_with_validation(Some((true, "bad".to_string())), &h, &out, &h, &out),
        Err(VerifyError::VerificationFailed("bad".to_string()))
    );
    assert_eq!(
        verify_proof_with_validation(Some((false, "eof".to_string())), &h, &out, &h, &out),
        Err(VerifyError::ParseError(
            "Could not parse proof as JSON: eof. Expected CairoProofForRustVerifier JSON.".to_string()
        ))
    );
}

#[test]
fn verify_outcome_for_each_answer() {
    assert_eq!(verify_outcome(None), Ok(true));
    assert_eq!(
        verify_outcome(Some((false, "bad".to_string()))),
        Err(VerifyError::ParseError(
            "Could not parse proof as JSON: bad. Expected CairoProofForRustVerifier JSON.".to_string()
        ))
    );
    assert_eq!(
        verify_outcome(Some((true, "OodsNotMatching".to_string()))),
        Err(VerifyError::VerificationFailed("OodsNotMatching".to_string()))
    );
    assert_eq!(
        VerifyError::VerificationFailed("x".to_string()).message(),
        "Verification failed: x"
    );
}

#[test]
fn bundled_registration_keeps_other_programs_and_allowlist() {
    let mut registry = CairoProgramRegistry::new();
    let other = CairoProgram::from_source("fn main() {}".to_string(), 1);
    let other_hash = other.hash;
    registry.register(other).unwrap();
    registry.allowlist_add(other_hash).unwrap();
    register_bundled_programs(&mut registry).unwrap();
    assert_eq!(registry.len(), 4);
    assert!(registry.get(&other_hash).is_some());
    assert!(registry.is_allowed(&other_hash));
    assert!(!registry.is_allowed(&STATE_TRANSITION_HASH));
}

#[test]
fn truncated_query_and_result_give_none() {
    assert!(EncryptedQuery::from_bytes(&[]).is_none());
    let query = EncryptedQuery::new(b"t".to_vec(), vec![], [0u8; 32]);
    let qb = query.to_bytes();
    assert!(EncryptedQuery::from_bytes(&qb[..qb.len() - 1]).is_none());
    assert!(ConfidentialResult::from_bytes(&[1, 2, 3]).is_none());
    let result = ConfidentialResult::new(2, vec![[1u8; 32]], vec![], vec![9, 9], [3u8; 32]);
    let rb = result.to_bytes();
    assert!(ConfidentialResult::from_bytes(&rb[..rb.len() - 1]).is_none());
    assert!(ConfidentialResult::from_bytes(&rb).is_some());
}
