use stoolap::determ::row::DetermRow;
use stoolap::determ::value::DetermValue;
use stoolap::trie::confidential_query::ConfidentialQueryError;
use stoolap::trie::merkle::{hash_pair, merkle_root, MerkleProof};
use stoolap::trie::row_trie::{encode_row_id, hash_16_children, RowNode, RowTrie, StateDiff};
use stoolap::trie::schema_trie::{ColumnDef, DataType, SchemaTrie, TableSchema};
use stoolap::zk::confidential::{EncryptedFilter, EncryptedQuery, FilterOp};

#[test]
fn test_hash_pair_simple() {
    let a = [1u8; 32];
    let b = [2u8; 32];
    let result = hash_pair(&a, &b);
    assert_eq!(result, [3u8; 32]);
}

#[test]
fn test_hash_pair_commutative() {
    let a = [1u8; 32];
    let b = [2u8; 32];
    let result1 = hash_pair(&a, &b);
    let result2 = hash_pair(&b, &a);
    assert_eq!(result1, result2);
}

#[test]
fn test_hash_pair_identity() {
    let a = [5u8; 32];
    let zero = [0u8; 32];
    let result = hash_pair(&a, &zero);
    assert_eq!(result, a);
}

#[test]
fn test_merkle_proof_default() {
    let proof = MerkleProof::default();
    assert_eq!(proof.value_hash, [0u8; 32]);
    assert!(proof.siblings.is_empty());
    assert_eq!(proof.root, [0u8; 32]);
    assert!(proof.path.is_empty());
}

#[test]
fn test_merkle_proof_builder() {
    let mut proof = MerkleProof::new();
    proof.set_value_hash([42u8; 32]);
    proof.add_sibling([1u8; 32]);
    proof.add_sibling([2u8; 32]);
    proof.set_root([3u8; 32]);
    proof.set_path(vec![0, 1]);

    assert_eq!(proof.value_hash, [42u8; 32]);
    assert_eq!(proof.siblings.len(), 2);
    assert_eq!(proof.siblings[0], [1u8; 32]);
    assert_eq!(proof.siblings[1], [2u8; 32]);
    assert_eq!(proof.root, [3u8; 32]);
    assert_eq!(proof.path, vec![0, 1]);
}

#[test]
fn test_merkle_proof_with_value() {
    let proof = MerkleProof::with_value([99u8; 32]);
    assert_eq!(proof.value_hash, [99u8; 32]);
    assert!(proof.siblings.is_empty());
}

#[test]
fn test_merkle_proof_verify_single() {
    let mut proof = MerkleProof::new();
    proof.set_value_hash([1u8; 32]);
    proof.set_root([1u8; 32]);
    assert!(proof.verify());
}

#[test]
fn test_merkle_proof_verify_single_fail() {
    let mut proof = MerkleProof::new();
    proof.set_value_hash([1u8; 32]);
    proof.set_root([2u8; 32]);
    assert!(!proof.verify());
}

#[test]
fn test_merkle_proof_verify_two_leaves() {
    let mut proof = MerkleProof::new();
    proof.set_value_hash([1u8; 32]);
    proof.add_sibling([2u8; 32]);
    proof.set_root([3u8; 32]);
    proof.set_path(vec![0]);
    assert!(proof.verify());
}

#[test]
fn test_merkle_root_empty_list() {
    let leaves: &[[u8; 32]] = &[];
    let root = merkle_root(leaves);
    assert_eq!(root, [0u8; 32]);
}

#[test]
fn test_merkle_root_single_element() {
    let leaves = [[5u8; 32]];
    let root = merkle_root(&leaves);
    assert_eq!(root, [5u8; 32]);
}

#[test]
fn test_merkle_root_two_elements() {
    let leaves = [[1u8; 32], [2u8; 32]];
    let root = merkle_root(&leaves);
    assert_eq!(root, [3u8; 32]);
}

#[test]
fn test_merkle_root_four_elements() {
    let leaves = [[1u8; 32], [2u8; 32], [3u8; 32], [4u8; 32]];
    let root = merkle_root(&leaves);
    assert_eq!(root, [4u8; 32]);
}

#[test]
fn test_merkle_root_three_elements() {
    let leaves = [[1u8; 32], [2u8; 32], [3u8; 32]];
    let root = merkle_root(&leaves);
    assert_eq!(root, [0u8; 32]);
}

#[test]
fn test_merkle_root_empty() {
    let leaves: &[[u8; 32]] = &[];
    let root = merkle_root(leaves);
    assert_eq!(root, [0u8; 32]);
}

#[test]
fn test_merkle_root_single() {
    let leaves = [[1u8; 32]];
    let root = merkle_root(&leaves);
    assert_eq!(root, [1u8; 32]);
}

#[test]
fn test_merkle_root_two() {
    let leaf1 = [1u8; 32];
    let leaf2 = [2u8; 32];
    let leaves = [leaf1, leaf2];
    let root = merkle_root(&leaves);
    let expected = [3u8; 32];
    assert_eq!(root, expected);
}

#[test]
fn test_merkle_proof_verify() {
    let leaf1 = [1u8; 32];
    let leaf2 = [2u8; 32];
    let leaf3 = [3u8; 32];
    let leaf4 = [4u8; 32];
    let leaves = [leaf1, leaf2, leaf3, leaf4];

    let root = merkle_root(&leaves);

    let sibling_leaf2 = leaf2;
    let sibling_34 = [7u8; 32];

    let mut proof = MerkleProof::new();
    proof.set_value_hash(leaf1);
    proof.add_sibling(sibling_leaf2);
    proof.add_sibling(sibling_34);
    proof.set_root(root);
    proof.set_path(vec![0, 0]);

    assert!(proof.verify());
}

#[test]
fn merkle_proof_right_path_and_reconstruction() {
    let mut proof = MerkleProof::new();
    proof.set_value_hash([4u8; 32]);
    proof.add_sibling([3u8; 32]);
    proof.add_sibling([3u8; 32]);
    proof.set_path(vec![1, 1]);
    proof.set_root([4u8; 32]);
    assert!(proof.verify());
    proof.set_root([5u8; 32]);
    assert!(!proof.verify());
}

#[test]
fn merkle_root_is_xor_of_all_leaves() {
    let leaves = [[1u8; 32], [2u8; 32], [4u8; 32], [8u8; 32], [16u8; 32]];
    assert_eq!(merkle_root(&leaves), [31u8; 32]);
    let mut proof = MerkleProof::with_value([4u8; 32]);
    proof.add_sibling([8u8; 32]);
    proof.add_sibling([3u8; 32]);
    proof.add_sibling([16u8; 32]);
    proof.set_path(vec![0, 1, 0]);
    proof.set_root(merkle_root(&leaves));
    assert!(proof.verify());
}

#[test]
fn test_row_node_new_leaf() {
    let row = DetermRow::from_values(vec![DetermValue::integer(42)]);
    let row_hash = row.hash();
    let node = RowNode::new_leaf(1, row);
    assert_eq!(node.hash(), row_hash);
}

#[test]
fn test_row_trie_new() {
    let trie = RowTrie::new();
    assert_eq!(trie.len(), 0);
    assert_eq!(trie.get_root(), [0u8; 32]);
    assert!(trie.is_empty());
}

#[test]
fn test_encode_row_id() {
    let key = encode_row_id(1);
    assert_eq!(key.len(), 16);
    assert_eq!(key[0], 0);
    assert_eq!(key[1], 1);
}

#[test]
fn test_state_diff_new() {
    let diff = StateDiff::new();
    assert!(diff.is_empty());
    assert_eq!(diff.inserted.len(), 0);
    assert_eq!(diff.updated.len(), 0);
    assert_eq!(diff.deleted.len(), 0);
}

#[test]
fn test_state_diff_not_empty() {
    let mut diff = StateDiff::new();
    diff.inserted.push((1, [1u8; 32]));
    assert!(!diff.is_empty());
}

#[test]
fn test_sequential_row_ids_1_to_100() {
    let mut trie = RowTrie::new();
    for i in 1..=100 {
        let row = DetermRow::from_values(vec![DetermValue::integer(i * 10)]);
        trie.insert(i, row);
    }
    for i in 1..=100 {
        assert!(trie.get_hash(i).is_some(), "Should be able to get hash for row {}", i);
    }
    for i in 1..=100 {
        let row = trie.get(i);
        assert!(row.is_some(), "Should be able to get row {}", i);
        if let Some(r) = row {
            assert_eq!(r.len(), 1, "Row {} should have 1 value", i);
            assert_eq!(r.values[0], DetermValue::integer(i * 10), "Row {} value mismatch", i);
        }
    }
}

#[test]
fn test_sequential_row_ids_1_to_10() {
    let mut trie = RowTrie::new();
    for i in 1..=10 {
        let row = DetermRow::from_values(vec![DetermValue::integer(i * 10)]);
        trie.insert(i, row);
    }
    for i in 1..=10 {
        assert!(trie.get_hash(i).is_some(), "Should be able to get hash for row {}", i);
    }
    for i in 1..=10 {
        let row = trie.get(i);
        assert!(row.is_some(), "Should be able to get row {}", i);
        if let Some(r) = row {
            assert_eq!(r.len(), 1, "Row {} should have 1 value", i);
            assert_eq!(r.values[0], DetermValue::integer(i * 10), "Row {} value mismatch", i);
        }
    }
}

#[test]
fn test_row_trie_insert() {
    let mut trie = RowTrie::new();
    let row = DetermRow::from_values(vec![DetermValue::integer(1), DetermValue::text("Alice"), DetermValue::integer(30)]);
    let (root_hash, diff) = trie.insert(1, row.duplicate());

    assert_eq!(diff.inserted.len(), 1);
    assert_eq!(diff.inserted[0].0, 1);
    assert_eq!(diff.updated.len(), 0);
    assert_eq!(diff.deleted.len(), 0);
    assert_ne!(root_hash, [0u8; 32]);
    let stored_root = trie.get_root();
    assert_eq!(stored_root, root_hash);
    assert_eq!(trie.len(), 1);

    let row2 = DetermRow::from_values(vec![DetermValue::integer(2), DetermValue::text("Bob"), DetermValue::integer(25)]);
    let (root_hash2, _diff2) = trie.insert(2, row2);
    assert_ne!(root_hash2, root_hash);
    assert_eq!(trie.len(), 2);

    let row_updated = DetermRow::from_values(vec![
        DetermValue::integer(1),
        DetermValue::text("Alice Updated"),
        DetermValue::integer(31),
    ]);
    let (root_hash3, diff3) = trie.insert(1, row_updated);

    assert_eq!(diff3.inserted.len(), 0);
    assert_eq!(diff3.updated.len(), 1);
    assert_eq!(diff3.updated[0].0, 1);
    assert_ne!(diff3.updated[0].1, diff3.updated[0].2);
    assert_eq!(diff3.deleted.len(), 0);
    assert_ne!(root_hash3, root_hash2);
    assert_eq!(trie.len(), 2);
}

#[test]
fn test_row_trie_get() {
    let mut trie = RowTrie::new();
    let row1 = DetermRow::from_values(vec![DetermValue::integer(1), DetermValue::text("Alice"), DetermValue::integer(30)]);
    let row2 = DetermRow::from_values(vec![DetermValue::integer(2), DetermValue::text("Bob"), DetermValue::integer(25)]);
    trie.insert(1, row1.duplicate());
    trie.insert(2, row2.duplicate());

    let retrieved = trie.get(1);
    assert!(retrieved.is_some());
    let retrieved_row = retrieved.unwrap();
    assert_eq!(retrieved_row.len(), 3);
    assert_eq!(retrieved_row.values[0], DetermValue::integer(1));
    assert_eq!(retrieved_row.values[1], DetermValue::text("Alice"));
    assert_eq!(retrieved_row.values[2], DetermValue::integer(30));

    let non_existing = trie.get(999);
    assert!(non_existing.is_none());

    let hash = trie.get_hash(1);
    assert!(hash.is_some());
    assert_ne!(hash.unwrap(), [0u8; 32]);

    let hash_non_existing = trie.get_hash(999);
    assert!(hash_non_existing.is_none());
}

#[test]
fn test_row_trie_delete() {
    let mut trie = RowTrie::new();
    let row1 = DetermRow::from_values(vec![DetermValue::integer(1), DetermValue::text("Alice"), DetermValue::integer(30)]);
    let row2 = DetermRow::from_values(vec![DetermValue::integer(2), DetermValue::text("Bob"), DetermValue::integer(25)]);
    let (root1, _) = trie.insert(1, row1);
    let (root2, _) = trie.insert(2, row2);
    assert_eq!(trie.len(), 2);

    let (root3, diff) = trie.delete(1);
    assert_eq!(diff.inserted.len(), 0);
    assert_eq!(diff.updated.len(), 0);
    assert_eq!(diff.deleted.len(), 1);
    assert_eq!(diff.deleted[0].0, 1);
    assert_eq!(diff.deleted[0].1, root1);
    assert_ne!(root3, root2);
    assert_eq!(trie.len(), 1);
    assert!(trie.get(1).is_none());
    assert!(trie.get_hash(1).is_none());
    assert!(trie.get(2).is_some());

    let (root4, diff2) = trie.delete(999);
    assert_eq!(diff2.inserted.len(), 0);
    assert_eq!(diff2.updated.len(), 0);
    assert_eq!(diff2.deleted.len(), 0);
    assert_eq!(root4, root3);
    assert_eq!(trie.len(), 1);
}

#[test]
fn row_trie_single_row_lookup() {
    let mut trie = RowTrie::new();
    let row = DetermRow::from_values(vec![DetermValue::integer(7)]);
    let h = row.hash();
    let (root, diff) = trie.insert(5, row);
    assert_eq!(root, h);
    assert_eq!(diff.inserted, vec![(5, h)]);
    assert!(trie.get(5).is_some());
    assert!(trie.get(6).is_none());
}

#[test]
fn hash_16_children_folds_by_xor() {
    let mut hs = [[0u8; 32]; 16];
    hs[0] = [1u8; 32];
    hs[5] = [2u8; 32];
    hs[15] = [4u8; 32];
    assert_eq!(hash_16_children(&hs), [7u8; 32]);
}

#[test]
fn extension_hash_xors_prefix_into_child() {
    let row = DetermRow::from_values(vec![DetermValue::integer(1)]);
    let leaf = RowNode::new_leaf(3, row);
    let child_hash = leaf.hash();
    let ext = RowNode::new_extension(vec![1, 2], leaf);
    let mut expected = child_hash;
    expected[0] ^= 1;
    expected[1] ^= 2;
    assert_eq!(ext.hash(), expected);
    assert_eq!(RowNode::new_branch().hash(), [0u8; 32]);
}

#[test]
fn test_column_def_new() {
    let col = ColumnDef::new("test_col".to_string(), DataType::Integer);
    assert_eq!(col.name, "test_col");
    assert_eq!(col.data_type, DataType::Integer);
    assert!(col.nullable);
    assert!(!col.is_primary_key);
}

#[test]
fn test_column_def_builder() {
    let col = ColumnDef::new("id".to_string(), DataType::Integer).with_nullable(false).with_primary_key(true);
    assert!(!col.nullable);
    assert!(col.is_primary_key);
}

#[test]
fn test_table_schema_new() {
    let schema = TableSchema::new("users".to_string());
    assert_eq!(schema.name, "users");
    assert!(schema.columns.is_empty());
}

#[test]
fn test_table_schema_add_column() {
    let mut schema = TableSchema::new("users".to_string());
    schema.add_column(ColumnDef::new("id".to_string(), DataType::Integer));
    schema.add_column(ColumnDef::new("name".to_string(), DataType::Text));
    assert_eq!(schema.columns.len(), 2);
    assert_eq!(schema.columns[0].name, "id");
    assert_eq!(schema.columns[1].name, "name");
}

#[test]
fn test_schema_trie_new() {
    let trie = SchemaTrie::new();
    assert_eq!(trie.root_hash(), [0u8; 32]);
    assert!(trie.get("nonexistent").is_none());
}

#[test]
fn test_schema_trie_insert_and_get() {
    let mut trie = SchemaTrie::new();
    let schema = TableSchema::new("test_table".to_string());
    trie.insert(schema);
    let retrieved = trie.get("test_table");
    assert!(retrieved.is_some());
    assert_eq!(retrieved.unwrap().name, "test_table");
}

#[test]
fn test_schema_trie_default() {
    let trie = SchemaTrie::default();
    assert!(trie.schemas.is_empty());
    assert_eq!(trie.root_hash(), [0u8; 32]);
}

#[test]
fn schema_trie_replaces_by_name_and_counts_root() {
    let mut trie = SchemaTrie::new();
    trie.insert(TableSchema::new("a".to_string()));
    trie.insert(TableSchema::new("b".to_string()));
    let mut again = TableSchema::new("a".to_string());
    again.add_column(ColumnDef::new("x".to_string(), DataType::Boolean));
    trie.insert(again);
    assert_eq!(trie.schemas.len(), 2);
    assert_eq!(trie.get("a").unwrap().columns.len(), 1);
    let mut expected = [0u8; 32];
    expected[0] = 2;
    assert_eq!(trie.root_hash(), expected);
    assert!(trie.generate_proof("zz").is_none());
    let proof = trie.generate_proof("a").unwrap();
    assert_eq!(proof.root, trie.root_hash());
    assert_eq!(proof.value_hash, trie.get("a").unwrap().hash());
    assert!(proof.verify());
    let mut h = [0u8; 32];
    h[0] = 5;
    assert_eq!(TableSchema::new("users".to_string()).hash(), h);
}

#[test]
fn test_confidential_query_empty() {
    let trie = RowTrie::new();
    let query = EncryptedQuery::new(b"test".to_vec(), vec![], [0u8; 32]);
    let result = trie.execute_confidential_query(query).unwrap();
    assert_eq!(result.row_count, 0);
    assert!(result.row_commitments.is_empty());
}

#[test]
fn test_confidential_query_with_rows() {
    let mut trie = RowTrie::new();
    for i in 1..=5 {
        let row = DetermRow::from_values(vec![DetermValue::integer(i * 10)]);
        trie.insert(i, row);
    }
    let query = EncryptedQuery::new(b"test".to_vec(), vec![], [0u8; 32]);
    let result = trie.execute_confidential_query(query).unwrap();
    assert_eq!(result.row_count, 5);
    assert_eq!(result.row_commitments.len(), 5);
    assert_eq!(result.aggregate_commitments.len(), 2);
}

#[test]
fn test_confidential_query_with_filters() {
    let mut trie = RowTrie::new();
    trie.insert(1, DetermRow::from_values(vec![DetermValue::integer(10)]));
    trie.insert(2, DetermRow::from_values(vec![DetermValue::integer(20)]));
    trie.insert(3, DetermRow::from_values(vec![DetermValue::integer(30)]));
    trie.insert(4, DetermRow::from_values(vec![DetermValue::integer(40)]));
    trie.insert(5, DetermRow::from_values(vec![DetermValue::integer(50)]));

    let filters = vec![EncryptedFilter::new(b"value".to_vec(), FilterOp::GreaterThan, [0u8; 32], [0u8; 32])];
    let query = EncryptedQuery::new(b"test".to_vec(), filters, [0u8; 32]);
    let result = trie.execute_confidential_query(query).unwrap();
    assert_eq!(result.row_count, 5);
}

#[test]
fn confidential_query_less_than_filter_matches_nothing() {
    let mut trie = RowTrie::new();
    trie.insert(1, DetermRow::from_values(vec![DetermValue::integer(10)]));
    trie.insert(2, DetermRow::from_values(vec![DetermValue::integer(20)]));
    let filters = vec![EncryptedFilter::new(b"value".to_vec(), FilterOp::LessThan, [0u8; 32], [0u8; 32])];
    let query = EncryptedQuery::new(b"t".to_vec(), filters, [0u8; 32]);
    let qc = query.query_commitment;
    let result = trie.execute_confidential_query(query).unwrap();
    assert_eq!(result.row_count, 0);
    assert!(result.aggregate_commitments.is_empty());
    assert_eq!(result.query_commitment, qc);
    assert!(result.proof.is_empty());
    let with_proof = trie
        .execute_confidential_query_with(EncryptedQuery::new(b"t".to_vec(), vec![], [0u8; 32]), true)
        .unwrap();
    assert_eq!(with_proof.proof.len(), 32 + 8 + 2 * 32);
    assert_eq!(&with_proof.proof[0..32], &trie.get_root()[..]);
}

#[test]
fn confidential_query_error_messages() {
    assert_eq!(
        ConfidentialQueryError::DecryptionFailed("bad key".to_string()).message(),
        "Decryption failed: bad key"
    );
    assert_eq!(ConfidentialQueryError::FilterError("x".to_string()).message(), "Filter error: x");
    assert_eq!(ConfidentialQueryError::ProofError("y".to_string()).message(), "Proof error: y");
}

#[test]
fn hexary_path_lists_levels_and_nibbles() {
    let mut trie = RowTrie::new();
    let row1 = DetermRow::from_values(vec![DetermValue::integer(1)]);
    let row2 = DetermRow::from_values(vec![DetermValue::integer(2)]);
    assert!(trie.hexary_path(1).is_none());
    trie.insert(1, row1.duplicate());
    let (h, levels, path) = trie.hexary_path(1).unwrap();
    assert_eq!(h, row1.hash());
    assert!(levels.is_empty());
    assert!(path.is_empty());
    assert!(trie.hexary_path(2).is_none());
    trie.insert(2, row2.duplicate());
    let (h, levels, path) = trie.hexary_path(1).unwrap();
    assert_eq!(h, row1.hash());
    assert_eq!(levels, vec![(6u16, vec![row2.hash()])]);
    assert_eq!(path, vec![0u8, 1u8]);
}
