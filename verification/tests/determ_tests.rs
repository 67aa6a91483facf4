use stoolap::determ::hasher::{digest, MerkleHasher};
use stoolap::determ::row::DetermRow;
use stoolap::determ::value::{DetermError, DetermValue};

#[test]
fn test_determ_value_integer_hash() {
    let v1 = DetermValue::Integer(42);
    let v2 = DetermValue::Integer(42);
    let v3 = DetermValue::Integer(43);

    assert_eq!(v1.hash(), v2.hash());
    assert_ne!(v1.hash(), v3.hash());

    let expected_hash = v1.hash();
    assert_eq!(v1.hash(), expected_hash);
    assert_eq!(v2.hash(), expected_hash);
}

#[test]
fn test_determ_value_inline_text() {
    let short_text = DetermValue::InlineText([b'h', b'e', b'l', b'l', b'o', 0, 0, 0, 0, 0, 0, 0, 0, 0, 0], 5);

    let hash1 = short_text.hash();
    let hash2 = short_text.hash();
    assert_eq!(hash1, hash2);

    let short_text2 = DetermValue::InlineText([b'h', b'e', b'l', b'l', b'o', 0, 0, 0, 0, 0, 0, 0, 0, 0, 0], 5);
    assert_eq!(short_text.hash(), short_text2.hash());
}

#[test]
fn test_determ_value_encode_roundtrip() {
    let test_cases = vec![
        DetermValue::Null,
        DetermValue::Integer(42),
        DetermValue::Integer(-12345),
        DetermValue::Float(3.14159f64.to_bits()),
        DetermValue::Boolean(true),
        DetermValue::Boolean(false),
        DetermValue::Timestamp(1234567890),
    ];

    for value in test_cases {
        let encoded = value.encode();
        let decoded = DetermValue::decode(&encoded).unwrap();

        match (&value, &decoded) {
            (DetermValue::Float(a), DetermValue::Float(b)) => {
                let (a, b) = (f64::from_bits(*a), f64::from_bits(*b));
                if a.is_nan() && b.is_nan() {
                } else {
                    assert_eq!(a, b);
                }
            }
            _ => assert_eq!(value, decoded, "Roundtrip failed for {:?}", value),
        }
    }
}

#[test]
fn test_determ_value_data_type() {
    assert_eq!(DetermValue::Null.data_type(), 0);
    assert_eq!(DetermValue::Integer(42).data_type(), 1);
    assert_eq!(DetermValue::Float(3.14f64.to_bits()).data_type(), 2);
    assert_eq!(DetermValue::InlineText([0u8; 15], 0).data_type(), 3);
    assert_eq!(DetermValue::HeapText(vec![]).data_type(), 4);
    assert_eq!(DetermValue::Boolean(true).data_type(), 5);
    assert_eq!(DetermValue::Timestamp(123).data_type(), 6);
    assert_eq!(DetermValue::Extension(vec![]).data_type(), 7);
}

#[test]
fn test_determ_value_is_null() {
    assert!(DetermValue::Null.is_null());
    assert!(!DetermValue::Integer(0).is_null());
    assert!(!DetermValue::Boolean(false).is_null());
}

#[test]
fn test_determ_value_encoded_len() {
    assert_eq!(DetermValue::Null.encoded_len(), 1);
    assert_eq!(DetermValue::Integer(42).encoded_len(), 9);
    assert_eq!(DetermValue::Float(3.14f64.to_bits()).encoded_len(), 9);
    assert_eq!(DetermValue::Boolean(true).encoded_len(), 2);
    assert_eq!(DetermValue::Timestamp(123).encoded_len(), 9);
}

#[test]
fn test_determ_value_constructors() {
    let null = DetermValue::null();
    assert!(null.is_null());

    let int = DetermValue::integer(42);
    assert_eq!(int.data_type(), DetermValue::TYPE_INTEGER);

    let float = DetermValue::float_bits(3.14f64.to_bits());
    assert_eq!(float.data_type(), DetermValue::TYPE_FLOAT);

    let text = DetermValue::text("hello");
    assert_eq!(text.data_type(), DetermValue::TYPE_INLINE_TEXT);

    let long_text = DetermValue::text("this is a very long string that exceeds 15 bytes");
    assert_eq!(long_text.data_type(), DetermValue::TYPE_HEAP_TEXT);

    let bool = DetermValue::boolean(true);
    assert_eq!(bool.data_type(), DetermValue::TYPE_BOOLEAN);

    let ts = DetermValue::timestamp(1234567890);
    assert_eq!(ts.data_type(), DetermValue::TYPE_TIMESTAMP);
}

#[test]
fn test_merkle_hasher_deterministic() {
    let mut hasher1 = MerkleHasher::new();
    hasher1.input(&[1, 2, 3]);
    let hash1 = hasher1.finalize();

    let mut hasher2 = MerkleHasher::new();
    hasher2.input(&[1, 2, 3]);
    let hash2 = hasher2.finalize();

    assert_eq!(hash1, hash2);
}

#[test]
fn test_merkle_hasher_different_inputs() {
    let mut hasher1 = MerkleHasher::new();
    hasher1.input(&[1, 2, 3]);
    let hash1 = hasher1.finalize();

    let mut hasher2 = MerkleHasher::new();
    hasher2.input(&[4, 5, 6]);
    let hash2 = hasher2.finalize();

    assert_ne!(hash1, hash2);
}

#[test]
fn merkle_hasher_split_input_equals_whole() {
    let mut whole = MerkleHasher::new();
    whole.input(&[9, 8, 7, 6, 5, 4, 3, 2, 1]);
    let mut split = MerkleHasher::new();
    split.input(&[9, 8, 7]);
    split.input(&[6, 5, 4, 3, 2, 1]);
    assert_eq!(whole.finalize(), split.finalize());
    let mut h = MerkleHasher::new();
    h.input(&[1, 2, 3]);
    assert_eq!(h.finalize(), digest(&[1, 2, 3]));
}

#[test]
fn merkle_hasher_exact_digest() {
    let mut expected = [0u8; 32];
    expected[0] = 1;
    expected[1] = 2;
    expected[2] = 3;
    assert_eq!(digest(&[1, 2, 3]), expected);
    let long: Vec<u8> = (0u8..33).collect();
    let d = digest(&long);
    assert_eq!(d[0], 0 ^ 32);
    assert_eq!(d[1], 1);
}

#[test]
fn value_encodings_exact() {
    assert_eq!(DetermValue::Null.encode(), vec![0]);
    assert_eq!(DetermValue::Integer(1).encode(), vec![1, 1, 0, 0, 0, 0, 0, 0, 0]);
    assert_eq!(DetermValue::Boolean(true).encode(), vec![5, 1]);
    let t = DetermValue::text("hi");
    let e = t.encode();
    assert_eq!(e[0], 3);
    assert_eq!(DetermValue::decode(&e).unwrap(), t);
    let heap = DetermValue::text("this is a very long string that exceeds 15 bytes");
    assert_eq!(DetermValue::decode(&heap.encode()).unwrap(), heap);
    let ext = DetermValue::Extension(vec![7, 8, 9]);
    assert_eq!(DetermValue::decode(&ext.encode()).unwrap(), ext);
}

#[test]
fn value_decode_errors() {
    assert_eq!(DetermValue::decode(&[]), Err(DetermError::EmptyData));
    assert_eq!(DetermValue::decode(&[1, 0]), Err(DetermError::InvalidInteger));
    assert_eq!(DetermValue::decode(&[2, 0]), Err(DetermError::InvalidFloat));
    assert_eq!(DetermValue::decode(&[3]), Err(DetermError::InvalidInlineText));
    assert_eq!(DetermValue::decode(&[5]), Err(DetermError::InvalidBoolean));
    assert_eq!(DetermValue::decode(&[6, 1]), Err(DetermError::InvalidTimestamp));
    assert_eq!(DetermValue::decode(&[9]), Err(DetermError::UnknownTypeTag(9)));
}

#[test]
fn row_roundtrip_and_hash() {
    let row = DetermRow::from_values(vec![DetermValue::integer(1), DetermValue::boolean(true)]);
    let bytes = row.encode();
    let back = DetermRow::decode(&bytes).unwrap();
    assert_eq!(back.values, row.values);
    assert_eq!(back.hash(), row.hash());
    assert_eq!(row.len(), 2);
    assert!(!row.is_empty());
    assert!(DetermRow::new().is_empty());
    let other = DetermRow::from_values(vec![DetermValue::integer(2), DetermValue::boolean(true)]);
    assert_ne!(other.hash(), row.hash());
}
