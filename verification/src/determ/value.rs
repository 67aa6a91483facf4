//! Deterministic values: the tagged encoding, its decoder and the value hash.

use vstd::prelude::*;
use crate::bytes::{le_u32, le_u64, read_le_u32, read_le_u64, push_bytes, push_u32_le, push_u64_le, copy_range, read_u32_at, read_u64_at, lemma_read_le_u32, lemma_read_le_u64};
use crate::determ::hasher::{digest, xor_digest};
use vstd::string::StringSliceAdditionalSpecFns;

verus! {

/// Deterministic value.
///
/// Small text (at most 15 bytes) is stored inline with its length; longer
/// text and extension payloads are stored as byte vectors. A float is held
/// as its IEEE-754 bit pattern, which is exactly what its encoding and its
/// hash are made of.
#[derive(Debug, Clone, PartialEq, Eq)]
pub enum DetermValue {
    /// NULL value
    Null,
    /// 64-bit signed integer
    Integer(i64),
    /// 64-bit floating point, as its bit pattern
    Float(u64),
    /// Inline text (15 bytes or less) and its length
    InlineText([u8; 15], u8),
    /// Heap text (more than 15 bytes)
    HeapText(Vec<u8>),
    /// Boolean value
    Boolean(bool),
    /// Timestamp (i64 nanoseconds since Unix epoch)
    Timestamp(i64),
    /// Extension type for future use
    Extension(Vec<u8>),
}

/// The mathematical content of a [`DetermValue`]: byte buffers as sequences.
pub enum ValueModel {
    Null,
    Integer(i64),
    Float(u64),
    InlineText(Seq<u8>, u8),
    HeapText(Seq<u8>),
    Boolean(bool),
    Timestamp(i64),
    Extension(Seq<u8>),
}

/// Reasons a byte string is not a valid encoded value or row.
#[derive(Debug, Clone, Copy, PartialEq, Eq)]
pub enum DetermError {
    /// The input is empty.
    EmptyData,
    /// An integer needs 9 bytes.
    InvalidInteger,
    /// A float needs 9 bytes.
    InvalidFloat,
    /// Inline text needs a length byte.
    InvalidInlineText,
    /// The inline text length exceeds 15 or the bytes present.
    InvalidInlineTextLength,
    /// Heap text needs a 4-byte length.
    InvalidHeapText,
    /// Fewer heap text bytes than its length says.
    TruncatedHeapText,
    /// A boolean needs 2 bytes.
    InvalidBoolean,
    /// A timestamp needs 9 bytes.
    InvalidTimestamp,
    /// An extension needs a 4-byte length.
    InvalidExtension,
    /// Fewer extension bytes than its length says.
    TruncatedExtension,
    /// The tag byte names no type.
    UnknownTypeTag(u8),
    /// A row needs a 4-byte count.
    RowTooShort,
    /// A row ends before all of its values.
    RowTruncated,
    /// A value's fixed-size header runs past the end of the row.
    RowTruncatedValue,
    /// A value in a row has a tag that names no type.
    RowInvalidTypeTag(u8),
}

impl View for DetermValue {
    type V = ValueModel;

    open spec fn view(&self) -> ValueModel {
        match *self {
            DetermValue::Null => ValueModel::Null,
            DetermValue::Integer(v) => ValueModel::Integer(v),
            DetermValue::Float(b) => ValueModel::Float(b),
            DetermValue::InlineText(d, l) => ValueModel::InlineText(d@, l),
            DetermValue::HeapText(d) => ValueModel::HeapText(d@),
            DetermValue::Boolean(b) => ValueModel::Boolean(b),
            DetermValue::Timestamp(v) => ValueModel::Timestamp(v),
            DetermValue::Extension(d) => ValueModel::Extension(d@),
        }
    }
}

/// The tag byte of each kind of value.
pub open spec fn model_tag(m: ValueModel) -> u8 {
    match m {
        ValueModel::Null => 0,
        ValueModel::Integer(_) => 1,
        ValueModel::Float(_) => 2,
        ValueModel::InlineText(_, _) => 3,
        ValueModel::HeapText(_) => 4,
        ValueModel::Boolean(_) => 5,
        ValueModel::Timestamp(_) => 6,
        ValueModel::Extension(_) => 7,
    }
}

/// A value can be encoded: inline text says at most 15 bytes.
pub open spec fn model_wf(m: ValueModel) -> bool {
    match m {
        ValueModel::InlineText(d, l) => d.len() == 15 && l <= 15,
        _ => true,
    }
}

/// The encoding of a value: its tag byte, then its payload.
pub open spec fn spec_encode(m: ValueModel) -> Seq<u8> {
    match m {
        ValueModel::Null => seq![0u8],
        ValueModel::Integer(v) => seq![1u8] + le_u64(v as u64),
        ValueModel::Float(b) => seq![2u8] + le_u64(b),
        ValueModel::InlineText(d, l) => seq![3u8, l] + d.subrange(0, l as int),
        ValueModel::HeapText(d) => seq![4u8] + le_u32(d.len() as u32) + d,
        ValueModel::Boolean(b) => seq![5u8, if b { 1u8 } else { 0u8 }],
        ValueModel::Timestamp(v) => seq![6u8] + le_u64(v as u64),
        ValueModel::Extension(d) => seq![7u8] + le_u32(d.len() as u32) + d,
    }
}

/// The number of bytes of the encoding.
pub open spec fn spec_encoded_len(m: ValueModel) -> int {
    match m {
        ValueModel::Null => 1int,
        ValueModel::Integer(_) => 9int,
        ValueModel::Float(_) => 9int,
        ValueModel::InlineText(_, l) => 2 + l as int,
        ValueModel::HeapText(d) => 5 + d.len() as int,
        ValueModel::Boolean(_) => 2int,
        ValueModel::Timestamp(_) => 9int,
        ValueModel::Extension(d) => 5 + d.len() as int,
    }
}

/// Fifteen bytes holding `d` followed by zeros.
pub open spec fn pad15(d: Seq<u8>) -> Seq<u8> {
    d + Seq::new((15 - d.len()) as nat, |i: int| 0u8)
}

/// What decoding a byte string gives: the value its prefix encodes, or why
/// it encodes none. Bytes after the value are ignored.
pub open spec fn spec_decode(s: Seq<u8>) -> Result<ValueModel, DetermError> {
    if s.len() == 0 {
        Err(DetermError::EmptyData)
    } else if s[0] == 0 {
        Ok(ValueModel::Null)
    } else if s[0] == 1 {
        if s.len() < 9 { Err(DetermError::InvalidInteger) } else { Ok(ValueModel::Integer(read_le_u64(s, 1) as i64)) }
    } else if s[0] == 2 {
        if s.len() < 9 { Err(DetermError::InvalidFloat) } else { Ok(ValueModel::Float(read_le_u64(s, 1))) }
    } else if s[0] == 3 {
        if s.len() < 2 {
            Err(DetermError::InvalidInlineText)
        } else if s.len() < 2 + s[1] || s[1] > 15 {
            Err(DetermError::InvalidInlineTextLength)
        } else {
            Ok(ValueModel::InlineText(pad15(s.subrange(2, 2 + s[1])), s[1]))
        }
    } else if s[0] == 4 {
        if s.len() < 5 {
            Err(DetermError::InvalidHeapText)
        } else if s.len() < 5 + read_le_u32(s, 1) {
            Err(DetermError::TruncatedHeapText)
        } else {
            Ok(ValueModel::HeapText(s.subrange(5, 5 + read_le_u32(s, 1))))
        }
    } else if s[0] == 5 {
        if s.len() < 2 { Err(DetermError::InvalidBoolean) } else { Ok(ValueModel::Boolean(s[1] != 0)) }
    } else if s[0] == 6 {
        if s.len() < 9 { Err(DetermError::InvalidTimestamp) } else { Ok(ValueModel::Timestamp(read_le_u64(s, 1) as i64)) }
    } else if s[0] == 7 {
        if s.len() < 5 {
            Err(DetermError::InvalidExtension)
        } else if s.len() < 5 + read_le_u32(s, 1) {
            Err(DetermError::TruncatedExtension)
        } else {
            Ok(ValueModel::Extension(s.subrange(5, 5 + read_le_u32(s, 1))))
        }
    } else {
        Err(DetermError::UnknownTypeTag(s[0]))
    }
}

/// A value as the constructors and the decoder make it: inline text has
/// zero bytes after its length, and byte buffers fit the 4-byte length field.
pub open spec fn model_canonical(m: ValueModel) -> bool {
    model_wf(m) && match m {
        ValueModel::InlineText(d, l) => forall|i: int| l <= i < 15 ==> d[i] == 0,
        ValueModel::HeapText(d) => d.len() <= u32::MAX,
        ValueModel::Extension(d) => d.len() <= u32::MAX,
        _ => true,
    }
}

/// The hash of a value: the XOR digest of its encoding.
pub open spec fn spec_value_hash(m: ValueModel) -> Seq<u8> {
    xor_digest(spec_encode(m))
}

/// Decoding the encoding of a value gives the value back, whatever bytes
/// follow it.
pub proof fn lemma_decode_encode(m: ValueModel, rest: Seq<u8>)
    requires
        model_canonical(m),
    ensures
        spec_decode(spec_encode(m) + rest) == Ok::<ValueModel, DetermError>(m),
        spec_encode(m).len() == spec_encoded_len(m),
{
    let e = spec_encode(m);
    let s = e + rest;
    match m {
        ValueModel::Integer(v) => {
            assert(s.subrange(1, 9) =~= le_u64(v as u64));
            lemma_read_le_u64(s, 1, v as u64);
            assert((v as u64) as i64 == v) by (bit_vector);
        },
        ValueModel::Float(b) => {
            assert(s.subrange(1, 9) =~= le_u64(b));
            lemma_read_le_u64(s, 1, b);
        },
        ValueModel::Timestamp(v) => {
            assert(s.subrange(1, 9) =~= le_u64(v as u64));
            lemma_read_le_u64(s, 1, v as u64);
            assert((v as u64) as i64 == v) by (bit_vector);
        },
        ValueModel::InlineText(d, l) => {
            assert(s[1] == l);
            assert(pad15(s.subrange(2, 2 + l)) =~= d);
        },
        ValueModel::HeapText(d) => {
            assert(s.subrange(1, 5) =~= le_u32(d.len() as u32));
            lemma_read_le_u32(s, 1, d.len() as u32);
            assert(s.subrange(5, 5 + d.len() as int) =~= d);
        },
        ValueModel::Extension(d) => {
            assert(s.subrange(1, 5) =~= le_u32(d.len() as u32));
            lemma_read_le_u32(s, 1, d.len() as u32);
            assert(s.subrange(5, 5 + d.len() as int) =~= d);
        },
        ValueModel::Boolean(b) => {},
        ValueModel::Null => {},
    }
}

impl DetermValue {
    /// Data type tag for Null
    pub const TYPE_NULL: u8 = 0;
    /// Data type tag for Integer
    pub const TYPE_INTEGER: u8 = 1;
    /// Data type tag for Float
    pub const TYPE_FLOAT: u8 = 2;
    /// Data type tag for InlineText
    pub const TYPE_INLINE_TEXT: u8 = 3;
    /// Data type tag for HeapText
    pub const TYPE_HEAP_TEXT: u8 = 4;
    /// Data type tag for Boolean
    pub const TYPE_BOOLEAN: u8 = 5;
    /// Data type tag for Timestamp
    pub const TYPE_TIMESTAMP: u8 = 6;
    /// Data type tag for Extension
    pub const TYPE_EXTENSION: u8 = 7;

    /// Create a NULL value
    pub fn null() -> (v: Self)
        ensures
            v@ == ValueModel::Null,
    {
        DetermValue::Null
    }

    /// Create an integer value
    pub fn integer(value: i64) -> (v: Self)
        ensures
            v@ == ValueModel::Integer(value),
    {
        DetermValue::Integer(value)
    }

    /// Create a float value from its IEEE-754 bit pattern.
    pub fn float_bits(bits: u64) -> (v: Self)
        ensures
            v@ == ValueModel::Float(bits),
    {
        DetermValue::Float(bits)
    }

    /// Create a text value from its UTF-8 bytes: inline when at most 15
    /// bytes, on the heap otherwise.
    pub fn text_bytes(bytes: &[u8]) -> (v: Self)
        ensures
            bytes@.len() <= 15 ==> v@ == ValueModel::InlineText(pad15(bytes@), bytes@.len() as u8),
            bytes@.len() > 15 ==> v@ == ValueModel::HeapText(bytes@),
    {
        if bytes.len() <= 15 {
            let mut inline = [0u8; 15];
            let n = bytes.len();
            let mut i: usize = 0;
            while i < n
                invariant
                    i <= n,
                    n == bytes@.len(),
                    n <= 15,
                    forall|j: int| 0 <= j < i ==> inline@[j] == bytes@[j],
                    forall|j: int| i <= j < 15 ==> inline@[j] == 0,
                decreases n - i,
            {
                inline[i] = bytes[i];
                i = i + 1;
            }
            assert(inline@ =~= pad15(bytes@));
            DetermValue::InlineText(inline, n as u8)
        } else {
            let d = copy_range(bytes, 0, bytes.len());
            assert(d@ =~= bytes@);
            DetermValue::HeapText(d)
        }
    }

    /// Create a text value (inline or heap based on length)
    pub fn text(value: &str) -> (v: Self)
        ensures
            value.spec_bytes().len() <= 15 ==> v@ == ValueModel::InlineText(
                pad15(value.spec_bytes()),
                value.spec_bytes().len() as u8,
            ),
            value.spec_bytes().len() > 15 ==> v@ == ValueModel::HeapText(value.spec_bytes()),
    {
        Self::text_bytes(value.as_bytes())
    }

    /// Create a boolean value
    pub fn boolean(value: bool) -> (v: Self)
        ensures
            v@ == ValueModel::Boolean(value),
    {
        DetermValue::Boolean(value)
    }

    /// Create a timestamp value
    pub fn timestamp(value: i64) -> (v: Self)
        ensures
            v@ == ValueModel::Timestamp(value),
    {
        DetermValue::Timestamp(value)
    }

    /// Returns the data type tag of this value
    pub fn data_type(&self) -> (t: u8)
        ensures
            t == model_tag(self@),
    {
        match self {
            DetermValue::Null => Self::TYPE_NULL,
            DetermValue::Integer(_) => Self::TYPE_INTEGER,
            DetermValue::Float(_) => Self::TYPE_FLOAT,
            DetermValue::InlineText(_, _) => Self::TYPE_INLINE_TEXT,
            DetermValue::HeapText(_) => Self::TYPE_HEAP_TEXT,
            DetermValue::Boolean(_) => Self::TYPE_BOOLEAN,
            DetermValue::Timestamp(_) => Self::TYPE_TIMESTAMP,
            DetermValue::Extension(_) => Self::TYPE_EXTENSION,
        }
    }

    /// Returns true if this value is NULL
    pub fn is_null(&self) -> (b: bool)
        ensures
            b == (self@ is Null),
    {
        match self {
            DetermValue::Null => true,
            _ => false,
        }
    }

    /// The integer held by an `Integer` value.
    pub fn as_integer(&self) -> (r: Option<i64>)
        ensures
            r == (match self@ {
                ValueModel::Integer(v) => Some(v),
                _ => None,
            }),
    {
        match self {
            DetermValue::Integer(v) => Some(*v),
            _ => None,
        }
    }

    /// A copy of this value.
    pub fn duplicate(&self) -> (r: Self)
        ensures
            r@ == self@,
    {
        match self {
            DetermValue::Null => DetermValue::Null,
            DetermValue::Integer(v) => DetermValue::Integer(*v),
            DetermValue::Float(b) => DetermValue::Float(*b),
            DetermValue::InlineText(d, l) => DetermValue::InlineText(*d, *l),
            DetermValue::HeapText(d) => {
                let c = copy_range(d.as_slice(), 0, d.len());
                assert(c@ =~= d@);
                DetermValue::HeapText(c)
            },
            DetermValue::Boolean(b) => DetermValue::Boolean(*b),
            DetermValue::Timestamp(v) => DetermValue::Timestamp(*v),
            DetermValue::Extension(d) => {
                let c = copy_range(d.as_slice(), 0, d.len());
                assert(c@ =~= d@);
                DetermValue::Extension(c)
            },
        }
    }

    /// Encode this value to bytes
    pub fn encode(&self) -> (bytes: Vec<u8>)
        requires
            model_wf(self@),
        ensures
            bytes@ == spec_encode(self@),
    {
        let mut bytes: Vec<u8> = Vec::new();
        match self {
            DetermValue::Null => {
                bytes.push(Self::TYPE_NULL);
            },
            DetermValue::Integer(v) => {
                bytes.push(Self::TYPE_INTEGER);
                push_u64_le(&mut bytes, *v as u64);
            },
            DetermValue::Float(b) => {
                bytes.push(Self::TYPE_FLOAT);
                push_u64_le(&mut bytes, *b);
            },
            DetermValue::InlineText(data, len) => {
                bytes.push(Self::TYPE_INLINE_TEXT);
                bytes.push(*len);
                let n = *len as usize;
                let slice = data.as_slice();
                let part = copy_range(slice, 0, n);
                push_bytes(&mut bytes, part.as_slice());
            },
            DetermValue::HeapText(data) => {
                bytes.push(Self::TYPE_HEAP_TEXT);
                push_u32_le(&mut bytes, data.len() as u32);
                push_bytes(&mut bytes, data.as_slice());
            },
            DetermValue::Boolean(v) => {
                bytes.push(Self::TYPE_BOOLEAN);
                bytes.push(if *v { 1u8 } else { 0u8 });
            },
            DetermValue::Timestamp(v) => {
                bytes.push(Self::TYPE_TIMESTAMP);
                push_u64_le(&mut bytes, *v as u64);
            },
            DetermValue::Extension(data) => {
                bytes.push(Self::TYPE_EXTENSION);
                push_u32_le(&mut bytes, data.len() as u32);
                push_bytes(&mut bytes, data.as_slice());
            },
        }
        assert(bytes@ =~= spec_encode(self@));
        bytes
    }

    /// Decode a value from bytes
    pub fn decode(data: &[u8]) -> (r: Result<Self, DetermError>)
        ensures
            match (r, spec_decode(data@)) {
                (Ok(v), Ok(m)) => v@ == m,
                (Err(e), Err(f)) => e == f,
                _ => false,
            },
    {
        let n = data.len();
        if n == 0 {
            return Err(DetermError::EmptyData);
        }
        let tag = data[0];
        if tag == Self::TYPE_NULL {
            Ok(DetermValue::Null)
        } else if tag == Self::TYPE_INTEGER {
            if n < 9 {
                return Err(DetermError::InvalidInteger);
            }
            Ok(DetermValue::Integer(read_u64_at(data, 1) as i64))
        } else if tag == Self::TYPE_FLOAT {
            if n < 9 {
                return Err(DetermError::InvalidFloat);
            }
            Ok(DetermValue::Float(read_u64_at(data, 1)))
        } else if tag == Self::TYPE_INLINE_TEXT {
            if n < 2 {
                return Err(DetermError::InvalidInlineText);
            }
            let len = data[1] as usize;
            if n < 2 + len || len > 15 {
                return Err(DetermError::InvalidInlineTextLength);
            }
            let mut inline = [0u8; 15];
            let mut i: usize = 0;
            while i < len
                invariant
                    i <= len,
                    len <= 15,
                    2 + len <= n,
                    n == data@.len(),
                    forall|j: int| 0 <= j < i ==> inline@[j] == data@[2 + j],
                    forall|j: int| i <= j < 15 ==> inline@[j] == 0,
                decreases len - i,
            {
                inline[i] = data[2 + i];
                i = i + 1;
            }
            assert(inline@ =~= pad15(data@.subrange(2, 2 + len)));
            Ok(DetermValue::InlineText(inline, len as u8))
        } else if tag == Self::TYPE_HEAP_TEXT {
            if n < 5 {
                return Err(DetermError::InvalidHeapText);
            }
            let len = read_u32_at(data, 1) as usize;
            if n - 5 < len {
                return Err(DetermError::TruncatedHeapText);
            }
            Ok(DetermValue::HeapText(copy_range(data, 5, 5 + len)))
        } else if tag == Self::TYPE_BOOLEAN {
            if n < 2 {
                return Err(DetermError::InvalidBoolean);
            }
            Ok(DetermValue::Boolean(data[1] != 0))
        } else if tag == Self::TYPE_TIMESTAMP {
            if n < 9 {
                return Err(DetermError::InvalidTimestamp);
            }
            Ok(DetermValue::Timestamp(read_u64_at(data, 1) as i64))
        } else if tag == Self::TYPE_EXTENSION {
            if n < 5 {
                return Err(DetermError::InvalidExtension);
            }
            let len = read_u32_at(data, 1) as usize;
            if n - 5 < len {
                return Err(DetermError::TruncatedExtension);
            }
            Ok(DetermValue::Extension(copy_range(data, 5, 5 + len)))
        } else {
            Err(DetermError::UnknownTypeTag(tag))
        }
    }

    /// Returns the encoded length of this value
    pub fn encoded_len(&self) -> (n: usize)
        requires
            self@ matches ValueModel::HeapText(d) ==> d.len() + 5 <= usize::MAX,
            self@ matches ValueModel::Extension(d) ==> d.len() + 5 <= usize::MAX,
        ensures
            n == spec_encoded_len(self@),
    {
        match self {
            DetermValue::Null => 1,
            DetermValue::Integer(_) => 9,
            DetermValue::Float(_) => 9,
            DetermValue::InlineText(_, len) => 2 + *len as usize,
            DetermValue::HeapText(data) => 5 + data.len(),
            DetermValue::Boolean(_) => 2,
            DetermValue::Timestamp(_) => 9,
            DetermValue::Extension(data) => 5 + data.len(),
        }
    }

    /// Compute the Merkle hash of this value: the XOR digest of the bytes
    /// of its encoding.
    pub fn hash(&self) -> (h: [u8; 32])
        requires
            model_wf(self@),
        ensures
            h@ == spec_value_hash(self@),
    {
        let bytes = self.encode();
        digest(bytes.as_slice())
    }
}

} // verus!
