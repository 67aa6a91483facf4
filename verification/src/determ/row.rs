//! Deterministic rows: sequences of values with a counted encoding and a
//! hash over the hashes of their values.

use vstd::prelude::*;
use crate::bytes::{le_u32, read_le_u32, push_bytes, push_u32_le, read_u32_at, lemma_read_le_u32};
use crate::determ::hasher::{absorb, xor_digest, zero_state, lemma_absorb_len, lemma_absorb_concat, MerkleHasher};
use crate::determ::value::{
    DetermError, DetermValue, ValueModel, model_wf, model_canonical, spec_decode, spec_encode,
    spec_value_hash, lemma_decode_encode,
};

verus! {

/// Deterministic Row type: a collection of deterministic values.
#[derive(Debug, Clone, PartialEq, Eq)]
pub struct DetermRow {
    pub values: Vec<DetermValue>,
}

impl View for DetermRow {
    type V = Seq<ValueModel>;

    open spec fn view(&self) -> Seq<ValueModel> {
        self.values@.map_values(|v: DetermValue| v@)
    }
}

/// Every value of the row can be encoded.
pub open spec fn row_wf(vs: Seq<ValueModel>) -> bool {
    forall|i: int| 0 <= i < vs.len() ==> model_wf(#[trigger] vs[i])
}

/// The encodings of the values, one after the other.
pub open spec fn encode_values(vs: Seq<ValueModel>) -> Seq<u8>
    decreases vs.len(),
{
    if vs.len() == 0 {
        Seq::empty()
    } else {
        encode_values(vs.drop_last()) + spec_encode(vs.last())
    }
}

/// The encoding of a row: the number of values as a 4-byte little-endian
/// count, then the encodings of the values.
pub open spec fn spec_encode_row(vs: Seq<ValueModel>) -> Seq<u8> {
    le_u32(vs.len() as u32) + encode_values(vs)
}

/// The hashes of the values, one after the other.
pub open spec fn concat_value_hashes(vs: Seq<ValueModel>) -> Seq<u8>
    decreases vs.len(),
{
    if vs.len() == 0 {
        Seq::empty()
    } else {
        concat_value_hashes(vs.drop_last()) + spec_value_hash(vs.last())
    }
}

/// The hash of a row: the XOR digest of the concatenated value hashes.
pub open spec fn spec_row_hash(vs: Seq<ValueModel>) -> Seq<u8> {
    xor_digest(concat_value_hashes(vs))
}

/// The number of bytes the row decoder takes for a value with tag `tag`,
/// judging by the tag alone.
pub open spec fn header_len(tag: u8) -> Option<int> {
    if tag == 0 {
        Some(1)
    } else if tag == 1 || tag == 2 || tag == 6 {
        Some(9)
    } else if tag == 3 {
        Some(16)
    } else if tag == 4 || tag == 7 {
        Some(5)
    } else if tag == 5 {
        Some(2)
    } else {
        None
    }
}

/// Decoding `remaining` values from `s` starting at `offset`: each value is
/// decoded from the window of `header_len` bytes that its tag names.
pub open spec fn decode_values(s: Seq<u8>, offset: int, remaining: nat) -> Result<Seq<ValueModel>, DetermError>
    decreases remaining,
{
    if remaining == 0 {
        Ok(Seq::empty())
    } else if offset >= s.len() || offset < 0 {
        Err(DetermError::RowTruncated)
    } else {
        match header_len(s[offset]) {
            None => Err(DetermError::RowInvalidTypeTag(s[offset])),
            Some(h) => {
                if offset + h > s.len() {
                    Err(DetermError::RowTruncatedValue)
                } else {
                    match spec_decode(s.subrange(offset, offset + h)) {
                        Err(e) => Err(e),
                        Ok(v) => match decode_values(s, offset + h, (remaining - 1) as nat) {
                            Err(e) => Err(e),
                            Ok(rest) => Ok(seq![v] + rest),
                        },
                    }
                }
            },
        }
    }
}

/// What decoding a byte string as a row gives.
pub open spec fn spec_decode_row(s: Seq<u8>) -> Result<Seq<ValueModel>, DetermError> {
    if s.len() < 4 {
        Err(DetermError::RowTooShort)
    } else {
        decode_values(s, 4, read_le_u32(s, 0) as nat)
    }
}

/// A value whose encoding is exactly as long as the window the row decoder
/// gives its tag.
pub open spec fn fixed_width(m: ValueModel) -> bool {
    match m {
        ValueModel::Null => true,
        ValueModel::Integer(_) => true,
        ValueModel::Float(_) => true,
        ValueModel::Boolean(_) => true,
        ValueModel::Timestamp(_) => true,
        ValueModel::InlineText(_, l) => l == 14,
        ValueModel::HeapText(d) => d.len() == 0,
        ValueModel::Extension(d) => d.len() == 0,
    }
}

proof fn lemma_encode_values_prefix(vs: Seq<ValueModel>, i: int)
    requires
        0 <= i <= vs.len(),
    ensures
        encode_values(vs.subrange(0, i)) + encode_values(vs.subrange(i, vs.len() as int)) == encode_values(vs),
    decreases vs.len() - i,
{
    if i == vs.len() {
        assert(vs.subrange(0, i) =~= vs);
        assert(vs.subrange(i, vs.len() as int) =~= Seq::<ValueModel>::empty());
        assert(encode_values(Seq::<ValueModel>::empty()) =~= Seq::<u8>::empty());
        assert(encode_values(vs) + Seq::<u8>::empty() =~= encode_values(vs));
    } else {
        lemma_encode_values_prefix(vs, i + 1);
        lemma_encode_values_split_first(vs.subrange(i, vs.len() as int));
        assert(vs.subrange(0, i + 1).drop_last() =~= vs.subrange(0, i));
        assert(vs.subrange(i, vs.len() as int).drop_first() =~= vs.subrange(i + 1, vs.len() as int));
        assert(vs.subrange(0, i + 1).last() == vs[i]);
        assert(encode_values(vs.subrange(0, i + 1)) == encode_values(vs.subrange(0, i)) + spec_encode(vs[i]));
        assert(encode_values(vs.subrange(0, i)) + spec_encode(vs[i]) + encode_values(vs.subrange(i + 1, vs.len() as int))
            =~= encode_values(vs.subrange(0, i)) + (spec_encode(vs[i]) + encode_values(vs.subrange(i + 1, vs.len() as int))));
    }
}

proof fn lemma_encode_values_split_first(vs: Seq<ValueModel>)
    requires
        vs.len() > 0,
    ensures
        encode_values(vs) == spec_encode(vs[0]) + encode_values(vs.drop_first()),
    decreases vs.len(),
{
    if vs.len() == 1 {
        assert(vs.drop_last() =~= Seq::<ValueModel>::empty());
        assert(vs.drop_first() =~= Seq::<ValueModel>::empty());
        assert(encode_values(Seq::<ValueModel>::empty()) =~= Seq::<u8>::empty());
        assert(Seq::<u8>::empty() + spec_encode(vs[0]) =~= spec_encode(vs[0]));
        assert(spec_encode(vs[0]) + Seq::<u8>::empty() =~= spec_encode(vs[0]));
    } else {
        lemma_encode_values_split_first(vs.drop_last());
        assert(vs.drop_last().drop_first() =~= vs.drop_first().drop_last());
        assert(vs.drop_first().last() == vs.last());
        assert(vs.drop_last()[0] == vs[0]);
        assert(spec_encode(vs[0]) + encode_values(vs.drop_first().drop_last()) + spec_encode(vs.last())
            =~= spec_encode(vs[0]) + (encode_values(vs.drop_first().drop_last()) + spec_encode(vs.last())));
    }
}

proof fn lemma_decode_values_fixed(vs: Seq<ValueModel>, prefix: Seq<u8>, rest: Seq<u8>)
    requires
        forall|i: int| 0 <= i < vs.len() ==> model_canonical(#[trigger] vs[i]) && fixed_width(vs[i]),
    ensures
        decode_values(prefix + encode_values(vs) + rest, prefix.len() as int, vs.len()) == Ok::<Seq<ValueModel>, DetermError>(vs),
    decreases vs.len(),
{
    if vs.len() == 0 {
        assert(vs =~= Seq::<ValueModel>::empty());
    } else {
        let s = prefix + encode_values(vs) + rest;
        let v = vs[0];
        let e = spec_encode(v);
        lemma_encode_values_split_first(vs);
        lemma_decode_encode(v, Seq::empty());
        assert(e + Seq::<u8>::empty() =~= e);
        let off = prefix.len() as int;
        assert(s[off] == e[0]);
        let h = e.len() as int;
        assert(header_len(s[off]) == Some(h));
        assert(s.subrange(off, off + h) =~= e);
        let p2 = prefix + e;
        assert(s =~= p2 + encode_values(vs.drop_first()) + rest);
        assert forall|i: int| 0 <= i < vs.drop_first().len() implies model_canonical(#[trigger] vs.drop_first()[i])
            && fixed_width(vs.drop_first()[i]) by {
            assert(vs.drop_first()[i] == vs[i + 1]);
        }
        lemma_decode_values_fixed(vs.drop_first(), p2, rest);
        assert(spec_decode(s.subrange(off, off + h)) == Ok::<ValueModel, DetermError>(v));
        assert(off + h == p2.len());
        assert(decode_values(s, off + h, (vs.len() - 1) as nat) == Ok::<Seq<ValueModel>, DetermError>(vs.drop_first()));
        assert(seq![v] + vs.drop_first() =~= vs);
    }
}

/// Decoding the encoding of a row gives its values back when every value
/// is of fixed width; the decoder takes a window of fixed size per tag, so
/// for other rows it reads the wrong bytes.
pub proof fn lemma_row_decode_encode(vs: Seq<ValueModel>)
    requires
        vs.len() <= u32::MAX,
        forall|i: int| 0 <= i < vs.len() ==> model_canonical(#[trigger] vs[i]) && fixed_width(vs[i]),
    ensures
        spec_decode_row(spec_encode_row(vs)) == Ok::<Seq<ValueModel>, DetermError>(vs),
{
    let s = spec_encode_row(vs);
    assert(s.subrange(0, 4) =~= le_u32(vs.len() as u32));
    lemma_read_le_u32(s, 0, vs.len() as u32);
    assert(s =~= le_u32(vs.len() as u32) + encode_values(vs) + Seq::<u8>::empty());
    lemma_decode_values_fixed(vs, le_u32(vs.len() as u32), Seq::empty());
}

impl DetermRow {
    /// Create a new empty row
    pub fn new() -> (r: Self)
        ensures
            r@ == Seq::<ValueModel>::empty(),
    {
        let r = Self { values: Vec::new() };
        assert(r@ =~= Seq::<ValueModel>::empty());
        r
    }

    /// Create a row from values
    pub fn from_values(values: Vec<DetermValue>) -> (r: Self)
        ensures
            r.values@ == values@,
    {
        Self { values }
    }

    /// Get the number of values in the row
    pub fn len(&self) -> (n: usize)
        ensures
            n == self.values@.len(),
    {
        self.values.len()
    }

    /// Check if the row is empty
    pub fn is_empty(&self) -> (b: bool)
        ensures
            b == (self.values@.len() == 0),
    {
        self.values.len() == 0
    }

    /// A copy of the row.
    pub fn duplicate(&self) -> (r: Self)
        ensures
            r@ == self@,
    {
        let mut values: Vec<DetermValue> = Vec::new();
        let n = self.values.len();
        let mut i: usize = 0;
        while i < n
            invariant
                i <= n,
                n == self.values@.len(),
                values@.len() == i,
                forall|j: int| 0 <= j < i ==> (#[trigger] values@[j])@ == self.values@[j]@,
            decreases n - i,
        {
            values.push(self.values[i].duplicate());
            i = i + 1;
        }
        let r = Self { values };
        assert(r@ =~= self@);
        r
    }

    /// Compute Merkle hash of the row: the hasher is fed the hash of each
    /// value in turn.
    pub fn hash(&self) -> (h: [u8; 32])
        requires
            row_wf(self@),
        ensures
            h@ == spec_row_hash(self@),
    {
        let mut hasher = MerkleHasher::new();
        let n = self.values.len();
        let mut i: usize = 0;
        while i < n
            invariant
                i <= n,
                n == self.values@.len(),
                row_wf(self@),
                hasher.state_view() == xor_digest(concat_value_hashes(self@.subrange(0, i as int))),
                hasher.pos() == concat_value_hashes(self@.subrange(0, i as int)).len() % 32,
            decreases n - i,
        {
            assert(model_wf(self@[i as int]));
            let vh = self.values[i].hash();
            let ghost prev = concat_value_hashes(self@.subrange(0, i as int));
            hasher.input(&vh);
            proof {
                lemma_absorb_concat(zero_state(), 0, prev, vh@);
                assert(self@.subrange(0, i + 1).drop_last() =~= self@.subrange(0, i as int));
                assert(self@.subrange(0, i + 1).last() == self.values@[i as int]@);
            }
            i = i + 1;
        }
        assert(self@.subrange(0, n as int) =~= self@);
        hasher.finalize()
    }

    /// Encode the row to bytes: the value count as a 4-byte little-endian
    /// number, then each value's encoding.
    pub fn encode(&self) -> (bytes: Vec<u8>)
        requires
            row_wf(self@),
        ensures
            bytes@ == spec_encode_row(self@),
    {
        let mut bytes: Vec<u8> = Vec::new();
        let n = self.values.len();
        push_u32_le(&mut bytes, n as u32);
        let mut i: usize = 0;
        while i < n
            invariant
                i <= n,
                n == self.values@.len(),
                row_wf(self@),
                bytes@ == le_u32(n as u32) + encode_values(self@.subrange(0, i as int)),
            decreases n - i,
        {
            assert(model_wf(self@[i as int]));
            let e = self.values[i].encode();
            push_bytes(&mut bytes, e.as_slice());
            proof {
                assert(self@.subrange(0, i + 1).drop_last() =~= self@.subrange(0, i as int));
                assert(self@.subrange(0, i + 1).last() == self.values@[i as int]@);
            }
            i = i + 1;
            assert(bytes@ =~= le_u32(n as u32) + encode_values(self@.subrange(0, i as int)));
        }
        assert(self@.subrange(0, n as int) =~= self@);
        bytes
    }

    /// Decode a row from bytes
    pub fn decode(data: &[u8]) -> (r: Result<Self, DetermError>)
        ensures
            match (r, spec_decode_row(data@)) {
                (Ok(row), Ok(vs)) => row@ == vs,
                (Err(e), Err(f)) => e == f,
                _ => false,
            },
    {
        let n = data.len();
        if n < 4 {
            return Err(DetermError::RowTooShort);
        }
        let len = read_u32_at(data, 0);
        let mut values: Vec<DetermValue> = Vec::new();
        let mut offset: usize = 4;
        let mut k: u32 = 0;
        while k < len
            invariant
                n == data@.len(),
                4 <= offset <= n,
                k <= len,
                len == read_le_u32(data@, 0),
                decode_values(data@, 4, len as nat) == (match decode_values(data@, offset as int, (len - k) as nat) {
                    Ok(rest) => Ok(values@.map_values(|v: DetermValue| v@) + rest),
                    Err(e) => Err::<Seq<ValueModel>, DetermError>(e),
                }),
            decreases len - k,
        {
            if offset >= n {
                return Err(DetermError::RowTruncated);
            }
            let type_tag = data[offset];
            let width: usize = if type_tag == 0 {
                1
            } else if type_tag == 1 || type_tag == 2 || type_tag == 6 {
                9
            } else if type_tag == 3 {
                16
            } else if type_tag == 4 || type_tag == 7 {
                5
            } else if type_tag == 5 {
                2
            } else {
                return Err(DetermError::RowInvalidTypeTag(type_tag));
            };
            if n - offset < width {
                return Err(DetermError::RowTruncatedValue);
            }
            let value_end = offset + width;
            let window = copy_window(data, offset, value_end);
            let ghost vals_before = values@.map_values(|v: DetermValue| v@);
            match DetermValue::decode(window.as_slice()) {
                Err(e) => {
                    return Err(e);
                },
                Ok(value) => {
                    values.push(value);
                    proof {
                        assert(values@.map_values(|v: DetermValue| v@) =~= vals_before.push(value@));
                        let r = decode_values(data@, value_end as int, (len - k - 1) as nat);
                        match r {
                            Ok(rest) => {
                                assert(vals_before.push(value@) + rest =~= vals_before + (seq![value@] + rest));
                            },
                            Err(_) => {},
                        }
                    }
                },
            }
            offset = value_end;
            k = k + 1;
        }
        assert(values@.map_values(|v: DetermValue| v@) + Seq::<ValueModel>::empty() =~= values@.map_values(|v: DetermValue| v@));
        let row = Self { values };
        Ok(row)
    }
}

/// A fresh vector holding `data[start..end]`.
fn copy_window(data: &[u8], start: usize, end: usize) -> (r: Vec<u8>)
    requires
        start <= end <= data@.len(),
    ensures
        r@ == data@.subrange(start as int, end as int),
{
    crate::bytes::copy_range(data, start, end)
}

impl Default for DetermRow {
    fn default() -> (r: Self)
        ensures
            r@ == Seq::<ValueModel>::empty(),
    {
        Self::new()
    }
}

} // verus!
